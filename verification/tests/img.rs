use pxsum::{PxKind, PxsumError};

/// Sixteen bytes that begin with `head`, zero after it.
fn primed(head: &[u8]) -> [u8; 16] {
    let mut buf = [0_u8; 16];
    buf[..head.len()].copy_from_slice(head);
    buf
}

#[test]
fn t_guess() {
    let cases: Vec<(Vec<u8>, Option<PxKind>)> = vec![
        (vec![0xff, 0xd8, 0xff, 0xe0], Some(PxKind::Jpeg)),
        (vec![0xff, 0xd8, 0xff, 0xdb], Some(PxKind::Jpeg)),
        (b"\x89PNG\r\n\x1a\n".to_vec(), Some(PxKind::Png)),
        (b"GIF87a".to_vec(), Some(PxKind::Gif)),
        (b"GIF89a".to_vec(), Some(PxKind::Gif)),
        (b"RIFF\x24\x00\x00\x00WEBP".to_vec(), Some(PxKind::WebP)),
        (b"\x00\x00\x00\x20ftypavif".to_vec(), Some(PxKind::Avif)),
        (b"\x00\x00\x00\x1cftypavif".to_vec(), Some(PxKind::Avif)),
        (vec![0xff, 0x0a], Some(PxKind::JpegXl)),
        (b"\x00\x00\x00\x0cJXL \r\n\x87\n".to_vec(), Some(PxKind::JpegXl)),
        (b"BM".to_vec(), Some(PxKind::Bmp)),
        (vec![0x00, 0x00, 0x01, 0x00], Some(PxKind::Ico)),
        (b"\x00\x00\x00\x0cjP  \r\n\x87\n".to_vec(), Some(PxKind::Jpeg2k)),
        (vec![0xff, b'O', 0xff, b'Q'], Some(PxKind::Jpeg2k)),
        (b"MM\x00*".to_vec(), Some(PxKind::Tiff)),
        (b"II*\x00".to_vec(), Some(PxKind::Tiff)),
        // Near misses.
        (vec![], None),
        (b"GIF88a".to_vec(), None),
        (b"GIF89b".to_vec(), None),
        (b"RIFF\x24\x00\x00\x00WAVE".to_vec(), None),
        (b"\x00\x00\x00\x18ftypavif".to_vec(), None),
        (b"\x00\x00\x00\x20ftypheic".to_vec(), None),
        (b"\x00\x00\x00\x0cJXL \r\n\x87\r".to_vec(), None),
        (b"\x00\x00\x00\x0cjP \x00\r\n\x87\n".to_vec(), None),
        (b"\x89PNG\r\n\x1a\r".to_vec(), None),
        (vec![0xff, 0xd8, 0x00], None),
        (vec![0xff, b'O', 0xff, b'R'], None),
        (b"MM*\x00".to_vec(), None),
        (b"II\x00*".to_vec(), None),
        (vec![0x00, 0x00, 0x02, 0x00], None),
        (b"<svg xmlns=".to_vec(), None),
    ];
    for (head, kind) in cases {
        let buf = primed(&head);
        assert_eq!(PxKind::try_from_magic(buf.as_slice()).ok(), kind, "{head:?}");
    }
}

#[test]
fn t_guess_short() {
    // Fewer than twelve bytes are never enough, whatever they are.
    assert_eq!(PxKind::try_from_magic(&[]), Err(PxsumError::Decode));
    assert_eq!(PxKind::try_from_magic(b"\x89PNG\r\n\x1a\n"), Err(PxsumError::Decode));
    assert_eq!(PxKind::try_from_magic(b"\x89PNG\r\n\x1a\n\x00\x00\x00"), Err(PxsumError::Decode));
    assert_eq!(PxKind::try_from_magic(&[0xff, 0xd8, 0xff]), Err(PxsumError::Decode));
    assert_eq!(PxKind::try_from_magic(b"BM"), Err(PxsumError::Decode));
    // Twelve are.
    assert_eq!(PxKind::try_from_magic(b"\x89PNG\r\n\x1a\n\x00\x00\x00\x0d"), Ok(PxKind::Png));
    assert_eq!(PxKind::try_from_magic(b"BM\x00\x00\x00\x00\x00\x00\x00\x00\x00\x00"), Ok(PxKind::Bmp));
}

#[test]
fn t_guess_looks_past_nothing() {
    // Only the first twelve bytes count.
    let mut a = primed(b"GIF89a").to_vec();
    let mut b = a.clone();
    a.extend_from_slice(b"RIFF....WEBP");
    b.extend_from_slice(&[0xff, 0xd8, 0xff]);
    assert_eq!(PxKind::try_from_magic(&a), Ok(PxKind::Gif));
    assert_eq!(PxKind::try_from_magic(&b), Ok(PxKind::Gif));
}

#[test]
fn t_guess_webp_size_is_free() {
    for size in [[0_u8; 4], [0xff; 4], [1, 2, 3, 4]] {
        let mut buf = b"RIFF".to_vec();
        buf.extend_from_slice(&size);
        buf.extend_from_slice(b"WEBPVP8 ");
        assert_eq!(PxKind::try_from_magic(&buf), Ok(PxKind::WebP));
    }
}
