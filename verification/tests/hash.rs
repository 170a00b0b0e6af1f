use pxsum::hash::neutralize;
use pxsum::{Layout, PxImage, PxsumError};

fn image(buf: &[u8], layout: Layout) -> PxImage {
    match PxImage::new(buf.to_vec(), layout) {
        Ok(img) => img,
        Err(e) => panic!("{e:?}"),
    }
}

fn loose(buf: &[u8]) -> [u8; 32] {
    image(buf, Layout::Rgba8).into_checksum(false)
}

fn strict(buf: &[u8]) -> [u8; 32] {
    image(buf, Layout::Rgba8).into_checksum(true)
}

/// BLAKE3 of `buf` with the mode bit set or cleared by hand.
fn expected(buf: &[u8], strict: bool) -> [u8; 32] {
    let mut out: [u8; 32] = *blake3::hash(buf).as_bytes();
    if strict {
        out[0] |= 1;
    } else {
        out[0] &= 0xfe;
    }
    out
}

#[test]
fn t_new_checks_buffer() {
    assert!(matches!(PxImage::new(Vec::new(), Layout::Rgba8), Err(PxsumError::NoData)));
    for len in [1_usize, 2, 3, 5, 6, 7, 1001] {
        assert!(
            matches!(PxImage::new(vec![0; len], Layout::Rgba8), Err(PxsumError::Decode)),
            "{len}",
        );
    }
    for len in [4_usize, 8, 12, 1000] {
        assert!(PxImage::new(vec![0; len], Layout::Rgba8).is_ok(), "{len}");
    }
}

#[test]
fn t_layout_alpha() {
    assert!(Layout::Luma8.no_alpha());
    assert!(Layout::Rgb8.no_alpha());
    assert!(Layout::Luma16.no_alpha());
    assert!(Layout::Rgb16.no_alpha());
    assert!(Layout::Rgb32F.no_alpha());
    assert!(!Layout::LumaA8.no_alpha());
    assert!(!Layout::Rgba8.no_alpha());
    assert!(!Layout::LumaA16.no_alpha());
    assert!(!Layout::Rgba16.no_alpha());
    assert!(!Layout::Rgba32F.no_alpha());
    assert!(!Layout::Other.no_alpha());
}

#[test]
fn t_neutralize() {
    let mut buf = vec![1, 2, 3, 0, 4, 5, 6, 255, 9, 9, 9, 0, 7, 7, 7, 1];
    neutralize(&mut buf);
    assert_eq!(buf, [0, 0, 0, 0, 4, 5, 6, 255, 2, 0, 0, 0, 7, 7, 7, 1]);

    // Bytes that make no whole pixel are left alone.
    let mut buf = vec![8, 8, 8, 0, 3, 3, 0];
    neutralize(&mut buf);
    assert_eq!(buf, [0, 0, 0, 0, 3, 3, 0]);

    let mut buf: Vec<u8> = Vec::new();
    neutralize(&mut buf);
    assert!(buf.is_empty());
}

#[test]
fn t_neutralize_index_bytes() {
    // Pixel 258 = 0x0102, pixel 65536 = 0x01_0000: least significant byte first.
    let mut buf = vec![0xab_u8; 4 * 65537];
    for px in buf.chunks_exact_mut(4) {
        px[3] = 0xff;
    }
    buf[4 * 258 + 3] = 0;
    buf[4 * 65536 + 3] = 0;
    let mut out = buf.clone();
    neutralize(&mut out);
    assert_eq!(out[4 * 258..4 * 259], [0x02, 0x01, 0x00, 0x00]);
    assert_eq!(out[4 * 65536..4 * 65537], [0x00, 0x00, 0x01, 0x00]);
    // Nothing else moved.
    out[4 * 258..4 * 259].copy_from_slice(&[0xab, 0xab, 0xab, 0]);
    out[4 * 65536..4 * 65537].copy_from_slice(&[0xab, 0xab, 0xab, 0]);
    assert_eq!(out, buf);
}

#[test]
fn t_checksum_is_blake3() {
    let opaque = [10, 20, 30, 255, 40, 50, 60, 128];
    assert_eq!(loose(&opaque), expected(&opaque, false));
    assert_eq!(strict(&opaque), expected(&opaque, true));

    // Loose mode hashes the neutralized pixels, strict mode the pixels.
    let holey = [10, 20, 30, 255, 40, 50, 60, 0, 70, 80, 90, 0];
    let neutral = [10, 20, 30, 255, 1, 0, 0, 0, 2, 0, 0, 0];
    assert_eq!(loose(&holey), expected(&neutral, false));
    assert_eq!(strict(&holey), expected(&holey, true));
    assert_ne!(loose(&holey), expected(&holey, false));
}

#[test]
fn t_checksum_known_value() {
    // BLAKE3 of four zero bytes, which is what one invisible pixel at index
    // zero is hashed as.
    let digest = blake3::hash(&[0, 0, 0, 0]);
    assert_eq!(
        digest.to_hex().as_str(),
        "ec2bd03bf86b935fa34d71ad7ebb049f1f10f87d343e521511d8f9e6625620cd",
    );
    let mut want = *digest.as_bytes();
    want[0] &= 0xfe;
    assert_eq!(loose(&[1, 2, 3, 0]), want);
    assert_eq!(want[0], 0xec);
}

#[test]
fn t_no_alpha_skips_neutralizing() {
    // An image that is known to have no alpha channel is hashed as it is.
    let buf = [1, 2, 3, 0, 4, 5, 6, 0];
    for layout in [Layout::Rgb8, Layout::Luma8, Layout::Luma16, Layout::Rgb16, Layout::Rgb32F] {
        assert_eq!(image(&buf, layout).into_checksum(false), expected(&buf, false));
    }
    for layout in [Layout::Rgba8, Layout::LumaA8, Layout::LumaA16, Layout::Rgba16, Layout::Rgba32F] {
        assert_eq!(
            image(&buf, layout).into_checksum(false),
            expected(&[0, 0, 0, 0, 1, 0, 0, 0], false),
        );
    }
}

#[test]
fn t_strict_bit() {
    for seed in 0..64_u8 {
        let buf: Vec<u8> = (0..32).map(|i| seed.wrapping_mul(31).wrapping_add(i * 7)).collect();
        let l = loose(&buf);
        let s = strict(&buf);
        assert_eq!(l[0] & 1, 0);
        assert_eq!(s[0] & 1, 1);
        assert_ne!(l, s);
    }
}

#[test]
fn t_opaque_modes_differ_in_the_bit_only() {
    let buf = [9, 8, 7, 255, 6, 5, 4, 1];
    let l = loose(&buf);
    let mut s = strict(&buf);
    assert_ne!(l, s);
    s[0] &= 0xfe;
    assert_eq!(l, s);
}

#[test]
fn t_deterministic() {
    let buf: Vec<u8> = (0..=255).collect();
    assert_eq!(loose(&buf), loose(&buf));
    assert_eq!(strict(&buf), strict(&buf));
}

#[test]
fn t_invisible_pixels_neutral() {
    let a = [1, 2, 3, 255, 10, 20, 30, 0, 4, 5, 6, 7];
    let b = [1, 2, 3, 255, 99, 98, 97, 0, 4, 5, 6, 7];
    assert_eq!(loose(&a), loose(&b));
    assert_ne!(strict(&a), strict(&b));
    // A visible difference counts in both modes.
    let c = [1, 2, 4, 255, 10, 20, 30, 0, 4, 5, 6, 7];
    assert_ne!(loose(&a), loose(&c));
    assert_ne!(strict(&a), strict(&c));
    // So does the alpha itself.
    let d = [1, 2, 3, 255, 10, 20, 30, 1, 4, 5, 6, 7];
    assert_ne!(loose(&a), loose(&d));
}

#[test]
fn t_invisible_position_counts() {
    let a = [1, 2, 3, 0, 1, 2, 3, 255, 1, 2, 3, 255];
    let b = [1, 2, 3, 255, 1, 2, 3, 0, 1, 2, 3, 255];
    let c = [1, 2, 3, 255, 1, 2, 3, 255, 1, 2, 3, 0];
    assert_ne!(loose(&a), loose(&b));
    assert_ne!(loose(&b), loose(&c));
    assert_ne!(loose(&a), loose(&c));
}

#[test]
fn t_layout_from_shape() {
    let shapes = [
        (1, 1, Layout::Luma8),
        (2, 2, Layout::LumaA8),
        (3, 3, Layout::Rgb8),
        (4, 4, Layout::Rgba8),
        (1, 2, Layout::Luma16),
        (2, 4, Layout::LumaA16),
        (3, 6, Layout::Rgb16),
        (4, 8, Layout::Rgba16),
        (3, 12, Layout::Rgb32F),
        (4, 16, Layout::Rgba32F),
    ];
    for channels in 0..=5_u8 {
        for bytes in 0..=17_u8 {
            let want = shapes.iter()
                .find(|(c, b, _)| *c == channels && *b == bytes)
                .map_or(Layout::Other, |(_, _, l)| *l);
            assert_eq!(Layout::from_shape(channels, bytes), want, "{channels} {bytes}");
        }
    }
}

#[test]
fn t_from_decoded() {
    // No answer is a decode failure.
    assert!(matches!(PxImage::from_decoded(None), Err(PxsumError::Decode)));
    // No bytes are no data, whatever the layout.
    for layout in [Layout::Rgba8, Layout::Luma8, Layout::Other] {
        assert!(matches!(PxImage::from_decoded(Some((Vec::new(), layout))), Err(PxsumError::NoData)));
    }
    // Bytes that make no whole pixels are a decode failure.
    for len in [1_usize, 2, 3, 5, 7, 9] {
        assert!(
            matches!(PxImage::from_decoded(Some((vec![1; len], Layout::Rgb8))), Err(PxsumError::Decode)),
            "{len}",
        );
    }
    // Whole pixels are an image, with or without alpha as the layout says.
    let buf = vec![1, 2, 3, 0, 4, 5, 6, 0];
    let with = match PxImage::from_decoded(Some((buf.clone(), Layout::Rgba8))) {
        Ok(img) => img.into_checksum(false),
        Err(e) => panic!("{e:?}"),
    };
    let without = match PxImage::from_decoded(Some((buf.clone(), Layout::Rgb8))) {
        Ok(img) => img.into_checksum(false),
        Err(e) => panic!("{e:?}"),
    };
    assert_eq!(with, expected(&[0, 0, 0, 0, 1, 0, 0, 0], false));
    assert_eq!(without, expected(&buf, false));
}
