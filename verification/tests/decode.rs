use pxsum::decode::{decode_jpeg2k, fits_size, Decoder};
use pxsum::{Channels, Samples};
use pxsum::{Checksum, PxKind, PxsumError};

/// The smallest JPEG 2000 codestream there is: one grey pixel, and not a
/// byte of data for it, which leaves it at mid grey.
fn tiny_j2k() -> Vec<u8> {
    let mut out = Vec::new();
    // Start of codestream.
    out.extend_from_slice(&[0xff, 0x4f]);
    // Image and tile size: 1 by 1, one tile, one component of 8 bits.
    out.extend_from_slice(&[0xff, 0x51, 0x00, 0x29, 0x00, 0x00]);
    out.extend_from_slice(&[0, 0, 0, 1, 0, 0, 0, 1, 0, 0, 0, 0, 0, 0, 0, 0]);
    out.extend_from_slice(&[0, 0, 0, 1, 0, 0, 0, 1, 0, 0, 0, 0, 0, 0, 0, 0]);
    out.extend_from_slice(&[0x00, 0x01, 0x07, 0x01, 0x01]);
    // Coding style: one layer, no decomposition, reversible transform.
    out.extend_from_slice(&[0xff, 0x52, 0x00, 0x0c, 0x00, 0x00, 0x00, 0x01, 0x00]);
    out.extend_from_slice(&[0x00, 0x04, 0x04, 0x00, 0x01]);
    // Quantization: none.
    out.extend_from_slice(&[0xff, 0x5c, 0x00, 0x04, 0x40, 0x40]);
    // The one tile part, with one empty packet.
    out.extend_from_slice(&[0xff, 0x90, 0x00, 0x0a, 0x00, 0x00, 0x00, 0x00, 0x00, 0x0f, 0x00, 0x01]);
    out.extend_from_slice(&[0xff, 0x93, 0x00]);
    // End of codestream.
    out.extend_from_slice(&[0xff, 0xd9]);
    out
}

fn blake3_stamped(buf: &[u8], strict: bool) -> [u8; 32] {
    let mut out: [u8; 32] = *blake3::hash(buf).as_bytes();
    if strict {
        out[0] |= 1;
    } else {
        out[0] &= 0xfe;
    }
    out
}

#[test]
fn t_jpeg2k_decodes() {
    let raw = tiny_j2k();
    assert_eq!(PxKind::try_from_magic(&raw), Ok(PxKind::Jpeg2k));
    assert_eq!(PxKind::Jpeg2k.decoder(), Decoder::Jpeg2k);
    let img = match decode_jpeg2k(&raw) {
        Ok(img) => img,
        Err(e) => panic!("{e:?}"),
    };
    // Grey has no alpha channel: the pixel is hashed as it is, opaque.
    let mut chk = Checksum::new(false);
    chk.crunch_image(img);
    let mut found = None;
    for v in 0..=255_u8 {
        if chk.chk() == blake3_stamped(&[v, v, v, 255], false) {
            found = Some(v);
        }
    }
    assert_eq!(found, Some(128));
}

#[test]
fn t_jpeg2k_refuses() {
    assert!(matches!(decode_jpeg2k(&[]), Err(PxsumError::Decode)));
    assert!(matches!(decode_jpeg2k(b"\x00\x00\x00\x0cjP  \r\n\x87\n"), Err(PxsumError::Decode)));
    let mut cut = tiny_j2k();
    cut.truncate(20);
    assert!(matches!(decode_jpeg2k(&cut), Err(PxsumError::Decode)));
}

/// A JPEG 2000 codestream of 2 by 2 pixels in three components, none with
/// a byte of data. `step` is how far apart the samples of the second and
/// the third component lie: 1 gives them a sample for every pixel, 2 gives
/// them one for all four.
fn three_components(step: u8) -> Vec<u8> {
    let mut out = Vec::new();
    out.extend_from_slice(&[0xff, 0x4f]);
    out.extend_from_slice(&[0xff, 0x51, 0x00, 0x2f, 0x00, 0x00]);
    out.extend_from_slice(&[0, 0, 0, 2, 0, 0, 0, 2, 0, 0, 0, 0, 0, 0, 0, 0]);
    out.extend_from_slice(&[0, 0, 0, 2, 0, 0, 0, 2, 0, 0, 0, 0, 0, 0, 0, 0]);
    out.extend_from_slice(&[0x00, 0x03]);
    out.extend_from_slice(&[0x07, 0x01, 0x01, 0x07, step, step, 0x07, step, step]);
    out.extend_from_slice(&[0xff, 0x52, 0x00, 0x0c, 0x00, 0x00, 0x00, 0x01, 0x00]);
    out.extend_from_slice(&[0x00, 0x04, 0x04, 0x00, 0x01]);
    out.extend_from_slice(&[0xff, 0x5c, 0x00, 0x04, 0x40, 0x40]);
    out.extend_from_slice(&[0xff, 0x90, 0x00, 0x0a, 0x00, 0x00, 0x00, 0x00, 0x00, 0x11, 0x00, 0x01]);
    out.extend_from_slice(&[0xff, 0x93, 0x00, 0x00, 0x00]);
    out.extend_from_slice(&[0xff, 0xd9]);
    out
}

#[test]
fn t_jpeg2k_three_components() {
    // Every component with a sample for every pixel: four grey pixels.
    let img = match decode_jpeg2k(&three_components(1)) {
        Ok(img) => img,
        Err(e) => panic!("{e:?}"),
    };
    let mut chk = Checksum::new(true);
    chk.crunch_image(img);
    let mut want = Vec::new();
    for _ in 0..4 {
        want.extend_from_slice(&[128, 128, 128, 255]);
    }
    assert_eq!(chk.chk(), blake3_stamped(&want, true));
}

#[test]
fn t_jpeg2k_subsampled_components() {
    // Two components with one sample for four pixels: the samples do not
    // fill the image, which is a decode failure and nothing worse.
    let raw = three_components(2);
    assert!(matches!(decode_jpeg2k(&raw), Err(PxsumError::Decode)));

    // It is the decoder's own answer that falls short: it reads the file,
    // and hands out 3 samples for 4 pixels of 3 channels.
    let px = match jpeg2k::Image::from_bytes(&raw).and_then(|img| img.get_pixels(None)) {
        Ok(px) => px,
        Err(e) => panic!("{e}"),
    };
    assert_eq!((px.width, px.height), (2, 2));
    assert!(matches!(px.data, jpeg2k::ImagePixelData::Rgb8(ref d) if d.len() == 3));
}

#[test]
fn t_samples_fit() {
    assert!(fits_size(2, 3, Channels::Luma, 6));
    assert!(fits_size(2, 3, Channels::LumaA, 12));
    assert!(fits_size(2, 3, Channels::Rgb, 18));
    assert!(fits_size(2, 3, Channels::Rgba, 24));
    assert!(!fits_size(2, 3, Channels::Rgb, 17));
    assert!(!fits_size(2, 3, Channels::Rgb, 19));
    assert!(!fits_size(2, 3, Channels::Rgb, 6));
    assert!(fits_size(0, 3, Channels::Rgb, 0));
    assert!(fits_size(3, 0, Channels::Rgba, 0));
    assert!(!fits_size(0, 3, Channels::Rgb, 3));
    // Sizes whose product does not fit 32 or 64 bits.
    assert!(!fits_size(u32::MAX, u32::MAX, Channels::Rgba, 0));
    assert!(!fits_size(u32::MAX, u32::MAX, Channels::Rgba, usize::MAX));
    assert!(!fits_size(0x1_0000, 0x1_0000, Channels::Luma, 0));
    assert_eq!(Channels::Luma.count(), 1);
    assert_eq!(Channels::LumaA.count(), 2);
    assert_eq!(Channels::Rgb.count(), 3);
    assert_eq!(Channels::Rgba.count(), 4);
}

#[test]
fn t_samples_into_rgba8() {
    // One byte to the sample: grey is spread, alpha is kept or made opaque.
    assert_eq!(Samples::L8(vec![7, 9]).into_rgba8(2, 1), Some(vec![7, 7, 7, 255, 9, 9, 9, 255]));
    assert_eq!(Samples::La8(vec![7, 1, 9, 0]).into_rgba8(1, 2), Some(vec![7, 7, 7, 1, 9, 9, 9, 0]));
    assert_eq!(Samples::Rgb8(vec![1, 2, 3]).into_rgba8(1, 1), Some(vec![1, 2, 3, 255]));
    assert_eq!(Samples::Rgba8(vec![1, 2, 3, 4]).into_rgba8(1, 1), Some(vec![1, 2, 3, 4]));
    // Two bytes to the sample: the ends of the range stay the ends.
    assert_eq!(Samples::L16(vec![0, 0xffff]).into_rgba8(2, 1), Some(vec![0, 0, 0, 255, 255, 255, 255, 255]));
    assert_eq!(Samples::La16(vec![0xffff, 0]).into_rgba8(1, 1), Some(vec![255, 255, 255, 0]));
    assert_eq!(Samples::Rgb16(vec![0, 0xffff, 0]).into_rgba8(1, 1), Some(vec![0, 255, 0, 255]));
    assert_eq!(Samples::Rgba16(vec![0xffff, 0, 0xffff, 0]).into_rgba8(1, 1), Some(vec![255, 0, 255, 0]));
    // Samples that do not fit the size are no image.
    assert_eq!(Samples::L8(vec![7, 9]).into_rgba8(2, 2), None);
    assert_eq!(Samples::L8(vec![7, 9]).into_rgba8(1, 1), None);
    assert_eq!(Samples::Rgb8(vec![1, 2, 3, 4]).into_rgba8(1, 1), None);
    assert_eq!(Samples::Rgba16(vec![1, 2, 3]).into_rgba8(1, 1), None);
    assert_eq!(Samples::Rgb16(Vec::new()).into_rgba8(1, 1), None);
    // No pixels are no bytes.
    assert_eq!(Samples::Rgb8(Vec::new()).into_rgba8(0, 5), Some(Vec::new()));
}
