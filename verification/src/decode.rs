//! Decoder dispatch: which decoder an image kind goes to, and the decoders
//! that this crate calls itself.
//!
//! The decoders are other crates' work. What they make of given bytes has a
//! name here and no more; what comes back is checked before it becomes an
//! image.

use vstd::prelude::*;
use image::{DynamicImage, ImageBuffer, ImageFormat};
use jpeg2k::ImagePixelData;
use crate::error::PxsumError;
use crate::hash::{checksum, decoded_as, is_rgba, Layout, PxImage};
use crate::img::{has_magic, sniff, PxKind, MAGIC_LEN};

verus! {

/// The formats that share one decoder, that of the `image` crate.
#[derive(Debug, Clone, Copy, PartialEq, Eq, Structural)]
pub enum Common {
    /// Bitmap.
    Bmp,
    /// GIF.
    Gif,
    /// Icon.
    Ico,
    /// JPEG.
    Jpeg,
    /// PNG.
    Png,
    /// TIFF.
    Tiff,
    /// WebP.
    WebP,
}

/// The decoder an image goes to.
#[derive(Debug, Clone, Copy, PartialEq, Eq, Structural)]
pub enum Decoder {
    /// The AVIF decoder.
    Avif,
    /// The JPEG 2000 decoder.
    Jpeg2k,
    /// The JPEG XL decoder.
    JpegXl,
    /// The decoder that the common formats share.
    Image(Common),
}

impl PxKind {
    /// The decoder for each kind: AVIF, JPEG 2000 and JPEG XL have one of
    /// their own, the other seven share one.
    pub open spec fn decoder_spec(self) -> Decoder {
        match self {
            PxKind::Avif => Decoder::Avif,
            PxKind::Jpeg2k => Decoder::Jpeg2k,
            PxKind::JpegXl => Decoder::JpegXl,
            PxKind::Bmp => Decoder::Image(Common::Bmp),
            PxKind::Gif => Decoder::Image(Common::Gif),
            PxKind::Ico => Decoder::Image(Common::Ico),
            PxKind::Jpeg => Decoder::Image(Common::Jpeg),
            PxKind::Png => Decoder::Image(Common::Png),
            PxKind::Tiff => Decoder::Image(Common::Tiff),
            PxKind::WebP => Decoder::Image(Common::WebP),
        }
    }

    /// The decoder that images of this kind go to.
    pub fn decoder(self) -> (r: Decoder)
        ensures
            r == self.decoder_spec(),
    {
        match self {
            PxKind::Avif => Decoder::Avif,
            PxKind::Jpeg2k => Decoder::Jpeg2k,
            PxKind::JpegXl => Decoder::JpegXl,
            PxKind::Bmp => Decoder::Image(Common::Bmp),
            PxKind::Gif => Decoder::Image(Common::Gif),
            PxKind::Ico => Decoder::Image(Common::Ico),
            PxKind::Jpeg => Decoder::Image(Common::Jpeg),
            PxKind::Png => Decoder::Image(Common::Png),
            PxKind::Tiff => Decoder::Image(Common::Tiff),
            PxKind::WebP => Decoder::Image(Common::WebP),
        }
    }
}

impl Common {
    /// The kind that this format is.
    pub open spec fn kind_spec(self) -> PxKind {
        match self {
            Common::Bmp => PxKind::Bmp,
            Common::Gif => PxKind::Gif,
            Common::Ico => PxKind::Ico,
            Common::Jpeg => PxKind::Jpeg,
            Common::Png => PxKind::Png,
            Common::Tiff => PxKind::Tiff,
            Common::WebP => PxKind::WebP,
        }
    }

    /// The kind that this format is.
    pub fn kind(self) -> (r: PxKind)
        ensures
            r == self.kind_spec(),
            r.decoder_spec() == Decoder::Image(self),
    {
        match self {
            Common::Bmp => PxKind::Bmp,
            Common::Gif => PxKind::Gif,
            Common::Ico => PxKind::Ico,
            Common::Jpeg => PxKind::Jpeg,
            Common::Png => PxKind::Png,
            Common::Tiff => PxKind::Tiff,
            Common::WebP => PxKind::WebP,
        }
    }

    /// Decodes an image of this format from memory.
    ///
    /// Whatever the decoder refuses is a [`PxsumError::Decode`]; so is an
    /// image whose pixels do not come out whole. An image without pixels is
    /// [`PxsumError::NoData`].
    pub fn decode(self, src: &[u8]) -> (r: Result<PxImage, PxsumError>)
        ensures
            decoded_as(r, image_outcome(src@, self)),
    {
        match image_decode(src, self) {
            Some((buf, channels, bytes_per_pixel)) => PxImage::from_decoded(
                Some((buf, Layout::from_shape(channels, bytes_per_pixel))),
            ),
            None => PxImage::from_decoded(None),
        }
    }
}

/// What the `image` crate makes of the bytes `src` read as `format`: the
/// image as RGBA bytes, the number of its channels and the bytes that one
/// of its pixels took before the conversion; `None` where it refuses them.
pub uninterp spec fn image_decoded(src: Seq<u8>, format: Common) -> Option<(Seq<u8>, u8, u8)>;

/// `image::load_from_memory_with_format`, and of the image that it returns
/// the colour type (`channel_count`, `bytes_per_pixel`) and the bytes after
/// `into_rgba8`. The answer depends on the bytes and the format alone, and
/// is known by its name only.
#[verifier::external_body]
fn image_decode(src: &[u8], format: Common) -> (r: Option<(Vec<u8>, u8, u8)>)
    ensures
        match image_decoded(src@, format) {
            Some((px, channels, bytes_per_pixel)) => {
                r matches Some((buf, c, b)) && buf@ == px && c == channels && b
                    == bytes_per_pixel
            },
            None => r is None,
        },
{
    let format = match format {
        Common::Bmp => ImageFormat::Bmp,
        Common::Gif => ImageFormat::Gif,
        Common::Ico => ImageFormat::Ico,
        Common::Jpeg => ImageFormat::Jpeg,
        Common::Png => ImageFormat::Png,
        Common::Tiff => ImageFormat::Tiff,
        Common::WebP => ImageFormat::WebP,
    };
    let img = image::load_from_memory_with_format(src, format).ok()?;
    let color = img.color();
    Some((img.into_rgba8().into_vec(), color.channel_count(), color.bytes_per_pixel()))
}

/// The answer of the shared decoder: the RGBA bytes, and the layout that
/// goes with the shape of the decoded image.
pub open spec fn image_outcome(src: Seq<u8>, format: Common) -> Option<(Seq<u8>, Layout)> {
    match image_decoded(src, format) {
        Some((px, channels, bytes_per_pixel)) => Some(
            (px, Layout::of_shape(channels, bytes_per_pixel)),
        ),
        None => None,
    }
}

/// The channels of a pixel.
#[derive(Debug, Clone, Copy, PartialEq, Eq, Structural)]
pub enum Channels {
    /// Grey.
    Luma,
    /// Grey and alpha.
    LumaA,
    /// Red, green, blue.
    Rgb,
    /// Red, green, blue and alpha.
    Rgba,
}

impl Channels {
    /// How many channels these are.
    pub open spec fn count_spec(self) -> nat {
        match self {
            Channels::Luma => 1,
            Channels::LumaA => 2,
            Channels::Rgb => 3,
            Channels::Rgba => 4,
        }
    }

    /// How many channels these are.
    pub fn count(self) -> (n: u8)
        ensures
            n == self.count_spec(),
    {
        match self {
            Channels::Luma => 1,
            Channels::LumaA => 2,
            Channels::Rgb => 3,
            Channels::Rgba => 4,
        }
    }
}

/// The samples of a decoded JPEG 2000 image, pixel after pixel, channel
/// after channel, of one byte or of two.
#[derive(Debug, Clone, PartialEq, Eq)]
pub enum Samples {
    /// 8-bit grey.
    L8(Vec<u8>),
    /// 8-bit grey with alpha.
    La8(Vec<u8>),
    /// 8-bit RGB.
    Rgb8(Vec<u8>),
    /// 8-bit RGB with alpha.
    Rgba8(Vec<u8>),
    /// 16-bit grey.
    L16(Vec<u16>),
    /// 16-bit grey with alpha.
    La16(Vec<u16>),
    /// 16-bit RGB.
    Rgb16(Vec<u16>),
    /// 16-bit RGB with alpha.
    Rgba16(Vec<u16>),
}

impl Samples {
    /// How the image is stored.
    pub open spec fn layout(self) -> Layout {
        match self {
            Samples::L8(_) => Layout::Luma8,
            Samples::La8(_) => Layout::LumaA8,
            Samples::Rgb8(_) => Layout::Rgb8,
            Samples::Rgba8(_) => Layout::Rgba8,
            Samples::L16(_) => Layout::Luma16,
            Samples::La16(_) => Layout::LumaA16,
            Samples::Rgb16(_) => Layout::Rgb16,
            Samples::Rgba16(_) => Layout::Rgba16,
        }
    }

    /// The samples, where they are of one byte; else none.
    pub open spec fn bytes(self) -> Seq<u8> {
        match self {
            Samples::L8(d) | Samples::La8(d) | Samples::Rgb8(d) | Samples::Rgba8(d) => d@,
            _ => Seq::empty(),
        }
    }

    /// The samples, where they are of two bytes; else none.
    pub open spec fn words(self) -> Seq<u16> {
        match self {
            Samples::L16(d) | Samples::La16(d) | Samples::Rgb16(d) | Samples::Rgba16(d) => d@,
            _ => Seq::empty(),
        }
    }

    /// The image of the given size as RGBA bytes, or `None` where the
    /// samples are not as many as the size and the channels ask for, or the
    /// conversion fails.
    pub fn into_rgba8(self, width: u32, height: u32) -> (r: Option<Vec<u8>>)
        ensures
            match raster_rgba8(width, height, self.layout(), self.bytes(), self.words()) {
                Some(px) => r matches Some(buf) && buf@ == px,
                None => r is None,
            },
    {
        match self {
            Samples::L8(d) => bytes_rgba8(width, height, Channels::Luma, d),
            Samples::La8(d) => bytes_rgba8(width, height, Channels::LumaA, d),
            Samples::Rgb8(d) => bytes_rgba8(width, height, Channels::Rgb, d),
            Samples::Rgba8(d) => bytes_rgba8(width, height, Channels::Rgba, d),
            Samples::L16(d) => words_rgba8(width, height, Channels::Luma, d),
            Samples::La16(d) => words_rgba8(width, height, Channels::LumaA, d),
            Samples::Rgb16(d) => words_rgba8(width, height, Channels::Rgb, d),
            Samples::Rgba16(d) => words_rgba8(width, height, Channels::Rgba, d),
        }
    }
}

/// The channels of a layout of whole-number samples; `None` for any other.
pub open spec fn channels_of(layout: Layout) -> Option<Channels> {
    match layout {
        Layout::Luma8 | Layout::Luma16 => Some(Channels::Luma),
        Layout::LumaA8 | Layout::LumaA16 => Some(Channels::LumaA),
        Layout::Rgb8 | Layout::Rgb16 => Some(Channels::Rgb),
        Layout::Rgba8 | Layout::Rgba16 => Some(Channels::Rgba),
        _ => None,
    }
}

/// Whether the samples of a layout take two bytes.
pub open spec fn is_wide(layout: Layout) -> bool {
    layout == Layout::Luma16 || layout == Layout::LumaA16 || layout == Layout::Rgb16 || layout
        == Layout::Rgba16
}

/// Whether `count` samples are what an image of the given size and
/// channels has: one for each channel of each pixel.
pub open spec fn fits(width: u32, height: u32, channels: Channels, count: nat) -> bool {
    count == width as nat * height as nat * channels.count_spec()
}

/// The samples of an image of the given size as RGBA bytes: what the
/// conversion makes of them where they are as many as the size and the
/// layout ask for, and `None` where they are not, or the layout has no
/// whole-number samples.
pub open spec fn raster_rgba8(
    width: u32,
    height: u32,
    layout: Layout,
    bytes: Seq<u8>,
    words: Seq<u16>,
) -> Option<Seq<u8>> {
    match channels_of(layout) {
        None => None,
        Some(channels) => if is_wide(layout) {
            if fits(width, height, channels, words.len()) {
                rgba8_of_words(width, height, channels, words)
            } else {
                None
            }
        } else {
            if fits(width, height, channels, bytes.len()) {
                rgba8_of_bytes(width, height, channels, bytes)
            } else {
                None
            }
        },
    }
}

/// Tests a number of samples against the size and the channels of an image.
pub fn fits_size(width: u32, height: u32, channels: Channels, count: usize) -> (r: bool)
    ensures
        r == fits(width, height, channels, count as nat),
{
    let w: u128 = width as u128;
    let h: u128 = height as u128;
    let c: u128 = channels.count() as u128;
    assert(w * h <= 0xffff_ffff * 0xffff_ffff) by (nonlinear_arith)
        requires
            w <= 0xffff_ffff,
            h <= 0xffff_ffff,
    ;
    let area: u128 = w * h;
    assert(area * c <= 0xffff_ffff * 0xffff_ffff * 4) by (nonlinear_arith)
        requires
            area <= 0xffff_ffff * 0xffff_ffff,
            c <= 4,
    ;
    count as u128 == area * c
}

/// One-byte samples as RGBA bytes, where they fit the size.
fn bytes_rgba8(width: u32, height: u32, channels: Channels, samples: Vec<u8>) -> (r: Option<
    Vec<u8>,
>)
    ensures
        match (if fits(width, height, channels, samples@.len()) {
            rgba8_of_bytes(width, height, channels, samples@)
        } else {
            None
        }) {
            Some(px) => r matches Some(buf) && buf@ == px,
            None => r is None,
        },
{
    if fits_size(width, height, channels, samples.len()) {
        rgba8_from_bytes(width, height, channels, samples)
    } else {
        None
    }
}

/// Two-byte samples as RGBA bytes, where they fit the size.
fn words_rgba8(width: u32, height: u32, channels: Channels, samples: Vec<u16>) -> (r: Option<
    Vec<u8>,
>)
    ensures
        match (if fits(width, height, channels, samples@.len()) {
            rgba8_of_words(width, height, channels, samples@)
        } else {
            None
        }) {
            Some(px) => r matches Some(buf) && buf@ == px,
            None => r is None,
        },
{
    if fits_size(width, height, channels, samples.len()) {
        rgba8_from_words(width, height, channels, samples)
    } else {
        None
    }
}

/// What the `jpeg2k` crate makes of the bytes `src`: the width and the
/// height of the image, its layout, and its samples, of one byte or of two;
/// `None` where it refuses them.
pub uninterp spec fn jpeg2k_decoded(src: Seq<u8>) -> Option<(u32, u32, Layout, Seq<u8>, Seq<u16>)>;

/// `jpeg2k::Image::from_bytes`, and of the image that it returns the
/// pixels (`get_pixels`, with no alpha made up). The answer depends on the
/// bytes alone, and is known by its name only.
#[verifier::external_body]
fn jpeg2k_decode(src: &[u8]) -> (r: Option<(u32, u32, Samples)>)
    ensures
        match jpeg2k_decoded(src@) {
            Some((width, height, layout, bytes, words)) => {
                &&& r matches Some((w, h, samples))
                &&& w == width
                &&& h == height
                &&& samples.layout() == layout
                &&& samples.bytes() == bytes
                &&& samples.words() == words
            },
            None => r is None,
        },
{
    let img = jpeg2k::Image::from_bytes(src).ok()?;
    let px = img.get_pixels(None).ok()?;
    let samples = match px.data {
        ImagePixelData::L8(d) => Samples::L8(d),
        ImagePixelData::La8(d) => Samples::La8(d),
        ImagePixelData::Rgb8(d) => Samples::Rgb8(d),
        ImagePixelData::Rgba8(d) => Samples::Rgba8(d),
        ImagePixelData::L16(d) => Samples::L16(d),
        ImagePixelData::La16(d) => Samples::La16(d),
        ImagePixelData::Rgb16(d) => Samples::Rgb16(d),
        ImagePixelData::Rgba16(d) => Samples::Rgba16(d),
    };
    Some((px.width, px.height, samples))
}

/// What the `image` crate makes of one-byte samples: the RGBA bytes of the
/// image of the given size and channels that holds them; `None` where it
/// cannot hold them.
pub uninterp spec fn rgba8_of_bytes(width: u32, height: u32, channels: Channels, samples: Seq<u8>)
    -> Option<Seq<u8>>;

/// `image::ImageBuffer::from_vec` on one-byte samples, and the bytes of the
/// image after `into_rgba8`. The answer depends on the arguments alone, and
/// is known by its name only.
#[verifier::external_body]
fn rgba8_from_bytes(width: u32, height: u32, channels: Channels, samples: Vec<u8>) -> (r: Option<
    Vec<u8>,
>)
    ensures
        match rgba8_of_bytes(width, height, channels, samples@) {
            Some(px) => r matches Some(buf) && buf@ == px,
            None => r is None,
        },
{
    let img = match channels {
        Channels::Luma => DynamicImage::ImageLuma8(ImageBuffer::from_vec(width, height, samples)?),
        Channels::LumaA => DynamicImage::ImageLumaA8(ImageBuffer::from_vec(width, height, samples)?),
        Channels::Rgb => DynamicImage::ImageRgb8(ImageBuffer::from_vec(width, height, samples)?),
        Channels::Rgba => DynamicImage::ImageRgba8(ImageBuffer::from_vec(width, height, samples)?),
    };
    Some(img.into_rgba8().into_vec())
}

/// What the `image` crate makes of two-byte samples: the RGBA bytes of the
/// image of the given size and channels that holds them; `None` where it
/// cannot hold them.
pub uninterp spec fn rgba8_of_words(
    width: u32,
    height: u32,
    channels: Channels,
    samples: Seq<u16>,
) -> Option<Seq<u8>>;

/// `image::ImageBuffer::from_vec` on two-byte samples, and the bytes of the
/// image after `into_rgba8`. The answer depends on the arguments alone, and
/// is known by its name only.
#[verifier::external_body]
fn rgba8_from_words(width: u32, height: u32, channels: Channels, samples: Vec<u16>) -> (r: Option<
    Vec<u8>,
>)
    ensures
        match rgba8_of_words(width, height, channels, samples@) {
            Some(px) => r matches Some(buf) && buf@ == px,
            None => r is None,
        },
{
    let img = match channels {
        Channels::Luma => DynamicImage::ImageLuma16(ImageBuffer::from_vec(width, height, samples)?),
        Channels::LumaA => DynamicImage::ImageLumaA16(ImageBuffer::from_vec(width, height, samples)?),
        Channels::Rgb => DynamicImage::ImageRgb16(ImageBuffer::from_vec(width, height, samples)?),
        Channels::Rgba => DynamicImage::ImageRgba16(ImageBuffer::from_vec(width, height, samples)?),
    };
    Some(img.into_rgba8().into_vec())
}

/// The answer of the JPEG 2000 decoder: the RGBA bytes of what it decoded,
/// and its layout; `None` where it refuses the bytes, or gives samples that
/// do not fit the size it gives.
pub open spec fn jpeg2k_outcome(src: Seq<u8>) -> Option<(Seq<u8>, Layout)> {
    match jpeg2k_decoded(src) {
        None => None,
        Some((width, height, layout, bytes, words)) => match raster_rgba8(
            width,
            height,
            layout,
            bytes,
            words,
        ) {
            Some(px) => Some((px, layout)),
            None => None,
        },
    }
}

/// The layout of samples.
pub fn layout_of(samples: &Samples) -> (r: Layout)
    ensures
        r == samples.layout(),
{
    match samples {
        Samples::L8(_) => Layout::Luma8,
        Samples::La8(_) => Layout::LumaA8,
        Samples::Rgb8(_) => Layout::Rgb8,
        Samples::Rgba8(_) => Layout::Rgba8,
        Samples::L16(_) => Layout::Luma16,
        Samples::La16(_) => Layout::LumaA16,
        Samples::Rgb16(_) => Layout::Rgb16,
        Samples::Rgba16(_) => Layout::Rgba16,
    }
}

/// Decodes a JPEG 2000 image from memory.
///
/// Whatever the decoder refuses is a [`PxsumError::Decode`]; so are samples
/// that do not fit the size of the image, and pixels that do not come out
/// whole. An image without pixels is [`PxsumError::NoData`].
pub fn decode_jpeg2k(src: &[u8]) -> (r: Result<PxImage, PxsumError>)
    ensures
        decoded_as(r, jpeg2k_outcome(src@)),
{
    match jpeg2k_decode(src) {
        Some((width, height, samples)) => {
            let layout: Layout = layout_of(&samples);
            match samples.into_rgba8(width, height) {
                Some(buf) => PxImage::from_decoded(Some((buf, layout))),
                None => PxImage::from_decoded(None),
            }
        },
        None => PxImage::from_decoded(None),
    }
}

/// The bytes pick the decoder, not the name: what carries the signature of
/// a kind is recognised as that kind and goes to that kind's decoder, the
/// seven common kinds to the shared one with the format of their own.
pub proof fn lemma_decoder_by_signature(kind: PxKind, bytes: Seq<u8>)
    requires
        bytes.len() >= MAGIC_LEN,
        has_magic(kind, bytes),
    ensures
        sniff(bytes) == Some(kind),
        forall|format: Common|
            kind == format.kind_spec() ==> kind.decoder_spec() == Decoder::Image(format),
        kind.decoder_spec() is Image ==> kind.decoder_spec()->Image_0.kind_spec() == kind,
{
    crate::img::lemma_sniff_is_magic(kind, bytes);
}

/// The same pixels give the same checksum, whatever they were decoded
/// from: where two decoders answer with the same RGBA bytes and agree on
/// whether there is an alpha channel, both answers become images, and the
/// two images have one checksum in either mode.
pub proof fn lemma_same_pixels_same_checksum(
    a: Option<(Seq<u8>, Layout)>,
    b: Option<(Seq<u8>, Layout)>,
    ra: Result<PxImage, PxsumError>,
    rb: Result<PxImage, PxsumError>,
    strict: bool,
)
    requires
        decoded_as(ra, a),
        decoded_as(rb, b),
        a matches Some((pa, la)) && b matches Some((pb, lb)) && pa == pb && is_rgba(pa)
            && la.lacks_alpha() == lb.lacks_alpha(),
    ensures
        ra matches Ok(x) && rb matches Ok(y) && checksum(x.pixels(), x.no_alpha(), strict)
            == checksum(y.pixels(), y.no_alpha(), strict),
{
}

/// In loose mode the colours behind invisible pixels do not count either:
/// where two decoders answer with RGBA bytes that show the same picture,
/// and both layouts have an alpha channel, the two images have one loose
/// checksum.
pub proof fn lemma_same_picture_same_loose_checksum(
    a: Option<(Seq<u8>, Layout)>,
    b: Option<(Seq<u8>, Layout)>,
    ra: Result<PxImage, PxsumError>,
    rb: Result<PxImage, PxsumError>,
)
    requires
        decoded_as(ra, a),
        decoded_as(rb, b),
        a matches Some((pa, la)) && b matches Some((pb, lb)) && crate::hash::same_visible(pa, pb)
            && pa.len() > 0 && !la.lacks_alpha() && !lb.lacks_alpha(),
    ensures
        ra matches Ok(x) && rb matches Ok(y) && checksum(x.pixels(), x.no_alpha(), false)
            == checksum(y.pixels(), y.no_alpha(), false),
{
    let first = a.unwrap();
    let second = b.unwrap();
    crate::hash::lemma_invisible_pixels_neutral(first.0, second.0);
}

} // verus!
