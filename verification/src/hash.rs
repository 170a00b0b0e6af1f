//! The canonical pixel hash.
//!
//! An image is hashed as its RGBA bytes, four to a pixel, row by row. In
//! loose mode a pixel that cannot be seen (alpha zero) is first replaced by
//! its own index, so that whatever colour an encoder left behind it does not
//! count, while the place of the pixel still does. One bit of the result is
//! given up to record the mode.

use vstd::prelude::*;
use crate::chk::{is_strict, HASH_LEN, STRICT};
use crate::error::PxsumError;

verus! {

/// What BLAKE3 makes of `data`: the 32 bytes of its default hash.
pub uninterp spec fn blake3_digest(data: Seq<u8>) -> Seq<u8>;

/// `blake3::hash`, the default BLAKE3 hash of a byte slice, as 32 bytes.
#[verifier::external_body]
fn blake3_hash(data: &[u8]) -> (r: [u8; 32])
    ensures
        r@ == blake3_digest(data@),
{
    *blake3::hash(data).as_bytes()
}

/// The first 32 bytes of the BLAKE3 digest of `data`, which are all of them.
pub open spec fn digest(data: Seq<u8>) -> Seq<u8> {
    Seq::new(HASH_LEN as nat, |i: int| blake3_digest(data)[i])
}

/// The four bytes that stand for the pixel with index `i`: the index, modulo
/// 2^32, least significant byte first.
pub open spec fn index_bytes(i: int) -> Seq<u8> {
    let w = i % 0x1_0000_0000;
    seq![
        (w % 0x100) as u8,
        ((w / 0x100) % 0x100) as u8,
        ((w / 0x1_0000) % 0x100) as u8,
        ((w / 0x100_0000) % 0x100) as u8,
    ]
}

/// Whether pixel `p` of the buffer is whole and cannot be seen.
pub open spec fn invisible(px: Seq<u8>, p: int) -> bool {
    0 <= p && 4 * p + 3 < px.len() && px[4 * p + 3] == 0
}

/// The buffer with every invisible pixel replaced by its index.
pub open spec fn neutralized(px: Seq<u8>) -> Seq<u8> {
    Seq::new(
        px.len(),
        |k: int|
            if invisible(px, k / 4) {
                index_bytes(k / 4)[k % 4]
            } else {
                px[k]
            },
    )
}

/// The bytes that are hashed for an image: its pixels, with the invisible
/// ones neutralized when the mode is loose and the image may have any.
pub open spec fn hash_input(px: Seq<u8>, no_alpha: bool, strict: bool) -> Seq<u8> {
    if !strict && !no_alpha {
        neutralized(px)
    } else {
        px
    }
}

/// A digest with the mode written into the lowest bit of its first byte.
pub open spec fn stamped(d: Seq<u8>, strict: bool) -> Seq<u8> {
    d.update(
        0,
        if strict {
            d[0] | STRICT
        } else {
            d[0] & !STRICT
        },
    )
}

/// The checksum of an image in the given mode.
pub open spec fn checksum(px: Seq<u8>, no_alpha: bool, strict: bool) -> Seq<u8> {
    stamped(digest(hash_input(px, no_alpha, strict)), strict)
}

/// What the decoders may hand over: how the image was stored.
#[derive(Debug, Clone, Copy, PartialEq, Eq, Structural)]
pub enum Layout {
    /// 8-bit grey.
    Luma8,
    /// 8-bit grey with alpha.
    LumaA8,
    /// 8-bit RGB.
    Rgb8,
    /// 8-bit RGB with alpha.
    Rgba8,
    /// 16-bit grey.
    Luma16,
    /// 16-bit grey with alpha.
    LumaA16,
    /// 16-bit RGB.
    Rgb16,
    /// 16-bit RGB with alpha.
    Rgba16,
    /// 32-bit floating-point RGB.
    Rgb32F,
    /// 32-bit floating-point RGB with alpha.
    Rgba32F,
    /// Anything else.
    Other,
}

impl Layout {
    /// Whether images stored this way are known to have no alpha channel.
    pub open spec fn lacks_alpha(self) -> bool {
        self == Layout::Luma8 || self == Layout::Rgb8 || self == Layout::Luma16 || self
            == Layout::Rgb16 || self == Layout::Rgb32F
    }

    /// The layout with so many channels and so many bytes to the pixel.
    pub open spec fn of_shape(channels: u8, bytes_per_pixel: u8) -> Layout {
        if channels == 1 && bytes_per_pixel == 1 {
            Layout::Luma8
        } else if channels == 2 && bytes_per_pixel == 2 {
            Layout::LumaA8
        } else if channels == 3 && bytes_per_pixel == 3 {
            Layout::Rgb8
        } else if channels == 4 && bytes_per_pixel == 4 {
            Layout::Rgba8
        } else if channels == 1 && bytes_per_pixel == 2 {
            Layout::Luma16
        } else if channels == 2 && bytes_per_pixel == 4 {
            Layout::LumaA16
        } else if channels == 3 && bytes_per_pixel == 6 {
            Layout::Rgb16
        } else if channels == 4 && bytes_per_pixel == 8 {
            Layout::Rgba16
        } else if channels == 3 && bytes_per_pixel == 12 {
            Layout::Rgb32F
        } else if channels == 4 && bytes_per_pixel == 16 {
            Layout::Rgba32F
        } else {
            Layout::Other
        }
    }

    /// The layout of an image by the number of its channels and the bytes
    /// that a pixel takes: one to four channels of one, two or (without
    /// grey) four bytes each.
    pub fn from_shape(channels: u8, bytes_per_pixel: u8) -> (r: Layout)
        ensures
            r == Layout::of_shape(channels, bytes_per_pixel),
    {
        if channels == 1 && bytes_per_pixel == 1 {
            Layout::Luma8
        } else if channels == 2 && bytes_per_pixel == 2 {
            Layout::LumaA8
        } else if channels == 3 && bytes_per_pixel == 3 {
            Layout::Rgb8
        } else if channels == 4 && bytes_per_pixel == 4 {
            Layout::Rgba8
        } else if channels == 1 && bytes_per_pixel == 2 {
            Layout::Luma16
        } else if channels == 2 && bytes_per_pixel == 4 {
            Layout::LumaA16
        } else if channels == 3 && bytes_per_pixel == 6 {
            Layout::Rgb16
        } else if channels == 4 && bytes_per_pixel == 8 {
            Layout::Rgba16
        } else if channels == 3 && bytes_per_pixel == 12 {
            Layout::Rgb32F
        } else if channels == 4 && bytes_per_pixel == 16 {
            Layout::Rgba32F
        } else {
            Layout::Other
        }
    }

    /// Whether images stored this way are known to have no alpha channel:
    /// grey and RGB without alpha, at any depth.
    pub fn no_alpha(self) -> (r: bool)
        ensures
            r == self.lacks_alpha(),
    {
        match self {
            Layout::Luma8 | Layout::Rgb8 | Layout::Luma16 | Layout::Rgb16 | Layout::Rgb32F => true,
            _ => false,
        }
    }
}

/// Whether a buffer holds an image: whole pixels of four bytes, one at
/// least.
pub open spec fn is_rgba(px: Seq<u8>) -> bool {
    px.len() > 0 && px.len() % 4 == 0
}

/// A decoded image: RGBA bytes, four to a pixel, and whether the source is
/// known to have had no alpha channel.
pub struct PxImage {
    buf: Vec<u8>,
    no_alpha: bool,
}

impl PxImage {
    /// The RGBA bytes.
    pub closed spec fn pixels(&self) -> Seq<u8> {
        self.buf@
    }

    /// Whether the source had no alpha channel.
    pub closed spec fn no_alpha(&self) -> bool {
        self.no_alpha
    }

    /// An image is never empty and holds whole pixels only.
    #[verifier::type_invariant]
    pub closed spec fn wf(&self) -> bool {
        is_rgba(self.buf@)
    }

    /// Takes what a decoder made: the RGBA bytes and how the image was
    /// stored.
    ///
    /// An empty buffer is refused as [`PxsumError::NoData`], one that does
    /// not hold whole pixels as [`PxsumError::Decode`].
    pub fn new(buf: Vec<u8>, layout: Layout) -> (r: Result<PxImage, PxsumError>)
        ensures
            buf@.len() == 0 <==> r == Err::<PxImage, PxsumError>(PxsumError::NoData),
            buf@.len() % 4 != 0 <==> r == Err::<PxImage, PxsumError>(PxsumError::Decode),
            buf@.len() > 0 && buf@.len() % 4 == 0 <==> r is Ok,
            r matches Ok(img) ==> img.pixels() == buf@ && img.no_alpha() == layout.lacks_alpha(),
            r matches Ok(img) ==> is_rgba(img.pixels()),
    {
        let len: usize = buf.len();
        if len == 0 {
            Err(PxsumError::NoData)
        } else if len % 4 == 0 {
            Ok(PxImage { buf, no_alpha: layout.no_alpha() })
        } else {
            Err(PxsumError::Decode)
        }
    }

    /// Makes an image of a decoder's answer: the RGBA bytes and the layout
    /// of what was decoded, or nothing where the decoder failed.
    ///
    /// No answer is [`PxsumError::Decode`]. An answer goes through
    /// [`PxImage::new`]: no bytes are [`PxsumError::NoData`], bytes that
    /// make no whole pixels are [`PxsumError::Decode`].
    pub fn from_decoded(decoded: Option<(Vec<u8>, Layout)>) -> (r: Result<PxImage, PxsumError>)
        ensures
            decoded_as(r, decoded_view(decoded)),
    {
        match decoded {
            Some((buf, layout)) => PxImage::new(buf, layout),
            None => Err(PxsumError::Decode),
        }
    }

    /// The checksum of the image: the BLAKE3 digest of its pixels, the
    /// invisible ones neutralized first unless `strict` is set or the image
    /// has no alpha channel, with the mode stamped into bit 0 of byte 0.
    pub fn into_checksum(self, strict: bool) -> (r: [u8; 32])
        ensures
            r@ == checksum(self.pixels(), self.no_alpha(), strict),
            is_strict(r@) == strict,
    {
        let PxImage { buf, no_alpha } = self;
        let ghost px = buf@;
        let mut buf = buf;
        if !strict && !no_alpha {
            neutralize(&mut buf);
        }
        let mut chk: [u8; 32] = blake3_hash(buf.as_slice());
        proof {
            assert(chk@ =~= digest(hash_input(px, no_alpha, strict)));
            lemma_stamp(chk@, strict);
        }
        let first: u8 = chk[0];
        if strict {
            chk[0] = first | STRICT;
        } else {
            chk[0] = first & !STRICT;
        }
        assert(chk@ =~= checksum(px, no_alpha, strict));
        chk
    }
}

/// A decoder's answer as plain values.
pub open spec fn decoded_view(decoded: Option<(Vec<u8>, Layout)>) -> Option<(Seq<u8>, Layout)> {
    match decoded {
        Some((buf, layout)) => Some((buf@, layout)),
        None => None,
    }
}

/// Whether `r` is what a decoder's answer comes to.
///
/// Where the decoder failed, a decode failure. Where it gave no bytes, a
/// failure for want of data; where it gave bytes that make no whole pixels,
/// a decode failure. Else the image of those bytes, without alpha where the
/// layout has none.
pub open spec fn decoded_as(r: Result<PxImage, PxsumError>, decoded: Option<(Seq<u8>, Layout)>)
    -> bool {
    match decoded {
        None => r == Err::<PxImage, PxsumError>(PxsumError::Decode),
        Some((px, layout)) => if px.len() == 0 {
            r == Err::<PxImage, PxsumError>(PxsumError::NoData)
        } else if px.len() % 4 != 0 {
            r == Err::<PxImage, PxsumError>(PxsumError::Decode)
        } else {
            r matches Ok(img) && img.pixels() == px && img.no_alpha() == layout.lacks_alpha()
        },
    }
}

/// Replaces every invisible pixel of the buffer by its index.
pub fn neutralize(buf: &mut Vec<u8>)
    ensures
        final(buf)@ == neutralized(old(buf)@),
{
    let n: usize = buf.len();
    let ghost orig = buf@;
    let mut k: usize = 0;
    let mut i: u32 = 0;
    while n - k >= 4
        invariant
            k <= n,
            k % 4 == 0,
            n == orig.len(),
            buf@.len() == n,
            i as int == (k as int / 4) % 0x1_0000_0000,
            forall|j: int| 0 <= j < k ==> buf@[j] == neutralized(orig)[j],
            forall|j: int| k <= j < n ==> buf@[j] == orig[j],
        decreases n - k,
    {
        let ghost p: int = k as int / 4;
        assert(4 * p == k);
        if buf[k + 3] == 0 {
            let b0: u8 = (i & 0xff) as u8;
            let b1: u8 = ((i >> 8) & 0xff) as u8;
            let b2: u8 = ((i >> 16) & 0xff) as u8;
            let b3: u8 = ((i >> 24) & 0xff) as u8;
            proof {
                lemma_le_bytes(i);
                assert(index_bytes(p) == seq![b0, b1, b2, b3]);
                assert(invisible(orig, p));
            }
            buf.set(k, b0);
            buf.set(k + 1, b1);
            buf.set(k + 2, b2);
            buf.set(k + 3, b3);
        } else {
            assert(!invisible(orig, p));
        }
        proof {
            assert forall|j: int| k <= j < k + 4 implies buf@[j] == neutralized(orig)[j] by {
                assert(j / 4 == p);
                assert(j % 4 == j - k);
            }
        }
        k = k + 4;
        i = i.wrapping_add(1);
    }
    proof {
        assert forall|j: int| k <= j < n implies orig[j] == neutralized(orig)[j] by {
            assert(j / 4 == k as int / 4);
            assert(!invisible(orig, j / 4));
        }
        assert(buf@ =~= neutralized(orig));
    }
}

/// The bytes of a 32-bit number, taken by masks and shifts, are those taken
/// by division.
proof fn lemma_le_bytes(i: u32)
    ensures
        (i & 0xff) as u8 == (i as int % 0x100) as u8,
        ((i >> 8) & 0xff) as u8 == ((i as int / 0x100) % 0x100) as u8,
        ((i >> 16) & 0xff) as u8 == ((i as int / 0x1_0000) % 0x100) as u8,
        ((i >> 24) & 0xff) as u8 == ((i as int / 0x100_0000) % 0x100) as u8,
{
    assert((i & 0xff) == i % 0x100) by (bit_vector);
    assert(((i >> 8) & 0xff) == (i / 0x100) % 0x100) by (bit_vector);
    assert(((i >> 16) & 0xff) == (i / 0x1_0000) % 0x100) by (bit_vector);
    assert(((i >> 24) & 0xff) == (i / 0x100_0000) % 0x100) by (bit_vector);
}

/// Stamping a digest sets or clears the strictness flag, and nothing else
/// of what the flag test reads.
pub proof fn lemma_stamp(d: Seq<u8>, strict: bool)
    requires
        d.len() == HASH_LEN,
    ensures
        stamped(d, strict).len() == HASH_LEN,
        is_strict(stamped(d, strict)) == strict,
{
    let b = d[0];
    assert((b | 1u8) & 1u8 == 1u8) by (bit_vector);
    assert((b & !1u8) & 1u8 == 0u8) by (bit_vector);
}

/// The same pixels in the same mode give the same checksum: it depends on
/// nothing else.
pub proof fn lemma_checksum_deterministic(
    a: Seq<u8>,
    a_no_alpha: bool,
    b: Seq<u8>,
    b_no_alpha: bool,
    strict: bool,
)
    requires
        a == b,
        a_no_alpha == b_no_alpha,
    ensures
        checksum(a, a_no_alpha, strict) == checksum(b, b_no_alpha, strict),
{
}

/// A loose checksum has the strictness flag clear, a strict one has it set,
/// so the two checksums of one image always differ.
pub proof fn lemma_modes_differ(px: Seq<u8>, no_alpha: bool)
    ensures
        checksum(px, no_alpha, false).len() == HASH_LEN,
        checksum(px, no_alpha, true).len() == HASH_LEN,
        !is_strict(checksum(px, no_alpha, false)),
        is_strict(checksum(px, no_alpha, true)),
        checksum(px, no_alpha, false) != checksum(px, no_alpha, true),
{
    lemma_stamp(digest(hash_input(px, no_alpha, false)), false);
    lemma_stamp(digest(hash_input(px, no_alpha, true)), true);
}

/// Whether two buffers show the same picture: the same size, the same alpha
/// everywhere, and the same colours wherever a pixel can be seen.
pub open spec fn same_visible(a: Seq<u8>, b: Seq<u8>) -> bool {
    &&& a.len() == b.len()
    &&& a.len() % 4 == 0
    &&& forall|p: int|
        0 <= p && 4 * p + 3 < a.len() ==> #[trigger] a[4 * p + 3] == b[4 * p + 3]
    &&& forall|k: int|
        0 <= k < a.len() && !invisible(a, k / 4) ==> #[trigger] a[k] == b[k]
}

/// Colours that cannot be seen do not count in loose mode: two images that
/// differ only where alpha is zero have the same loose checksum.
pub proof fn lemma_invisible_pixels_neutral(a: Seq<u8>, b: Seq<u8>)
    requires
        same_visible(a, b),
    ensures
        neutralized(a) == neutralized(b),
        checksum(a, false, false) == checksum(b, false, false),
{
    assert forall|k: int| 0 <= k < a.len() implies neutralized(a)[k] == neutralized(b)[k] by {
        let p = k / 4;
        assert(4 * p + 3 < a.len());
        assert(a[4 * p + 3] == b[4 * p + 3]);
        assert(invisible(a, p) == invisible(b, p));
        if !invisible(a, p) {
            assert(a[k] == b[k]);
        }
    }
    assert(neutralized(a) =~= neutralized(b));
}

/// Different pixels have different index bytes, as long as the image has no
/// more than 2^32 pixels.
pub proof fn lemma_index_bytes_distinct(p: int, q: int)
    requires
        0 <= p < 0x1_0000_0000,
        0 <= q < 0x1_0000_0000,
        p != q,
    ensures
        index_bytes(p) != index_bytes(q),
{
    let a = index_bytes(p);
    let b = index_bytes(q);
    if a == b {
        assert(a[0] == b[0] && a[1] == b[1] && a[2] == b[2] && a[3] == b[3]);
        assert(p == (p % 0x100) + 0x100 * ((p / 0x100) % 0x100) + 0x1_0000 * ((p / 0x1_0000)
            % 0x100) + 0x100_0000 * ((p / 0x100_0000) % 0x100));
        assert(q == (q % 0x100) + 0x100 * ((q / 0x100) % 0x100) + 0x1_0000 * ((q / 0x1_0000)
            % 0x100) + 0x100_0000 * ((q / 0x100_0000) % 0x100));
        assert(false);
    }
}

/// Where an invisible pixel stands counts in loose mode: two images of one
/// size, of which one has an invisible pixel where the other has a visible
/// one, are hashed from different bytes. (Holds for the first 2^24 pixels,
/// whose index bytes end in zero as no visible pixel does.)
pub proof fn lemma_invisible_position_counts(a: Seq<u8>, b: Seq<u8>, p: int)
    requires
        a.len() == b.len(),
        0 <= p < 0x100_0000,
        invisible(a, p),
        !invisible(b, p),
    ensures
        hash_input(a, false, false) != hash_input(b, false, false),
{
    let k = 4 * p + 3;
    assert(k / 4 == p && k % 4 == 3);
    assert(neutralized(a)[k] == index_bytes(p)[3]);
    assert(index_bytes(p)[3] == 0);
    assert(neutralized(b)[k] == b[k]);
    assert(b[k] != 0);
}

} // verus!
