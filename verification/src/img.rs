//! Image kinds and how a byte stream is recognised as one of them.

use vstd::prelude::*;
use crate::error::PxsumError;

verus! {

/// The image formats this crate knows: every format a decoder exists for.
#[derive(Debug, Clone, Copy, PartialEq, Eq, Structural)]
pub enum PxKind {
    /// AVIF.
    Avif,
    /// Bitmap.
    Bmp,
    /// GIF.
    Gif,
    /// Icon.
    Ico,
    /// JPEG.
    Jpeg,
    /// JPEG 2000.
    Jpeg2k,
    /// JPEG XL.
    JpegXl,
    /// PNG.
    Png,
    /// TIFF.
    Tiff,
    /// WebP.
    WebP,
}

/// How many leading bytes a signature test looks at.
pub const MAGIC_LEN: usize = 12;

/// Whether `b` begins with the file signature of `kind`.
///
/// Only the first twelve bytes are looked at, and `b` is expected to hold at
/// least that many.
pub open spec fn has_magic(kind: PxKind, b: Seq<u8>) -> bool
    recommends
        b.len() >= MAGIC_LEN,
{
    match kind {
        PxKind::Jpeg => b[0] == 0xff && b[1] == 0xd8 && b[2] == 0xff,
        PxKind::Png => {
            b[0] == 0x89 && b[1] == 0x50 && b[2] == 0x4e && b[3] == 0x47 && b[4] == 0x0d
                && b[5] == 0x0a && b[6] == 0x1a && b[7] == 0x0a
        },
        PxKind::Gif => {
            b[0] == 0x47 && b[1] == 0x49 && b[2] == 0x46 && b[3] == 0x38 && (b[4] == 0x37 || b[4]
                == 0x39) && b[5] == 0x61
        },
        PxKind::WebP => {
            b[0] == 0x52 && b[1] == 0x49 && b[2] == 0x46 && b[3] == 0x46 && b[8] == 0x57 && b[9]
                == 0x45 && b[10] == 0x42 && b[11] == 0x50
        },
        PxKind::Avif => {
            b[0] == 0x00 && b[1] == 0x00 && b[2] == 0x00 && (b[3] == 0x20 || b[3] == 0x1c) && b[4]
                == 0x66 && b[5] == 0x74 && b[6] == 0x79 && b[7] == 0x70 && b[8] == 0x61 && b[9]
                == 0x76 && b[10] == 0x69 && b[11] == 0x66
        },
        PxKind::JpegXl => {
            ||| b[0] == 0xff && b[1] == 0x0a
            ||| b[0] == 0x00 && b[1] == 0x00 && b[2] == 0x00 && b[3] == 0x0c && b[4] == 0x4a
                && b[5] == 0x58 && b[6] == 0x4c && b[7] == 0x20 && b[8] == 0x0d && b[9] == 0x0a
                && b[10] == 0x87 && b[11] == 0x0a
        },
        PxKind::Bmp => b[0] == 0x42 && b[1] == 0x4d,
        PxKind::Ico => b[0] == 0x00 && b[1] == 0x00 && b[2] == 0x01 && b[3] == 0x00,
        PxKind::Jpeg2k => {
            ||| b[0] == 0x00 && b[1] == 0x00 && b[2] == 0x00 && b[3] == 0x0c && b[4] == 0x6a
                && b[5] == 0x50 && b[6] == 0x20 && b[7] == 0x20 && b[8] == 0x0d && b[9] == 0x0a
                && b[10] == 0x87 && b[11] == 0x0a
            ||| b[0] == 0xff && b[1] == 0x4f && b[2] == 0xff && b[3] == 0x51
        },
        PxKind::Tiff => {
            ||| b[0] == 0x4d && b[1] == 0x4d && b[2] == 0x00 && b[3] == 0x2a
            ||| b[0] == 0x49 && b[1] == 0x49 && b[2] == 0x2a && b[3] == 0x00
        },
    }
}

/// The kind that `b` is recognised as, if any: the one whose signature its
/// first twelve bytes carry. Shorter input is never recognised.
pub open spec fn sniff(b: Seq<u8>) -> Option<PxKind> {
    if b.len() < MAGIC_LEN {
        None
    } else if has_magic(PxKind::Jpeg, b) {
        Some(PxKind::Jpeg)
    } else if has_magic(PxKind::Png, b) {
        Some(PxKind::Png)
    } else if has_magic(PxKind::Gif, b) {
        Some(PxKind::Gif)
    } else if has_magic(PxKind::WebP, b) {
        Some(PxKind::WebP)
    } else if has_magic(PxKind::Avif, b) {
        Some(PxKind::Avif)
    } else if has_magic(PxKind::JpegXl, b) {
        Some(PxKind::JpegXl)
    } else if has_magic(PxKind::Bmp, b) {
        Some(PxKind::Bmp)
    } else if has_magic(PxKind::Ico, b) {
        Some(PxKind::Ico)
    } else if has_magic(PxKind::Jpeg2k, b) {
        Some(PxKind::Jpeg2k)
    } else if has_magic(PxKind::Tiff, b) {
        Some(PxKind::Tiff)
    } else {
        None
    }
}

/// No two signatures fit the same bytes.
pub proof fn lemma_magic_exclusive(a: PxKind, b: PxKind, bytes: Seq<u8>)
    requires
        has_magic(a, bytes),
        has_magic(b, bytes),
    ensures
        a == b,
{
}

/// The order in which the signatures are tried does not matter: input of
/// twelve bytes or more is recognised as a kind exactly when it carries that
/// kind's signature.
pub proof fn lemma_sniff_is_magic(kind: PxKind, bytes: Seq<u8>)
    ensures
        sniff(bytes) == Some(kind) <==> bytes.len() >= MAGIC_LEN && has_magic(kind, bytes),
{
}

/// What the sniffer looks at is the first twelve bytes and nothing else.
pub proof fn lemma_sniff_prefix(a: Seq<u8>, b: Seq<u8>)
    requires
        a.len() >= MAGIC_LEN,
        b.len() >= MAGIC_LEN,
        a.subrange(0, MAGIC_LEN as int) == b.subrange(0, MAGIC_LEN as int),
    ensures
        sniff(a) == sniff(b),
{
    assert forall|i: int| 0 <= i < MAGIC_LEN implies a[i] == b[i] by {
        assert(a[i] == a.subrange(0, MAGIC_LEN as int)[i]);
        assert(b[i] == b.subrange(0, MAGIC_LEN as int)[i]);
    }
}

impl PxKind {
    /// Recognises an image format by the signature in the first twelve bytes
    /// of `src`.
    ///
    /// Fails with [`PxsumError::Decode`] when `src` is shorter than twelve
    /// bytes or carries no known signature.
    pub fn try_from_magic(src: &[u8]) -> (r: Result<PxKind, PxsumError>)
        ensures
            r == match sniff(src@) {
                Some(kind) => Ok::<PxKind, PxsumError>(kind),
                None => Err(PxsumError::Decode),
            },
            forall|kind: PxKind|
                r == Ok::<PxKind, PxsumError>(kind) <==> src@.len() >= MAGIC_LEN && has_magic(
                    kind,
                    src@,
                ),
            src@.len() < MAGIC_LEN ==> r == Err::<PxKind, PxsumError>(PxsumError::Decode),
    {
        if src.len() < MAGIC_LEN {
            return Err(PxsumError::Decode);
        }
        let b0: u8 = src[0];
        let b1: u8 = src[1];
        let b2: u8 = src[2];
        let b3: u8 = src[3];
        let b4: u8 = src[4];
        let b5: u8 = src[5];
        let b6: u8 = src[6];
        let b7: u8 = src[7];
        let b8: u8 = src[8];
        let b9: u8 = src[9];
        let b10: u8 = src[10];
        let b11: u8 = src[11];
        let tail: bool = b8 == 0x0d && b9 == 0x0a && b10 == 0x87 && b11 == 0x0a;
        if b0 == 0xff && b1 == 0xd8 && b2 == 0xff {
            Ok(PxKind::Jpeg)
        } else if b0 == 0x89 && b1 == 0x50 && b2 == 0x4e && b3 == 0x47 && b4 == 0x0d && b5 == 0x0a
            && b6 == 0x1a && b7 == 0x0a {
            Ok(PxKind::Png)
        } else if b0 == 0x47 && b1 == 0x49 && b2 == 0x46 && b3 == 0x38 && (b4 == 0x37 || b4
            == 0x39) && b5 == 0x61 {
            Ok(PxKind::Gif)
        } else if b0 == 0x52 && b1 == 0x49 && b2 == 0x46 && b3 == 0x46 && b8 == 0x57 && b9 == 0x45
            && b10 == 0x42 && b11 == 0x50 {
            Ok(PxKind::WebP)
        } else if b0 == 0x00 && b1 == 0x00 && b2 == 0x00 && (b3 == 0x20 || b3 == 0x1c) && b4
            == 0x66 && b5 == 0x74 && b6 == 0x79 && b7 == 0x70 && b8 == 0x61 && b9 == 0x76 && b10
            == 0x69 && b11 == 0x66 {
            Ok(PxKind::Avif)
        } else if (b0 == 0xff && b1 == 0x0a) || (b0 == 0x00 && b1 == 0x00 && b2 == 0x00 && b3
            == 0x0c && b4 == 0x4a && b5 == 0x58 && b6 == 0x4c && b7 == 0x20 && tail) {
            Ok(PxKind::JpegXl)
        } else if b0 == 0x42 && b1 == 0x4d {
            Ok(PxKind::Bmp)
        } else if b0 == 0x00 && b1 == 0x00 && b2 == 0x01 && b3 == 0x00 {
            Ok(PxKind::Ico)
        } else if (b0 == 0x00 && b1 == 0x00 && b2 == 0x00 && b3 == 0x0c && b4 == 0x6a && b5
            == 0x50 && b6 == 0x20 && b7 == 0x20 && tail) || (b0 == 0xff && b1 == 0x4f && b2
            == 0xff && b3 == 0x51) {
            Ok(PxKind::Jpeg2k)
        } else if (b0 == 0x4d && b1 == 0x4d && b2 == 0x00 && b3 == 0x2a) || (b0 == 0x49 && b1
            == 0x49 && b2 == 0x2a && b3 == 0x00) {
            Ok(PxKind::Tiff)
        } else {
            Err(PxsumError::Decode)
        }
    }
}

} // verus!
