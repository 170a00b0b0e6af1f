//! The checksum record: a hash, the path it belongs to, and a buffer to read
//! the next file into.

use vstd::prelude::*;
use crate::error::PxsumError;
use crate::ext::code;
use crate::hash::{checksum, PxImage};
use crate::hex::{hex_decode, hex_encode, hex_lower, is_hex_text, latin, unhex};
use crate::path::{is_canonical, normalize, normalize_chars, normalized};
use crate::text::chars_of;

verus! {

/// The bit of a hash's first byte that tells how it was made: set when the
/// colours of invisible pixels were hashed too.
pub const STRICT: u8 = 1;

/// How many bytes a hash has.
pub const HASH_LEN: usize = 32;

/// Whether a hash carries the strictness flag.
pub open spec fn is_strict(hash: Seq<u8>) -> bool
    recommends
        hash.len() == HASH_LEN,
{
    hash[0] & STRICT == STRICT
}

/// The hash a fresh record starts with: all zero but for the strictness flag.
pub open spec fn blank_hash(strict: bool) -> Seq<u8> {
    Seq::new(
        HASH_LEN as nat,
        |i: int|
            if i == 0 && strict {
                STRICT
            } else {
                0u8
            },
    )
}

/// How many characters of a manifest line the hash takes.
pub const HEX_LEN: usize = 64;

/// The manifest line for a hash and a path: the hash in lower-case
/// hexadecimal, two spaces, the path. Without a path there is no line.
pub open spec fn render_line(hash: Seq<u8>, path: Seq<char>) -> Seq<char> {
    if path.len() == 0 {
        Seq::empty()
    } else {
        hex_lower(hash) + seq![' ', ' '] + path
    }
}

/// What a manifest line holds: the hash that its first 64 characters spell,
/// and what follows the two spaces after them. `None` where the line is too
/// short, does not begin with 64 hexadecimal digits, or lacks the spaces.
pub open spec fn parse_line(line: Seq<char>) -> Option<(Seq<u8>, Seq<char>)> {
    if line.len() >= HEX_LEN + 2 && is_hex_text(line.take(HEX_LEN as int)) && line[HEX_LEN as int]
        == ' ' && line[HEX_LEN + 1] == ' ' {
        Some((unhex(line.take(HEX_LEN as int)), line.skip(HEX_LEN + 2)))
    } else {
        None
    }
}

/// The canonical path for a name given as bytes: that of the text the bytes
/// encode, if they are UTF-8 and the text has one.
pub open spec fn path_of_bytes(src: Seq<u8>) -> Option<Seq<char>> {
    if vstd::utf8::valid_utf8(src) {
        normalized(vstd::utf8::decode_utf8(src))
    } else {
        None
    }
}

/// A hash with the path it was made from.
///
/// One record serves a worker for its whole life: each new path or manifest
/// line overwrites what the one before left.
#[derive(Debug, Clone, PartialEq, Eq)]
pub struct Checksum {
    src: String,
    chk: [u8; 32],
    buf: Vec<u8>,
}

impl Checksum {
    /// The path the record holds; empty while it holds none.
    pub closed spec fn path(&self) -> Seq<char> {
        self.src@
    }

    /// The 32 bytes of the hash.
    pub closed spec fn hash(&self) -> Seq<u8> {
        self.chk@
    }

    /// The bytes in the read buffer.
    pub closed spec fn buffered(&self) -> Seq<u8> {
        self.buf@
    }

    /// A hash always has 32 bytes.
    pub proof fn lemma_hash_len(&self)
        ensures
            self.hash().len() == HASH_LEN,
    {
    }

    /// A record without a path, whose hash is blank but for the strictness
    /// flag.
    pub fn new(strict: bool) -> (r: Self)
        ensures
            r.path() == Seq::<char>::empty(),
            r.hash() == blank_hash(strict),
            is_strict(r.hash()) == strict,
    {
        let mut chk = [0u8;32];
        if strict {
            chk[0] = STRICT;
        }
        assert(chk@ =~= blank_hash(strict));
        assert(1u8 & 1u8 == 1u8) by (bit_vector);
        assert(0u8 & 1u8 == 0u8) by (bit_vector);
        Checksum { src: String::new(), chk, buf: Vec::new() }
    }

    /// The hash.
    pub fn chk(&self) -> (r: [u8; 32])
        ensures
            r@ == self.hash(),
    {
        self.chk
    }

    /// The path.
    pub fn src(&self) -> (r: &str)
        ensures
            r@ == self.path(),
    {
        self.src.as_str()
    }

    /// The buffer that the next file is read into: the record's own, handed
    /// out as it stands. Whatever is left in it when the borrow ends is what
    /// the record holds from then on; the path and the hash are out of
    /// reach.
    pub fn buffer(&mut self) -> (b: &mut Vec<u8>)
        ensures
            b@ == old(self).buffered(),
            final(self).buffered() == final(b)@,
            final(self).path() == old(self).path(),
            final(self).hash() == old(self).hash(),
    {
        &mut self.buf
    }

    /// The manifest line of the record: the hash in hexadecimal, two spaces,
    /// the path; nothing while the record holds no path.
    pub fn to_string(&self) -> (r: String)
        ensures
            r@ == render_line(self.hash(), self.path()),
    {
        if self.src.as_str().is_empty() {
            return String::new();
        }
        match hex_encode(&self.chk) {
            Ok(mut line) => {
                line.push(' ');
                line.push(' ');
                line.append(self.src.as_str());
                assert(line@ =~= render_line(self.hash(), self.path()));
                line
            },
            Err(_) => String::new(),
        }
    }

    /// Replaces the path of the record by the canonical form of `path`.
    ///
    /// Where `path` has no canonical form the record is left without a path
    /// and [`PxsumError::Path`] is returned. The hash stays as it is.
    pub fn set_path(&mut self, path: &str) -> (r: Result<(), PxsumError>)
        ensures
            final(self).hash() == old(self).hash(),
            match normalized(path@) {
                Some(q) => r is Ok && final(self).path() == q,
                None => r == Err::<(), PxsumError>(PxsumError::Path) && final(self).path().len()
                    == 0,
            },
            r is Ok ==> is_canonical(final(self).path()),
    {
        match normalize(path) {
            Some(s) => {
                self.src = s;
                Ok(())
            },
            None => {
                self.src = String::new();
                Err(PxsumError::Path)
            },
        }
    }

    /// Starts a new checksum: takes the path of the image, given as the
    /// bytes of its name, and makes it the path of the record.
    ///
    /// Fails with [`PxsumError::Path`], leaving the record without a path,
    /// where the bytes are not UTF-8 or the path has no canonical form.
    pub fn crunch_path(&mut self, src: &[u8]) -> (r: Result<(), PxsumError>)
        ensures
            final(self).hash() == old(self).hash(),
            match path_of_bytes(src@) {
                Some(q) => r is Ok && final(self).path() == q,
                None => r == Err::<(), PxsumError>(PxsumError::Path) && final(self).path().len()
                    == 0,
            },
            r is Ok ==> is_canonical(final(self).path()),
    {
        match core::str::from_utf8(src) {
            Ok(s) => self.set_path(s),
            Err(_) => {
                self.src = String::new();
                Err(PxsumError::Path)
            },
        }
    }

    /// Finishes a new checksum: hashes the decoded image, in the mode that
    /// the record was made with, and keeps the hash. The path stays.
    pub fn crunch_image(&mut self, img: PxImage)
        ensures
            final(self).path() == old(self).path(),
            final(self).hash() == checksum(
                img.pixels(),
                img.no_alpha(),
                is_strict(old(self).hash()),
            ),
            is_strict(final(self).hash()) == is_strict(old(self).hash()),
    {
        let strict: bool = self.strict();
        self.chk = img.into_checksum(strict);
    }

    /// Starts a verification: takes the hash and the path from a manifest
    /// line.
    ///
    /// The path of the record is dropped first. A line that is too short,
    /// does not begin with 64 hexadecimal digits or lacks the two spaces
    /// after them fails with [`PxsumError::LineDecode`] and leaves the hash
    /// alone. Otherwise the hash is the one the line spells, and the path is
    /// the canonical form of the rest of the line, or missing, with
    /// [`PxsumError::Path`], where that has none.
    pub fn verify_line(&mut self, line: &str) -> (r: Result<(), PxsumError>)
        ensures
            match parse_line(line@) {
                None => {
                    &&& r == Err::<(), PxsumError>(PxsumError::LineDecode)
                    &&& final(self).path().len() == 0
                    &&& final(self).hash() == old(self).hash()
                },
                Some((hash, field)) => {
                    &&& final(self).hash() == hash
                    &&& match normalized(field) {
                        Some(q) => r is Ok && final(self).path() == q,
                        None => {
                            &&& r == Err::<(), PxsumError>(PxsumError::Path)
                            &&& final(self).path().len() == 0
                        },
                    }
                },
            },
            r is Ok ==> is_canonical(final(self).path()),
    {
        self.src = String::new();
        let chars: Vec<char> = chars_of(line);
        let n: usize = chars.len();
        if n < HEX_LEN + 2 || chars[HEX_LEN] != ' ' || chars[HEX_LEN + 1] != ' ' {
            return Err(PxsumError::LineDecode);
        }
        let ghost text = line@.take(HEX_LEN as int);
        let mut digits: [u8; 64] = [0u8;64];
        let mut i: usize = 0;
        while i < HEX_LEN
            invariant
                i <= HEX_LEN,
                chars@ == line@,
                chars@.len() >= HEX_LEN + 2,
                text == line@.take(HEX_LEN as int),
                self.src@.len() == 0,
                self.chk@ == old(self).chk@,
                forall|j: int| 0 <= j < i ==> (#[trigger] digits@[j]) as char == text[j],
            decreases HEX_LEN - i,
        {
            let c: u32 = code(chars[i]);
            if c >= 0x80 {
                assert(!crate::hex::is_hex_digit(text[i as int]));
                return Err(PxsumError::LineDecode);
            }
            digits[i] = c as u8;
            i += 1;
        }
        assert(latin(digits@) =~= text);
        match hex_decode(&digits, &mut self.chk) {
            Ok(()) => {},
            Err(_) => {
                return Err(PxsumError::LineDecode);
            },
        }
        let field: &[char] = vstd::slice::slice_subrange(chars.as_slice(), HEX_LEN + 2, n);
        assert(field@ =~= line@.skip(HEX_LEN + 2));
        match normalize_chars(field) {
            Some(s) => {
                self.src = s;
                Ok(())
            },
            None => Err(PxsumError::Path),
        }
    }

    /// Finishes a verification: hashes the decoded image in the mode of the
    /// hash that the record holds, and tells whether the two hashes are the
    /// same, byte for byte.
    pub fn verify_image(&self, img: PxImage) -> (r: bool)
        ensures
            r == (checksum(img.pixels(), img.no_alpha(), is_strict(self.hash())) == self.hash()),
    {
        let chk: [u8; 32] = img.into_checksum(self.strict());
        let mut i: usize = 0;
        while i < HASH_LEN
            invariant
                i <= HASH_LEN,
                chk@ == checksum(img.pixels(), img.no_alpha(), is_strict(self.hash())),
                forall|j: int| 0 <= j < i ==> chk@[j] == self.chk@[j],
            decreases HASH_LEN - i,
        {
            if chk[i] != self.chk[i] {
                return false;
            }
            i += 1;
        }
        assert(chk@ =~= self.chk@);
        true
    }

    /// Whether the record reads from standard input: it does while it holds
    /// no path, or the path `-`.
    pub fn stdin(&self) -> (r: bool)
        ensures
            r == (self.path().len() == 0 || self.path() == seq!['-']),
    {
        let s = self.src.as_str();
        proof {
            reveal_strlit("-");
            assert("-"@ =~= seq!['-']);
        }
        s.is_empty() || str_eq(s, "-")
    }

    /// Whether the hash carries the strictness flag.
    pub fn strict(&self) -> (r: bool)
        ensures
            r == is_strict(self.hash()),
    {
        STRICT == self.chk[0] & STRICT
    }
}

/// A line written from a hash and a path reads back as that hash and that
/// path.
pub proof fn lemma_line_round_trip(hash: Seq<u8>, path: Seq<char>)
    requires
        hash.len() == HASH_LEN,
        path.len() > 0,
    ensures
        parse_line(render_line(hash, path)) == Some((hash, path)),
{
    let line = render_line(hash, path);
    crate::hex::lemma_hex_round_trip(hash);
    assert(line.take(HEX_LEN as int) =~= hex_lower(hash));
    assert(line.skip(HEX_LEN + 2) =~= path);
    assert(line[HEX_LEN as int] == ' ');
    assert(line[HEX_LEN + 1] == ' ');
}

/// A record that was crunched verifies: the line written from the hash of
/// an image and the canonical form of a path holds that hash and a path
/// that is canonical already, and hashing the same image again, in the mode
/// that the hash tells, gives the same hash.
pub proof fn lemma_verify_consistency(
    px: Seq<u8>,
    no_alpha: bool,
    strict: bool,
    path: Seq<char>,
)
    requires
        normalized(path) is Some,
    ensures
        ({
            let canonical = normalized(path).unwrap();
            let hash = checksum(px, no_alpha, strict);
            let line = render_line(hash, canonical);
            &&& parse_line(line) == Some((hash, canonical))
            &&& normalized(canonical) == Some(canonical)
            &&& is_strict(hash) == strict
            &&& checksum(px, no_alpha, is_strict(hash)) == hash
        }),
{
    let canonical = normalized(path).unwrap();
    let hash = checksum(px, no_alpha, strict);
    crate::hash::lemma_modes_differ(px, no_alpha);
    crate::path::lemma_normalize_idempotent(path);
    assert(canonical.len() > 0) by {
        // An empty path would be canonical as `-`, not as itself.
        assert(crate::path::stdin_path().len() == 1);
    }
    lemma_line_round_trip(hash, canonical);
}

/// A hash that was tampered with does not verify, as long as the
/// strictness flag is as it was: the stored hash then differs from the one
/// that is computed again.
pub proof fn lemma_verify_detects_change(
    px: Seq<u8>,
    no_alpha: bool,
    strict: bool,
    stored: Seq<u8>,
)
    requires
        stored != checksum(px, no_alpha, strict),
        is_strict(stored) == strict,
    ensures
        checksum(px, no_alpha, is_strict(stored)) != stored,
{
}

/// Whether two digests are the same but for the strictness flag.
pub open spec fn same_but_flag(a: Seq<u8>, b: Seq<u8>) -> bool {
    crate::hash::stamped(a, true) == crate::hash::stamped(b, true)
}

/// A hash whose strictness flag alone was flipped does not verify either,
/// where the two modes hash the image to digests that differ in more than
/// the flag: the image is hashed again in the other mode.
pub proof fn lemma_verify_detects_flag_flip(px: Seq<u8>, no_alpha: bool, strict: bool)
    requires
        !same_but_flag(
            crate::hash::digest(crate::hash::hash_input(px, no_alpha, true)),
            crate::hash::digest(crate::hash::hash_input(px, no_alpha, false)),
        ),
    ensures
        ({
            let hash = checksum(px, no_alpha, strict);
            let flipped = crate::hash::stamped(hash, !strict);
            &&& is_strict(flipped) == !strict
            &&& checksum(px, no_alpha, is_strict(flipped)) != flipped
        }),
{
    let d_strict = crate::hash::digest(crate::hash::hash_input(px, no_alpha, true));
    let d_loose = crate::hash::digest(crate::hash::hash_input(px, no_alpha, false));
    let hash = checksum(px, no_alpha, strict);
    let flipped = crate::hash::stamped(hash, !strict);
    let again = checksum(px, no_alpha, !strict);
    crate::hash::lemma_stamp(hash, !strict);
    let a = d_strict[0];
    let b = d_loose[0];
    assert(((a | 1u8) & !1u8) == (a & !1u8)) by (bit_vector);
    assert(((b & !1u8) | 1u8) == (b | 1u8)) by (bit_vector);
    assert(((a | 1u8) == (b | 1u8)) <==> ((a & !1u8) == (b & !1u8))) by (bit_vector);
    if again == flipped {
        assert forall|i: int| 1 <= i < HASH_LEN implies d_strict[i] == d_loose[i] by {
            assert(again[i] == flipped[i]);
        }
        assert(again[0] == flipped[0]);
        assert(crate::hash::stamped(d_strict, true) =~= crate::hash::stamped(d_loose, true));
    }
}

/// Whether two strings hold the same characters.
pub fn str_eq(a: &str, b: &str) -> (r: bool)
    ensures
        r == (a@ == b@),
{
    let x = a.as_bytes();
    let y = b.as_bytes();
    proof {
        vstd::utf8::encode_utf8_decode_utf8(a@);
        vstd::utf8::encode_utf8_decode_utf8(b@);
    }
    if x.len() != y.len() {
        return false;
    }
    let mut i: usize = 0;
    while i < x.len()
        invariant
            x@ == vstd::utf8::encode_utf8(a@),
            y@ == vstd::utf8::encode_utf8(b@),
            x@.len() == y@.len(),
            i <= x@.len(),
            forall|j: int| 0 <= j < i ==> x@[j] == y@[j],
        decreases x@.len() - i,
    {
        if x[i] != y[i] {
            return false;
        }
        i += 1;
    }
    assert(x@ =~= y@);
    true
}

} // verus!
