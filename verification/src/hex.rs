//! Hashes as text: sixty-four hexadecimal digits for thirty-two bytes.

use vstd::prelude::*;

verus! {

/// The error type of the `faster_hex` crate.
#[verifier::external_type_specification]
#[verifier::external_body]
pub struct ExHexError(faster_hex::Error);

/// The digit for a number from 0 to 15, letters in lower case.
pub open spec fn hex_digit(n: int) -> char {
    if 0 <= n < 10 {
        (0x30 + n) as char
    } else {
        (0x57 + n) as char
    }
}

/// The number a hexadecimal digit stands for, in either case; `-1` for any
/// other character.
pub open spec fn hex_value(c: char) -> int {
    let n = c as int;
    if 0x30 <= n <= 0x39 {
        n - 0x30
    } else if 0x41 <= n <= 0x46 {
        n - 0x37
    } else if 0x61 <= n <= 0x66 {
        n - 0x57
    } else {
        -1
    }
}

/// Whether a character is a hexadecimal digit, in either case.
pub open spec fn is_hex_digit(c: char) -> bool {
    hex_value(c) >= 0
}

/// Whether a text is made of hexadecimal digits only.
pub open spec fn is_hex_text(s: Seq<char>) -> bool {
    forall|i: int| 0 <= i < s.len() ==> is_hex_digit(#[trigger] s[i])
}

/// The bytes as text: two digits for each, the high half first, letters in
/// lower case.
pub open spec fn hex_lower(bytes: Seq<u8>) -> Seq<char> {
    Seq::new(
        2 * bytes.len(),
        |i: int|
            if i % 2 == 0 {
                hex_digit(bytes[i / 2] as int / 16)
            } else {
                hex_digit(bytes[i / 2] as int % 16)
            },
    )
}

/// The bytes that a text of hexadecimal digits stands for: one for each two
/// digits, the high half first.
pub open spec fn unhex(s: Seq<char>) -> Seq<u8> {
    Seq::new(
        (s.len() / 2) as nat,
        |i: int| (hex_value(s[2 * i]) * 16 + hex_value(s[2 * i + 1])) as u8,
    )
}

/// Bytes read as text, each byte the character of the same code.
pub open spec fn latin(b: Seq<u8>) -> Seq<char> {
    Seq::new(b.len(), |i: int| b[i] as char)
}

/// `faster_hex::hex_encode` on 32 bytes and a buffer of 64: it cannot fail
/// for want of room, and the text is the bytes in lower-case hexadecimal.
#[verifier::external_body]
pub(crate) fn hex_encode(src: &[u8; 32]) -> (r: Result<String, faster_hex::Error>)
    ensures
        r is Ok,
        r matches Ok(s) ==> s@ == hex_lower(src@),
{
    let mut buf = [0u8;64];
    match faster_hex::hex_encode(src.as_slice(), buf.as_mut_slice()) {
        Ok(s) => Ok(String::from(&*s)),
        Err(e) => Err(e),
    }
}

/// `faster_hex::hex_decode` on 64 bytes and room for 32: it succeeds exactly
/// when every byte is a hexadecimal digit, of either case, and then fills
/// the room with the bytes the digits stand for; when it fails it has
/// written nothing.
#[verifier::external_body]
pub(crate) fn hex_decode(src: &[u8; 64], dst: &mut [u8; 32]) -> (r: Result<(), faster_hex::Error>)
    ensures
        r is Ok <==> is_hex_text(latin(src@)),
        r is Ok ==> final(dst)@ == unhex(latin(src@)),
        r is Err ==> final(dst)@ == old(dst)@,
{
    faster_hex::hex_decode(src.as_slice(), dst.as_mut_slice())
}

/// Every digit that `hex_lower` writes is a hexadecimal digit, and stands
/// for the half byte it was written for.
pub proof fn lemma_hex_digit_value(n: int)
    requires
        0 <= n < 16,
    ensures
        hex_value(hex_digit(n)) == n,
        is_hex_digit(hex_digit(n)),
        hex_digit(n) != ' ',
        hex_digit(n) as int >= 0x30,
{
}

/// Text written from bytes reads back as the same bytes.
pub proof fn lemma_hex_round_trip(bytes: Seq<u8>)
    ensures
        hex_lower(bytes).len() == 2 * bytes.len(),
        is_hex_text(hex_lower(bytes)),
        unhex(hex_lower(bytes)) == bytes,
{
    let t = hex_lower(bytes);
    assert forall|i: int| 0 <= i < t.len() implies is_hex_digit(#[trigger] t[i]) by {
        let b = bytes[i / 2] as int;
        lemma_hex_digit_value(b / 16);
        lemma_hex_digit_value(b % 16);
    }
    assert forall|i: int| 0 <= i < bytes.len() implies unhex(t)[i] == bytes[i] by {
        let b = bytes[i] as int;
        lemma_hex_digit_value(b / 16);
        lemma_hex_digit_value(b % 16);
        assert((2 * i) / 2 == i && (2 * i) % 2 == 0);
        assert((2 * i + 1) / 2 == i && (2 * i + 1) % 2 == 1);
        assert(t[2 * i] == hex_digit(b / 16));
        assert(t[2 * i + 1] == hex_digit(b % 16));
        assert((b / 16) * 16 + b % 16 == b);
    }
    assert(unhex(t) =~= bytes);
}

} // verus!
