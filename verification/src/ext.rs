//! The extension filter: which paths are named like an image.
//!
//! The filter looks at the end of a path's text and at nothing else; no file
//! is touched. A path is given as the codes of its units, bytes or
//! characters: every code that matters here is ASCII, so both read the same.

use vstd::prelude::*;

verus! {

/// The codes of a run of bytes.
pub open spec fn byte_codes(b: Seq<u8>) -> Seq<int> {
    Seq::new(b.len(), |i: int| b[i] as int)
}

/// The codes of a run of characters.
pub open spec fn char_codes(s: Seq<char>) -> Seq<int> {
    Seq::new(s.len(), |i: int| s[i] as int)
}

/// The code of `c` in lower case, if `c` is an ASCII capital; else `c`.
pub open spec fn lower(c: int) -> int {
    if 0x41 <= c <= 0x5a {
        c + 0x20
    } else {
        c
    }
}

/// Whether the three codes spell `x`, `y`, `z`, in whatever case.
pub open spec fn spells3(a: int, b: int, c: int, x: char, y: char, z: char) -> bool {
    lower(a) == x as int && lower(b) == y as int && lower(c) == z as int
}

/// Whether the four codes spell `w`, `x`, `y`, `z`, in whatever case.
pub open spec fn spells4(a: int, b: int, c: int, d: int, w: char, x: char, y: char, z: char)
    -> bool {
    lower(a) == w as int && lower(b) == x as int && lower(c) == y as int && lower(d) == z as int
}

/// The image extensions of three letters.
pub open spec fn is_ext3(a: int, b: int, c: int) -> bool {
    ||| spells3(a, b, c, 'b', 'm', 'p')
    ||| spells3(a, b, c, 'g', 'i', 'f')
    ||| spells3(a, b, c, 'i', 'c', 'o')
    ||| spells3(a, b, c, 'j', '2', 'c')
    ||| spells3(a, b, c, 'j', '2', 'k')
    ||| spells3(a, b, c, 'j', 'p', '2')
    ||| spells3(a, b, c, 'j', 'p', 'c')
    ||| spells3(a, b, c, 'j', 'p', 'g')
    ||| spells3(a, b, c, 'j', 'x', 'l')
    ||| spells3(a, b, c, 'p', 'n', 'g')
    ||| spells3(a, b, c, 't', 'i', 'f')
}

/// The image extensions of four letters.
pub open spec fn is_ext4(a: int, b: int, c: int, d: int) -> bool {
    ||| spells4(a, b, c, d, 'a', 'v', 'i', 'f')
    ||| spells4(a, b, c, d, 'j', 'p', 'e', 'g')
    ||| spells4(a, b, c, d, 'j', 'p', 'g', '2')
    ||| spells4(a, b, c, d, 't', 'i', 'f', 'f')
    ||| spells4(a, b, c, d, 'w', 'e', 'b', 'p')
}

/// Whether `c` is the code of a directory separator, `/` or `\`.
pub open spec fn is_separator(c: int) -> bool {
    c == 0x2f || c == 0x5c
}

/// Whether a path ends in a dot and an image extension of three letters,
/// with something other than a separator before the dot.
pub open spec fn ends_with_ext3(p: Seq<int>) -> bool {
    let n = p.len() as int;
    &&& n >= 5
    &&& !is_separator(p[n - 5])
    &&& p[n - 4] == 0x2e
    &&& is_ext3(p[n - 3], p[n - 2], p[n - 1])
}

/// Whether a path ends in a dot and an image extension of four letters,
/// with something other than a separator before the dot.
pub open spec fn ends_with_ext4(p: Seq<int>) -> bool {
    let n = p.len() as int;
    &&& n >= 6
    &&& !is_separator(p[n - 6])
    &&& p[n - 5] == 0x2e
    &&& is_ext4(p[n - 4], p[n - 3], p[n - 2], p[n - 1])
}

/// Whether a path is named like an image.
pub open spec fn has_image_extension(p: Seq<int>) -> bool {
    ends_with_ext3(p) || ends_with_ext4(p)
}

/// Lower-cases the code of an ASCII capital and leaves every other code.
pub fn lower_code(c: u32) -> (r: u32)
    ensures
        r as int == lower(c as int),
{
    if 0x41 <= c && c <= 0x5a {
        c + 0x20
    } else {
        c
    }
}

/// Tests three codes for an image extension.
pub fn ext3(a: u32, b: u32, c: u32) -> (r: bool)
    ensures
        r == is_ext3(a as int, b as int, c as int),
{
    let a: u32 = lower_code(a);
    let b: u32 = lower_code(b);
    let c: u32 = lower_code(c);
    if a == 0x62 {
        b == 0x6d && c == 0x70
    } else if a == 0x67 {
        b == 0x69 && c == 0x66
    } else if a == 0x69 {
        b == 0x63 && c == 0x6f
    } else if a == 0x6a {
        (b == 0x32 && (c == 0x63 || c == 0x6b)) || (b == 0x70 && (c == 0x32 || c == 0x63 || c
            == 0x67)) || (b == 0x78 && c == 0x6c)
    } else if a == 0x70 {
        b == 0x6e && c == 0x67
    } else if a == 0x74 {
        b == 0x69 && c == 0x66
    } else {
        false
    }
}

/// Tests four codes for an image extension.
pub fn ext4(a: u32, b: u32, c: u32, d: u32) -> (r: bool)
    ensures
        r == is_ext4(a as int, b as int, c as int, d as int),
{
    let a: u32 = lower_code(a);
    let b: u32 = lower_code(b);
    let c: u32 = lower_code(c);
    let d: u32 = lower_code(d);
    if a == 0x61 {
        b == 0x76 && c == 0x69 && d == 0x66
    } else if a == 0x6a {
        b == 0x70 && ((c == 0x65 && d == 0x67) || (c == 0x67 && d == 0x32))
    } else if a == 0x74 {
        b == 0x69 && c == 0x66 && d == 0x66
    } else if a == 0x77 {
        b == 0x65 && c == 0x62 && d == 0x70
    } else {
        false
    }
}

/// Tests a code for being something other than a separator.
fn no_separator(c: u32) -> (r: bool)
    ensures
        r == !is_separator(c as int),
{
    c != 0x2f && c != 0x5c
}

/// Whether the path, given as bytes, is named like an image: whether it ends
/// in a dot and one of the known extensions, in whatever case, and the dot
/// has something other than `/` or `\` before it.
pub fn check_extension(bytes: &[u8]) -> (r: bool)
    ensures
        r == has_image_extension(byte_codes(bytes@)),
{
    let n: usize = bytes.len();
    let ghost p = byte_codes(bytes@);
    if n >= 5 && bytes[n - 4] == 0x2e && no_separator(bytes[n - 5] as u32) && ext3(
        bytes[n - 3] as u32,
        bytes[n - 2] as u32,
        bytes[n - 1] as u32,
    ) {
        assert(ends_with_ext3(p));
        true
    } else if n >= 6 && bytes[n - 5] == 0x2e && no_separator(bytes[n - 6] as u32) && ext4(
        bytes[n - 4] as u32,
        bytes[n - 3] as u32,
        bytes[n - 2] as u32,
        bytes[n - 1] as u32,
    ) {
        assert(ends_with_ext4(p));
        true
    } else {
        assert(!ends_with_ext3(p));
        assert(!ends_with_ext4(p));
        false
    }
}

/// The code of a character.
pub fn code(c: char) -> (r: u32)
    ensures
        r as int == c as int,
{
    c as u32
}

/// The same test on a path given as characters.
pub fn check_extension_chars(chars: &[char]) -> (r: bool)
    ensures
        r == has_image_extension(char_codes(chars@)),
{
    let n: usize = chars.len();
    let ghost p = char_codes(chars@);
    if n >= 5 && code(chars[n - 4]) == 0x2e && no_separator(code(chars[n - 5])) && ext3(
        code(chars[n - 3]),
        code(chars[n - 2]),
        code(chars[n - 1]),
    ) {
        assert(ends_with_ext3(p));
        true
    } else if n >= 6 && code(chars[n - 5]) == 0x2e && no_separator(code(chars[n - 6])) && ext4(
        code(chars[n - 4]),
        code(chars[n - 3]),
        code(chars[n - 2]),
        code(chars[n - 1]),
    ) {
        assert(ends_with_ext4(p));
        true
    } else {
        assert(!ends_with_ext3(p));
        assert(!ends_with_ext4(p));
        false
    }
}

/// A name put together: what comes before the dot, the dot, the extension.
pub open spec fn dotted(stem: Seq<int>, ext: Seq<int>) -> Seq<int> {
    stem + seq![0x2eint] + ext
}

/// Whether two runs of codes spell the same but for ASCII case.
pub open spec fn same_but_case(a: Seq<int>, b: Seq<int>) -> bool {
    &&& a.len() == b.len()
    &&& forall|i: int| 0 <= i < a.len() ==> lower(#[trigger] a[i]) == lower(b[i])
}

/// Whether the codes are one of the image extensions.
pub open spec fn is_ext(ext: Seq<int>) -> bool {
    ||| ext.len() == 3 && is_ext3(ext[0], ext[1], ext[2])
    ||| ext.len() == 4 && is_ext4(ext[0], ext[1], ext[2], ext[3])
}

/// Case does not matter: a name that ends in a dot and an extension passes
/// in every casing of the extension, as long as something other than a
/// separator stands before the dot.
pub proof fn lemma_extension_any_case(stem: Seq<int>, ext: Seq<int>, cased: Seq<int>)
    requires
        stem.len() >= 1,
        !is_separator(stem.last()),
        is_ext(ext),
        same_but_case(cased, ext),
    ensures
        has_image_extension(dotted(stem, cased)),
{
    let p = dotted(stem, cased);
    let n = p.len() as int;
    assert(lower(cased[0]) == lower(ext[0]));
    assert(lower(cased[1]) == lower(ext[1]));
    assert(lower(cased[2]) == lower(ext[2]));
    if ext.len() == 3 {
        assert(p[n - 5] == stem.last());
        assert(p[n - 4] == 0x2e);
        assert(p[n - 3] == cased[0] && p[n - 2] == cased[1] && p[n - 1] == cased[2]);
        assert(ends_with_ext3(p));
    } else {
        assert(lower(cased[3]) == lower(ext[3]));
        assert(p[n - 6] == stem.last());
        assert(p[n - 5] == 0x2e);
        assert(p[n - 4] == cased[0] && p[n - 3] == cased[1] && p[n - 2] == cased[2] && p[n - 1]
            == cased[3]);
        assert(ends_with_ext4(p));
    }
}

/// An extension needs a name before it: where the dot comes first, or
/// straight after a separator, the path does not pass.
pub proof fn lemma_extension_needs_stem(dir: Seq<int>, ext: Seq<int>)
    requires
        dir.len() == 0 || is_separator(dir.last()),
        is_ext(ext),
    ensures
        !has_image_extension(dotted(dir, ext)),
{
    let p = dotted(dir, ext);
    let n = p.len() as int;
    if ext.len() == 3 {
        assert(p[n - 4] == 0x2e);
        assert(p[n - 3] == ext[0] && p[n - 2] == ext[1] && p[n - 1] == ext[2]);
        if n >= 5 {
            assert(p[n - 5] == dir.last());
        }
        assert(!ends_with_ext3(p));
        assert(!ends_with_ext4(p));
    } else {
        assert(p[n - 5] == 0x2e);
        assert(p[n - 4] == ext[0] && p[n - 3] == ext[1] && p[n - 2] == ext[2] && p[n - 1]
            == ext[3]);
        if n >= 6 {
            assert(p[n - 6] == dir.last());
        }
        assert(!ends_with_ext3(p));
        assert(!ends_with_ext4(p));
    }
}

/// How a character ends in UTF-8: an ASCII character is its own single
/// byte; any other ends in a byte of `0x80` or more.
pub proof fn lemma_scalar_last(c: char)
    ensures
        vstd::utf8::encode_scalar(c as u32).len() >= 1,
        (c as int) < 0x80 ==> {
            &&& vstd::utf8::encode_scalar(c as u32) == seq![c as u8]
            &&& (c as u8) as int == c as int
        },
        (c as int) >= 0x80 ==> vstd::utf8::encode_scalar(c as u32).last() >= 0x80,
{
    let v = c as u32;
    vstd::utf8::char_is_scalar(c);
    assert(v as int == c as int);
    if v < 0x80 {
        assert((v & 0x7f) as u8 == v as u8) by (bit_vector)
            requires
                v < 0x80,
        ;
        assert(vstd::utf8::encode_scalar(v) =~= seq![c as u8]);
    } else {
        assert((0x80u8 | (v & 0x3f) as u8) >= 0x80) by (bit_vector);
    }
}

/// A text with one character more is written as the text, then the
/// character.
pub proof fn lemma_encode_push(s: Seq<char>, c: char)
    ensures
        vstd::utf8::encode_utf8(s.push(c)) == vstd::utf8::encode_utf8(s)
            + vstd::utf8::encode_scalar(c as u32),
    decreases s.len(),
{
    let t = s.push(c);
    if s.len() == 0 {
        assert(t.drop_first() =~= s);
        assert(t[0] == c);
        assert(vstd::utf8::encode_utf8(s) =~= Seq::<u8>::empty());
        assert(vstd::utf8::encode_utf8(t) =~= vstd::utf8::encode_scalar(c as u32)
            + vstd::utf8::encode_utf8(s));
        assert(vstd::utf8::encode_scalar(c as u32) + Seq::<u8>::empty()
            =~= Seq::<u8>::empty() + vstd::utf8::encode_scalar(c as u32));
    } else {
        lemma_encode_push(s.drop_first(), c);
        assert(t.drop_first() =~= s.drop_first().push(c));
        assert(t[0] == s[0]);
        let head = vstd::utf8::encode_scalar(s[0] as u32);
        let mid = vstd::utf8::encode_utf8(s.drop_first());
        let tail = vstd::utf8::encode_scalar(c as u32);
        assert(head + (mid + tail) =~= (head + mid) + tail);
    }
}

/// How a text ends in UTF-8: where its last character is ASCII, in that
/// character, after the bytes of the text before it; else in a byte of
/// `0x80` or more.
pub proof fn lemma_last_byte(s: Seq<char>)
    requires
        s.len() > 0,
    ensures
        vstd::utf8::encode_utf8(s).len() > 0,
        (s.last() as int) < 0x80 ==> {
            &&& vstd::utf8::encode_utf8(s).last() as int == s.last() as int
            &&& vstd::utf8::encode_utf8(s).drop_last() == vstd::utf8::encode_utf8(s.drop_last())
        },
        (s.last() as int) >= 0x80 ==> vstd::utf8::encode_utf8(s).last() >= 0x80,
{
    let c = s.last();
    assert(s =~= s.drop_last().push(c));
    lemma_encode_push(s.drop_last(), c);
    lemma_scalar_last(c);
    let head = vstd::utf8::encode_utf8(s.drop_last());
    let tail = vstd::utf8::encode_scalar(c as u32);
    assert((head + tail).last() == tail.last());
    if (c as int) < 0x80 {
        assert((head + tail).drop_last() =~= head);
    }
}

/// Whether the last `k` characters of a text are ASCII.
pub open spec fn ascii_tail(s: Seq<char>, k: int) -> bool {
    &&& 0 <= k <= s.len()
    &&& forall|i: int| s.len() - k <= i < s.len() ==> ((#[trigger] s[i]) as int) < 0x80
}

/// Whether the last `k` bytes are ASCII.
pub open spec fn ascii_byte_tail(b: Seq<u8>, k: int) -> bool {
    &&& 0 <= k <= b.len()
    &&& forall|i: int| b.len() - k <= i < b.len() ==> #[trigger] b[i] < 0x80
}

/// A text that ends in ASCII characters is written as the text before
/// them, then those characters, a byte each.
pub proof fn lemma_ascii_tail_bytes(s: Seq<char>, k: int)
    requires
        ascii_tail(s, k),
    ensures
        vstd::utf8::encode_utf8(s).len() == vstd::utf8::encode_utf8(
            s.take(s.len() - k),
        ).len() + k,
        vstd::utf8::encode_utf8(s).take(vstd::utf8::encode_utf8(s).len() - k)
            == vstd::utf8::encode_utf8(s.take(s.len() - k)),
        forall|j: int|
            1 <= j <= k ==> (#[trigger] vstd::utf8::encode_utf8(s)[vstd::utf8::encode_utf8(
                s,
            ).len() - j]) as int == s[s.len() - j] as int,
    decreases k,
{
    let b = vstd::utf8::encode_utf8(s);
    let n = s.len() as int;
    if k == 0 {
        assert(s.take(n) =~= s);
        assert(b.take(b.len() as int) =~= b);
    } else {
        let t = s.drop_last();
        let bt = vstd::utf8::encode_utf8(t);
        assert((s[n - 1] as int) < 0x80);
        lemma_last_byte(s);
        assert forall|i: int| t.len() - (k - 1) <= i < t.len() implies ((#[trigger] t[i]) as int)
            < 0x80 by {
            assert(t[i] == s[i]);
        }
        lemma_ascii_tail_bytes(t, k - 1);
        assert(t.take(t.len() - (k - 1)) =~= s.take(n - k));
        assert(bt == b.drop_last());
        assert(b.take(b.len() - k) =~= bt.take(bt.len() - (k - 1)));
        assert forall|j: int| 1 <= j <= k implies (#[trigger] b[b.len() - j]) as int == s[n
            - j] as int by {
            if j > 1 {
                assert(bt[bt.len() - (j - 1)] as int == t[t.len() - (j - 1)] as int);
                assert(b[b.len() - j] == bt[bt.len() - (j - 1)]);
                assert(t[t.len() - (j - 1)] == s[n - j]);
            }
        }
    }
}

/// Where the bytes of a text end in ASCII bytes, the text ends in as many
/// ASCII characters.
pub proof fn lemma_ascii_bytes_tail(s: Seq<char>, k: int)
    requires
        ascii_byte_tail(vstd::utf8::encode_utf8(s), k),
    ensures
        ascii_tail(s, k),
    decreases k,
{
    let b = vstd::utf8::encode_utf8(s);
    if k > 0 {
        assert(b.len() > 0);
        assert(s.len() > 0) by {
            if s.len() == 0 {
                assert(b =~= Seq::<u8>::empty());
            }
        }
        lemma_last_byte(s);
        assert(b[b.len() - 1] < 0x80);
        assert((s.last() as int) < 0x80);
        let t = s.drop_last();
        let bt = vstd::utf8::encode_utf8(t);
        assert(bt == b.drop_last());
        assert forall|i: int| bt.len() - (k - 1) <= i < bt.len() implies #[trigger] bt[i]
            < 0x80 by {
            assert(bt[i] == b[i]);
        }
        lemma_ascii_bytes_tail(t, k - 1);
        assert forall|i: int| s.len() - k <= i < s.len() implies ((#[trigger] s[i]) as int)
            < 0x80 by {
            if i < s.len() - 1 {
                assert(t[i] == s[i]);
            }
        }
    }
}

/// What stands before an ASCII tail is a separator in the bytes exactly
/// when it is one in the text: the byte is the character, or both are
/// beyond ASCII.
proof fn lemma_stem_matches(s: Seq<char>, k: int)
    requires
        ascii_tail(s, k),
    ensures
        vstd::utf8::encode_utf8(s).len() > k <==> s.len() > k,
        s.len() > k ==> is_separator(
            vstd::utf8::encode_utf8(s)[vstd::utf8::encode_utf8(s).len() - k - 1] as int,
        ) == is_separator(s[s.len() - k - 1] as int),
{
    let b = vstd::utf8::encode_utf8(s);
    let stem = s.take(s.len() - k);
    let bs = vstd::utf8::encode_utf8(stem);
    lemma_ascii_tail_bytes(s, k);
    if stem.len() > 0 {
        lemma_last_byte(stem);
        assert(stem.last() == s[s.len() - k - 1]);
        assert(bs == b.take(b.len() - k));
        assert(bs.last() == b[b.len() - k - 1]);
    } else {
        assert(bs =~= Seq::<u8>::empty());
    }
}

/// Bytes and characters agree: a text passes the filter as the bytes it is
/// written as exactly when it passes as characters.
pub proof fn lemma_extension_bytes_as_text(s: Seq<char>)
    ensures
        has_image_extension(byte_codes(vstd::utf8::encode_utf8(s))) == has_image_extension(
            char_codes(s),
        ),
{
    lemma_tail_agrees(s, 4);
    lemma_tail_agrees(s, 5);
}

/// The dot and the letters of an extension are ASCII, so where the bytes of
/// a text end in them the text does, and the other way round; and what
/// stands before them is a separator in both or in neither.
proof fn lemma_tail_agrees(s: Seq<char>, k: int)
    requires
        k == 4 || k == 5,
    ensures
        k == 4 ==> ends_with_ext3(byte_codes(vstd::utf8::encode_utf8(s))) == ends_with_ext3(
            char_codes(s),
        ),
        k == 5 ==> ends_with_ext4(byte_codes(vstd::utf8::encode_utf8(s))) == ends_with_ext4(
            char_codes(s),
        ),
{
    let b = vstd::utf8::encode_utf8(s);
    let cb = byte_codes(b);
    let cc = char_codes(s);
    let n = s.len() as int;
    let m = b.len() as int;
    let by_bytes = if k == 4 {
        ends_with_ext3(cb)
    } else {
        ends_with_ext4(cb)
    };
    let by_chars = if k == 4 {
        ends_with_ext3(cc)
    } else {
        ends_with_ext4(cc)
    };
    if by_bytes {
        assert(ascii_byte_tail(b, k)) by {
            assert forall|i: int| m - k <= i < m implies #[trigger] b[i] < 0x80 by {
                assert(cb[i] == b[i] as int);
            }
        }
        lemma_ascii_bytes_tail(s, k);
    }
    if by_chars {
        assert(ascii_tail(s, k)) by {
            assert forall|i: int| n - k <= i < n implies ((#[trigger] s[i]) as int) < 0x80 by {
                assert(cc[i] == s[i] as int);
            }
        }
    }
    if by_bytes || by_chars {
        lemma_ascii_tail_bytes(s, k);
        lemma_stem_matches(s, k);
        assert(b[m - 1] as int == s[n - 1] as int);
        assert(b[m - 2] as int == s[n - 2] as int);
        assert(b[m - 3] as int == s[n - 3] as int);
        assert(b[m - 4] as int == s[n - 4] as int);
        assert(cb[m - 1] == cc[n - 1]);
        assert(cb[m - 2] == cc[n - 2]);
        assert(cb[m - 3] == cc[n - 3]);
        assert(cb[m - 4] == cc[n - 4]);
        if k == 5 {
            assert(b[m - 5] as int == s[n - 5] as int);
            assert(cb[m - 5] == cc[n - 5]);
        }
        if n > k {
            assert(cb[m - k - 1] == b[m - k - 1] as int);
            assert(cc[n - k - 1] == s[n - k - 1] as int);
        }
    }
}

} // verus!
