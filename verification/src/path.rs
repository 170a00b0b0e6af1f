//! The path normalizer: the one textual form a path has in a manifest.
//!
//! Nothing here touches the file system; a path is text.

use vstd::prelude::*;
use crate::ext::{char_codes, check_extension_chars, has_image_extension};
use crate::text::{chars_of, control, is_control, string_of, trim, trimmed};

verus! {

/// Whether a character may not stand in a path: a control character or a
/// backslash.
pub open spec fn is_forbidden(c: char) -> bool {
    is_control(c) || c == '\\'
}

/// Whether a path holds a character that may not stand in one.
pub open spec fn has_forbidden(s: Seq<char>) -> bool {
    exists|i: int| 0 <= i < s.len() && is_forbidden(#[trigger] s[i])
}

/// Whether a path says where it starts: at the root (`/`), here (`./`), or
/// one level up (`../`).
pub open spec fn is_anchored(s: Seq<char>) -> bool {
    ||| s.len() >= 1 && s[0] == '/'
    ||| s.len() >= 2 && s[0] == '.' && s[1] == '/'
    ||| s.len() >= 3 && s[0] == '.' && s[1] == '.' && s[2] == '/'
}

/// The path, made to start here (`./`) unless it says where it starts.
pub open spec fn anchored(s: Seq<char>) -> Seq<char> {
    if is_anchored(s) {
        s
    } else {
        seq!['.', '/'] + s
    }
}

/// The path with every run of slashes made one slash.
pub open spec fn collapsed(s: Seq<char>) -> Seq<char>
    decreases s.len(),
{
    if s.len() == 0 {
        s
    } else if s.len() >= 2 && s.last() == '/' && s[s.len() - 2] == '/' {
        collapsed(s.drop_last())
    } else {
        collapsed(s.drop_last()).push(s.last())
    }
}

/// Whether `/./` stands at `pos`.
pub open spec fn dot_segment_at(s: Seq<char>, pos: int) -> bool {
    &&& 0 <= pos
    &&& pos + 3 <= s.len()
    &&& s[pos] == '/'
    &&& s[pos + 1] == '.'
    &&& s[pos + 2] == '/'
}

/// The first place at or after `from` where `/./` stands, or the length of
/// the path if there is none.
pub open spec fn first_dot_segment(s: Seq<char>, from: int) -> int
    decreases s.len() - from,
{
    if from < 0 || from + 3 > s.len() {
        s.len() as int
    } else if dot_segment_at(s, from) {
        from
    } else {
        first_dot_segment(s, from + 1)
    }
}

/// The path without the two characters at `pos`.
pub open spec fn cut2(s: Seq<char>, pos: int) -> Seq<char> {
    s.subrange(0, pos) + s.subrange(pos + 2, s.len() as int)
}

/// The path with every `/./` made `/`: the first one is cut, then the first
/// one of what is left, until none is left.
pub open spec fn without_dot_segments(s: Seq<char>) -> Seq<char>
    decreases s.len(),
{
    let pos = first_dot_segment(s, 0);
    if 0 <= pos && pos + 3 <= s.len() {
        without_dot_segments(cut2(s, pos))
    } else {
        s
    }
}

/// Whether a path climbs above the root: whether it begins with `/../`.
pub open spec fn above_root(s: Seq<char>) -> bool {
    s.len() >= 4 && s[0] == '/' && s[1] == '.' && s[2] == '.' && s[3] == '/'
}

/// The name for standard input.
pub open spec fn stdin_path() -> Seq<char> {
    seq!['-']
}

/// The canonical form of a path, or `None` where it has none.
///
/// White space around it is dropped. Nothing, or `-`, stands for standard
/// input and becomes `-`. Anything else must be named like an image and hold
/// neither control characters nor backslashes; it is anchored, its runs of
/// slashes are collapsed, its `/./` are cut, and it must not climb above the
/// root.
pub open spec fn normalized(path: Seq<char>) -> Option<Seq<char>> {
    let p = trim(path);
    if p.len() == 0 || p == stdin_path() {
        Some(stdin_path())
    } else if !has_image_extension(char_codes(p)) || has_forbidden(p) {
        None
    } else {
        let q = without_dot_segments(collapsed(anchored(p)));
        if above_root(q) {
            None
        } else {
            Some(q)
        }
    }
}

/// Whether a path is in canonical form: whether it is what normalizing
/// makes of it.
pub open spec fn is_canonical(path: Seq<char>) -> bool {
    normalized(path) == Some(path)
}

/// A collapsed path ends as the path does.
pub proof fn lemma_collapsed_last(s: Seq<char>)
    requires
        s.len() > 0,
    ensures
        collapsed(s).len() > 0,
        collapsed(s).last() == s.last(),
    decreases s.len(),
{
    if s.len() >= 2 && s.last() == '/' && s[s.len() - 2] == '/' {
        lemma_collapsed_last(s.drop_last());
    }
}

/// A collapsed path is no longer than the path.
pub proof fn lemma_collapsed_len(s: Seq<char>)
    ensures
        collapsed(s).len() <= s.len(),
    decreases s.len(),
{
    if s.len() > 0 {
        lemma_collapsed_len(s.drop_last());
    }
}

/// `first_dot_segment` finds the first `/./` and overlooks none.
pub proof fn lemma_first_dot_segment(s: Seq<char>, from: int)
    requires
        0 <= from,
    ensures
        from <= first_dot_segment(s, from) || first_dot_segment(s, from) == s.len(),
        first_dot_segment(s, from) <= s.len(),
        first_dot_segment(s, from) + 3 <= s.len() ==> dot_segment_at(
            s,
            first_dot_segment(s, from),
        ),
        first_dot_segment(s, from) + 3 > s.len() ==> first_dot_segment(s, from) == s.len(),
        forall|k: int|
            from <= k < first_dot_segment(s, from) ==> !dot_segment_at(s, k),
    decreases s.len() - from,
{
    if from + 3 > s.len() {
    } else if dot_segment_at(s, from) {
    } else {
        lemma_first_dot_segment(s, from + 1);
    }
}

/// Finds the first `/./` of a path.
fn find_dot_segment(s: &Vec<char>) -> (r: Option<usize>)
    ensures
        match r {
            Some(pos) => pos as int == first_dot_segment(s@, 0) && pos + 3 <= s@.len(),
            None => first_dot_segment(s@, 0) == s@.len(),
        },
{
    let n: usize = s.len();
    let mut i: usize = 0;
    proof {
        lemma_first_dot_segment(s@, 0);
    }
    while n >= 3 && i <= n - 3
        invariant
            n == s@.len(),
            i <= n,
            first_dot_segment(s@, 0) == first_dot_segment(s@, i as int),
        decreases n - i,
    {
        if s[i] == '/' && s[i + 1] == '.' && s[i + 2] == '/' {
            assert(dot_segment_at(s@, i as int));
            return Some(i);
        }
        assert(!dot_segment_at(s@, i as int));
        i += 1;
    }
    None
}

/// Tests a path for saying where it starts.
fn anchored_already(p: &Vec<char>) -> (r: bool)
    ensures
        r == is_anchored(p@),
{
    let n: usize = p.len();
    (n >= 1 && p[0] == '/') || (n >= 2 && p[0] == '.' && p[1] == '/') || (n >= 3 && p[0] == '.'
        && p[1] == '.' && p[2] == '/')
}

/// Brings a path into its canonical form.
///
/// Returns `None` where the path has none: where it is not named like an
/// image, holds a control character or a backslash, or climbs above the
/// root.
pub fn normalize(path: &str) -> (r: Option<String>)
    ensures
        match r {
            Some(s) => normalized(path@) == Some(s@) && is_canonical(s@),
            None => normalized(path@) is None,
        },
{
    let all: Vec<char> = chars_of(path);
    normalize_chars(all.as_slice())
}

/// Brings a path, given as characters, into its canonical form.
pub fn normalize_chars(path: &[char]) -> (r: Option<String>)
    ensures
        match r {
            Some(s) => normalized(path@) == Some(s@) && is_canonical(s@),
            None => normalized(path@) is None,
        },
{
    proof {
        if normalized(path@) is Some {
            lemma_normalize_idempotent(path@);
        }
    }
    let p: Vec<char> = trimmed(path);
    let n: usize = p.len();
    if n == 0 || (n == 1 && p[0] == '-') {
        proof {
            if n == 1 {
                assert(p@ =~= stdin_path());
            }
        }
        let mut dash: Vec<char> = Vec::new();
        dash.push('-');
        assert(dash@ =~= stdin_path());
        return Some(string_of(dash.as_slice()));
    }
    assert(p@ != stdin_path()) by {
        if p@ == stdin_path() {
            assert(stdin_path().len() == 1);
            assert(stdin_path()[0] == '-');
        }
    }
    if !check_extension_chars(p.as_slice()) {
        return None;
    }
    let mut out: Vec<char> = Vec::new();
    let ghost lead: int;
    if !anchored_already(&p) {
        out.push('.');
        out.push('/');
        proof {
            lead = 2;
            reveal_with_fuel(collapsed, 3);
            assert(out@ =~= seq!['.', '/']);
            assert(seq!['.', '/'].drop_last() =~= seq!['.']);
            assert(seq!['.'].drop_last() =~= Seq::<char>::empty());
            assert(collapsed(seq!['.', '/']) =~= seq!['.', '/']);
        }
    } else {
        proof {
            lead = 0;
        }
    }
    let ghost full = anchored(p@);
    assert(full.take(lead) =~= out@);
    assert(full.len() == lead + n);
    let mut i: usize = 0;
    while i < n
        invariant
            i <= n,
            n == p@.len(),
            p@ == trim(path@),
            n > 0,
            p@ != stdin_path(),
            lead == 0 || lead == 2,
            full.len() == lead + n,
            forall|j: int| 0 <= j < n ==> full[lead + j] == p@[j],
            out@ == collapsed(full.take(lead + i)),
            forall|j: int| 0 <= j < i ==> !is_forbidden(#[trigger] p@[j]),
        decreases n - i,
    {
        let c: char = p[i];
        let ghost before = full.take(lead + i);
        let ghost after = full.take(lead + i + 1);
        proof {
            assert(after.drop_last() =~= before);
            assert(after.last() == c);
            if before.len() > 0 {
                lemma_collapsed_last(before);
                assert(before.last() == after[after.len() - 2]);
            }
        }
        let m: usize = out.len();
        if c == '/' && m > 0 && out[m - 1] == '/' {
            assert(out@ == collapsed(after));
        } else {
            if control(c) || c == '\\' {
                assert(is_forbidden(p@[i as int]));
                assert(has_forbidden(p@));
                return None;
            }
            proof {
                if c == '/' && before.len() > 0 {
                    assert(before.last() != '/');
                }
                lemma_collapsed_len(before);
            }
            out.push(c);
            assert(out@ == collapsed(after));
        }
        i += 1;
    }
    proof {
        assert(full.take(lead + n) =~= full);
        assert(!has_forbidden(p@));
    }
    let ghost start = out@;
    loop
        invariant
            without_dot_segments(out@) == without_dot_segments(start),
        ensures
            out@ == without_dot_segments(start),
        decreases out@.len(),
    {
        match find_dot_segment(&out) {
            Some(pos) => {
                let ghost prev = out@;
                out.remove(pos);
                out.remove(pos);
                assert(out@ =~= cut2(prev, pos as int));
            },
            None => {
                break ;
            },
        }
    }
    let k: usize = out.len();
    if k >= 4 && out[0] == '/' && out[1] == '.' && out[2] == '.' && out[3] == '/' {
        return None;
    }
    Some(string_of(out.as_slice()))
}

/// Whether no character of the path is forbidden.
pub open spec fn is_clean(s: Seq<char>) -> bool {
    forall|i: int| 0 <= i < s.len() ==> !is_forbidden(#[trigger] s[i])
}

/// Whether the path has no two slashes in a row.
pub open spec fn is_collapsed(s: Seq<char>) -> bool {
    forall|i: int| 0 <= i && i + 1 < s.len() ==> !(#[trigger] s[i] == '/' && s[i + 1] == '/')
}

/// Whether the path has no `/./`.
pub open spec fn has_no_dot_segment(s: Seq<char>) -> bool {
    forall|pos: int| !dot_segment_at(s, pos)
}

/// Whether the last `k` characters of the path hold no slash.
pub open spec fn tail_without_slash(s: Seq<char>, k: int) -> bool {
    &&& 0 <= k <= s.len()
    &&& forall|i: int| s.len() - k <= i < s.len() ==> #[trigger] s[i] != '/'
}

/// How many characters at the end of a path its extension takes, with the
/// dot and the character before it: five for three letters, else six.
pub open spec fn extension_span(s: Seq<char>) -> int {
    if crate::ext::ends_with_ext3(char_codes(s)) {
        5
    } else {
        6
    }
}

/// In a path that is named like an image, the characters of the extension,
/// the dot and the one before it hold no slash, and the last is no white
/// space.
pub proof fn lemma_extension_tail(s: Seq<char>)
    requires
        has_image_extension(char_codes(s)),
    ensures
        tail_without_slash(s, extension_span(s)),
        s.len() >= 5,
        !crate::text::is_whitespace(s.last()),
        s != stdin_path(),
{
    let c = char_codes(s);
    let n = s.len() as int;
    assert(c[n - 1] == s[n - 1] as int);
    assert(c[n - 2] == s[n - 2] as int);
    assert(c[n - 3] == s[n - 3] as int);
    assert(c[n - 4] == s[n - 4] as int);
    assert(c[n - 5] == s[n - 5] as int);
    if !crate::ext::ends_with_ext3(c) {
        assert(c[n - 6] == s[n - 6] as int);
    }
}

/// Whether a path is named like an image depends on its end alone.
pub proof fn lemma_extension_by_tail(s: Seq<char>, t: Seq<char>)
    requires
        has_image_extension(char_codes(s)),
        t.len() >= extension_span(s),
        t.subrange(t.len() - extension_span(s), t.len() as int) == s.subrange(
            s.len() - extension_span(s),
            s.len() as int,
        ),
    ensures
        has_image_extension(char_codes(t)),
{
    let k = extension_span(s);
    let n = s.len() as int;
    let m = t.len() as int;
    let a = s.subrange(n - k, n);
    let b = t.subrange(m - k, m);
    let c = char_codes(s);
    let d = char_codes(t);
    assert(a[k - 1] == s[n - 1] && b[k - 1] == t[m - 1]);
    assert(a[k - 2] == s[n - 2] && b[k - 2] == t[m - 2]);
    assert(a[k - 3] == s[n - 3] && b[k - 3] == t[m - 3]);
    assert(a[k - 4] == s[n - 4] && b[k - 4] == t[m - 4]);
    assert(a[k - 5] == s[n - 5] && b[k - 5] == t[m - 5]);
    assert(d[m - 1] == c[n - 1]);
    assert(d[m - 2] == c[n - 2]);
    assert(d[m - 3] == c[n - 3]);
    assert(d[m - 4] == c[n - 4]);
    assert(d[m - 5] == c[n - 5]);
    if k == 6 {
        assert(a[k - 6] == s[n - 6] && b[k - 6] == t[m - 6]);
        assert(d[m - 6] == c[n - 6]);
    }
}

/// Collapsing brings in no character that was not there.
pub proof fn lemma_collapsed_clean(s: Seq<char>)
    requires
        is_clean(s),
    ensures
        is_clean(collapsed(s)),
    decreases s.len(),
{
    if s.len() > 0 {
        let h = s.drop_last();
        assert forall|i: int| 0 <= i < h.len() implies !is_forbidden(#[trigger] h[i]) by {
            assert(h[i] == s[i]);
        }
        lemma_collapsed_clean(h);
        assert(!is_forbidden(s[s.len() - 1]));
    }
}

/// A collapsed path has no two slashes in a row.
pub proof fn lemma_collapsed_is_collapsed(s: Seq<char>)
    ensures
        is_collapsed(collapsed(s)),
    decreases s.len(),
{
    if s.len() > 0 {
        let h = s.drop_last();
        lemma_collapsed_is_collapsed(h);
        if h.len() > 0 {
            lemma_collapsed_last(h);
            assert(h.last() == s[s.len() - 2]);
        }
    }
}

/// A path without two slashes in a row is its own collapsing.
pub proof fn lemma_collapsed_fixed(s: Seq<char>)
    requires
        is_collapsed(s),
    ensures
        collapsed(s) == s,
    decreases s.len(),
{
    if s.len() > 0 {
        let h = s.drop_last();
        assert forall|i: int| 0 <= i && i + 1 < h.len() implies !(#[trigger] h[i] == '/' && h[i
            + 1] == '/') by {
            assert(h[i] == s[i] && h[i + 1] == s[i + 1]);
        }
        lemma_collapsed_fixed(h);
        if s.len() >= 2 {
            assert(!(s[s.len() - 2] == '/' && s[s.len() - 2 + 1] == '/'));
        }
        assert(h.push(s.last()) =~= s);
    }
}

/// Collapsing works from left to right: what it makes of the first `k`
/// characters is how what it makes of the whole begins.
pub proof fn lemma_collapsed_prefix(s: Seq<char>, k: int)
    requires
        0 <= k <= s.len(),
    ensures
        collapsed(s.take(k)).len() <= collapsed(s).len(),
        collapsed(s).take(collapsed(s.take(k)).len() as int) == collapsed(s.take(k)),
    decreases s.len() - k,
{
    if k == s.len() {
        assert(s.take(k) =~= s);
        assert(collapsed(s).take(collapsed(s).len() as int) =~= collapsed(s));
    } else {
        let h = s.drop_last();
        assert(h.take(k) =~= s.take(k));
        lemma_collapsed_prefix(h, k);
        let a = collapsed(s.take(k));
        assert(collapsed(h).take(a.len() as int) == a);
        if s.len() >= 2 && s.last() == '/' && s[s.len() - 2] == '/' {
        } else {
            assert(collapsed(h).push(s.last()).take(a.len() as int) =~= collapsed(h).take(
                a.len() as int,
            ));
        }
    }
}

/// Collapsing leaves the end of a path alone as far as it holds no slash.
pub proof fn lemma_collapsed_tail(s: Seq<char>, k: int)
    requires
        tail_without_slash(s, k),
    ensures
        collapsed(s) == collapsed(s.take(s.len() - k)) + s.subrange(
            s.len() - k,
            s.len() as int,
        ),
    decreases k,
{
    let n = s.len() as int;
    if k == 0 {
        assert(s.take(n) =~= s);
        assert(collapsed(s) + s.subrange(n, n) =~= collapsed(s));
    } else {
        let h = s.drop_last();
        assert(s[n - 1] != '/');
        assert forall|i: int| h.len() - (k - 1) <= i < h.len() implies #[trigger] h[i] != '/' by {
            assert(h[i] == s[i]);
        }
        lemma_collapsed_tail(h, k - 1);
        assert(h.take(h.len() - (k - 1)) =~= s.take(n - k));
        assert(h.subrange(h.len() - (k - 1), h.len() as int).push(s.last()) =~= s.subrange(
            n - k,
            n,
        ));
        assert(collapsed(s) =~= collapsed(s.take(n - k)) + s.subrange(n - k, n));
    }
}

/// Collapsing keeps a path anchored.
pub proof fn lemma_collapsed_anchored(s: Seq<char>)
    requires
        is_anchored(s),
    ensures
        is_anchored(collapsed(s)),
{
    let k: int = if s[0] == '/' {
        1
    } else if s[1] == '/' {
        2
    } else {
        3
    };
    let t = s.take(k);
    assert(is_collapsed(t));
    lemma_collapsed_fixed(t);
    lemma_collapsed_prefix(s, k);
    let c = collapsed(s);
    assert(c.take(k) == t);
    assert forall|j: int| 0 <= j < k implies c[j] == s[j] by {
        assert(c.take(k)[j] == c[j]);
        assert(t[j] == s[j]);
    }
}

/// Whether a path is anchored, clean, without two slashes in a row, and
/// named like an image: what cutting `/./` keeps.
pub open spec fn is_tidy(s: Seq<char>) -> bool {
    &&& is_anchored(s)
    &&& is_clean(s)
    &&& is_collapsed(s)
    &&& has_image_extension(char_codes(s))
}

/// Cutting one `/./` keeps a path tidy.
pub proof fn lemma_cut_tidy(s: Seq<char>, pos: int)
    requires
        is_tidy(s),
        dot_segment_at(s, pos),
    ensures
        is_tidy(cut2(s, pos)),
        cut2(s, pos).len() == s.len() - 2,
{
    let t = cut2(s, pos);
    let n = s.len() as int;
    assert(t.len() == n - 2);
    assert forall|i: int| 0 <= i < t.len() implies #[trigger] t[i] == (if i < pos {
        s[i]
    } else {
        s[i + 2]
    }) by {}
    assert(is_clean(t)) by {
        assert forall|i: int| 0 <= i < t.len() implies !is_forbidden(#[trigger] t[i]) by {
            if i < pos {
                assert(!is_forbidden(s[i]));
            } else {
                assert(!is_forbidden(s[i + 2]));
            }
        }
    }
    assert(is_collapsed(t)) by {
        assert forall|i: int| 0 <= i && i + 1 < t.len() implies !(#[trigger] t[i] == '/' && t[i
            + 1] == '/') by {
            if i + 1 < pos {
                assert(!(s[i] == '/' && s[i + 1] == '/'));
            } else if i >= pos {
                assert(!(s[i + 2] == '/' && s[i + 2 + 1] == '/'));
            } else {
                assert(!(s[i] == '/' && s[i + 1] == '/'));
                assert(s[i + 1] == '/');
            }
        }
    }
    assert(is_anchored(t)) by {
        assert(!(s[pos + 2] == '/' && s[pos + 2 + 1] == '/'));
        if s[0] == '/' {
            assert(t[0] == '/');
        } else if s[1] == '/' {
            assert(pos >= 1);
            assert(t[0] == '.');
            assert(t[1] == '/');
        } else {
            assert(pos >= 2);
            assert(t[0] == '.' && t[1] == '.');
            assert(t[2] == '/');
        }
    }
    lemma_extension_tail(s);
    let k = extension_span(s);
    assert(s[pos + 2] == '/');
    assert(pos + 2 < n - k);
    assert(t.subrange(t.len() - k, t.len() as int) =~= s.subrange(n - k, n));
    lemma_extension_by_tail(s, t);
}

/// Cutting every `/./` keeps a path tidy, and leaves no `/./`.
pub proof fn lemma_without_dot_segments_tidy(s: Seq<char>)
    requires
        is_tidy(s),
    ensures
        is_tidy(without_dot_segments(s)),
        has_no_dot_segment(without_dot_segments(s)),
    decreases s.len(),
{
    lemma_first_dot_segment(s, 0);
    let pos = first_dot_segment(s, 0);
    if 0 <= pos && pos + 3 <= s.len() {
        lemma_cut_tidy(s, pos);
        lemma_without_dot_segments_tidy(cut2(s, pos));
    } else {
        assert forall|k: int| !dot_segment_at(s, k) by {
            if 0 <= k && k + 3 <= s.len() {
                assert(k < pos);
            }
        }
    }
}

/// A path without `/./` is left as it is.
pub proof fn lemma_without_dot_segments_fixed(s: Seq<char>)
    requires
        has_no_dot_segment(s),
    ensures
        without_dot_segments(s) == s,
{
    lemma_first_dot_segment(s, 0);
    let pos = first_dot_segment(s, 0);
    if pos + 3 <= s.len() {
        assert(dot_segment_at(s, pos));
    }
}

/// A canonical path is its own canonical form: normalizing twice gives what
/// normalizing once gives.
pub proof fn lemma_normalize_idempotent(path: Seq<char>)
    requires
        normalized(path) is Some,
    ensures
        normalized(normalized(path).unwrap()) == normalized(path),
        is_canonical(normalized(path).unwrap()),
{
    let p = trim(path);
    let q = normalized(path).unwrap();
    if p.len() == 0 || p == stdin_path() {
        assert(q == stdin_path());
        assert(stdin_path().len() == 1 && stdin_path()[0] == '-');
        crate::text::lemma_trim_fixed(q);
    } else {
        let a = anchored(p);
        assert(is_clean(p)) by {
            assert forall|i: int| 0 <= i < p.len() implies !is_forbidden(#[trigger] p[i]) by {
                if is_forbidden(p[i]) {
                    assert(has_forbidden(p));
                }
            }
        }
        lemma_anchored_tidy(p);
        let c = collapsed(a);
        lemma_collapsed_clean(a);
        lemma_collapsed_is_collapsed(a);
        lemma_collapsed_anchored(a);
        lemma_extension_tail(a);
        let k = extension_span(a);
        lemma_collapsed_tail(a, k);
        assert(c.subrange(c.len() - k, c.len() as int) =~= a.subrange(
            a.len() - k,
            a.len() as int,
        ));
        lemma_extension_by_tail(a, c);
        assert(is_tidy(c));
        lemma_without_dot_segments_tidy(c);
        assert(q == without_dot_segments(c));
        assert(is_tidy(q));
        lemma_tidy_fixed(q);
    }
}

/// Anchoring a clean path that is named like an image gives a path that is
/// anchored, clean and named like an image.
pub proof fn lemma_anchored_tidy(p: Seq<char>)
    requires
        is_clean(p),
        has_image_extension(char_codes(p)),
    ensures
        is_anchored(anchored(p)),
        is_clean(anchored(p)),
        has_image_extension(char_codes(anchored(p))),
{
    let a = anchored(p);
    if !is_anchored(p) {
        assert(a[0] == '.' && a[1] == '/');
        assert forall|i: int| 0 <= i < a.len() implies !is_forbidden(#[trigger] a[i]) by {
            if i >= 2 {
                assert(a[i] == p[i - 2]);
                assert(!is_forbidden(p[i - 2]));
            }
        }
        lemma_extension_tail(p);
        let k = extension_span(p);
        assert(a.subrange(a.len() - k, a.len() as int) =~= p.subrange(
            p.len() - k,
            p.len() as int,
        ));
        lemma_extension_by_tail(p, a);
    }
}

/// A tidy path without `/./` that does not climb above the root is
/// canonical.
pub proof fn lemma_tidy_fixed(q: Seq<char>)
    requires
        is_tidy(q),
        has_no_dot_segment(q),
    ensures
        trim(q) == q,
        above_root(q) ==> normalized(q) is None,
        !above_root(q) ==> normalized(q) == Some(q),
{
    lemma_extension_tail(q);
    assert(!crate::text::is_whitespace(q[0]));
    crate::text::lemma_trim_fixed(q);
    assert(!has_forbidden(q));
    assert(anchored(q) == q);
    lemma_collapsed_fixed(q);
    lemma_without_dot_segments_fixed(q);
}

} // verus!
