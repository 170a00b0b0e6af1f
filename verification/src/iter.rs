//! The manifest line normalizer: grouped manifests read as plain ones.
//!
//! A manifest is either plain, a hash and a path on every line, or grouped,
//! a hash on a line of its own and then the paths that share it, each
//! after two spaces. The normalizer turns both into plain lines.

use vstd::prelude::*;
use trimothy::TrimMut;
use crate::chk::HEX_LEN;
use crate::ext::code;
use crate::hex::{is_hex_digit, is_hex_text};
use crate::text::{chars_of, is_whitespace, trim_end};

verus! {

/// `trimothy::TrimMut::trim_end_mut` on a `String`: the white space at the
/// end is cut off, and nothing else is touched.
#[verifier::external_body]
fn trim_end_mut(line: &mut String)
    ensures
        final(line)@ == trim_end(old(line)@),
{
    line.trim_end_mut();
}

/// Whether a line is the header of a group: 64 hexadecimal digits and
/// nothing else.
pub open spec fn is_header(line: Seq<char>) -> bool {
    line.len() == HEX_LEN && is_hex_text(line)
}

/// Whether a line is a member of a group: whether it begins with two
/// spaces.
pub open spec fn is_member(line: Seq<char>) -> bool {
    line.len() >= 2 && line[0] == ' ' && line[1] == ' '
}

/// What one line does: the group that is open after it, and the line that
/// comes out, if one does.
///
/// The line is read without the white space at its end. An empty line
/// changes nothing. A header opens its group. A member of an open group
/// comes out with the group's hash before it. Any other line closes the
/// group and comes out as it is.
pub open spec fn step(group: Option<Seq<char>>, raw: Seq<char>) -> (
    Option<Seq<char>>,
    Option<Seq<char>>,
) {
    let line = trim_end(raw);
    if line.len() == 0 {
        (group, None)
    } else if is_header(line) {
        (Some(line), None)
    } else if is_member(line) && group is Some {
        (group, Some(group.unwrap() + line))
    } else {
        (None, Some(line))
    }
}

/// The lines that come out of `lines`, read one after the other with
/// `group` open at the start.
pub open spec fn normalized_lines(group: Option<Seq<char>>, lines: Seq<Seq<char>>) -> Seq<
    Seq<char>,
>
    decreases lines.len(),
{
    if lines.len() == 0 {
        Seq::empty()
    } else {
        let (next, out) = step(group, lines[0]);
        let rest = normalized_lines(next, lines.drop_first());
        match out {
            Some(line) => seq![line] + rest,
            None => rest,
        }
    }
}

/// The group that is open after `lines` were read with `group` open at the
/// start.
pub open spec fn group_after(group: Option<Seq<char>>, lines: Seq<Seq<char>>) -> Option<
    Seq<char>,
>
    decreases lines.len(),
{
    if lines.len() == 0 {
        group
    } else {
        group_after(step(group, lines[0]).0, lines.drop_first())
    }
}

/// How many of `lines` are read until one comes out; all of them if none
/// does.
pub open spec fn lines_taken(group: Option<Seq<char>>, lines: Seq<Seq<char>>) -> nat
    decreases lines.len(),
{
    if lines.len() == 0 {
        0
    } else if step(group, lines[0]).1 is Some {
        1
    } else {
        1 + lines_taken(step(group, lines[0]).0, lines.drop_first())
    }
}

/// The views of a run of strings.
pub open spec fn texts(lines: Seq<String>) -> Seq<Seq<char>> {
    Seq::new(lines.len(), |i: int| lines[i]@)
}

/// Reads one line: updates the open group and returns the line that comes
/// out, if one does.
pub fn normalize_line(group: &mut Option<String>, raw: String) -> (out: Option<String>)
    ensures
        (opt_text(*final(group)), opt_text(out)) == step(opt_text(*old(group)), raw@),
{
    let mut line: String = raw;
    trim_end_mut(&mut line);
    let chars: Vec<char> = chars_of(line.as_str());
    let n: usize = chars.len();
    if n == 0 {
        return None;
    }
    if n == HEX_LEN && all_hex(chars.as_slice()) {
        *group = Some(line);
        return None;
    }
    if n >= 2 && chars[0] == ' ' && chars[1] == ' ' {
        match group {
            Some(hash) => {
                let mut full: String = hash.clone();
                full.append(line.as_str());
                return Some(full);
            },
            None => {},
        }
    }
    *group = None;
    Some(line)
}

/// The text of a string that may be missing.
pub open spec fn opt_text(s: Option<String>) -> Option<Seq<char>> {
    match s {
        Some(t) => Some(t@),
        None => None,
    }
}

/// Tests a text for hexadecimal digits only.
pub fn all_hex(s: &[char]) -> (r: bool)
    ensures
        r == is_hex_text(s@),
{
    let mut i: usize = 0;
    while i < s.len()
        invariant
            i <= s.len(),
            forall|j: int| 0 <= j < i ==> is_hex_digit(#[trigger] s@[j]),
        decreases s.len() - i,
    {
        let c: u32 = code(s[i]);
        let ok: bool = (0x30 <= c && c <= 0x39) || (0x41 <= c && c <= 0x46) || (0x61 <= c && c
            <= 0x66);
        if !ok {
            assert(!is_hex_digit(s@[i as int]));
            return false;
        }
        i += 1;
    }
    true
}

/// A manifest being read: the lines that are left, and the group that is
/// open.
pub struct ManifestLines {
    lines: Vec<String>,
    pos: usize,
    buf: Option<String>,
}

impl ManifestLines {
    /// The lines that are still to be read.
    pub closed spec fn rest(&self) -> Seq<Seq<char>> {
        if self.pos <= self.lines@.len() {
            texts(self.lines@).skip(self.pos as int)
        } else {
            Seq::empty()
        }
    }

    /// The hash of the group that is open, if one is.
    pub closed spec fn group(&self) -> Option<Seq<char>> {
        opt_text(self.buf)
    }

    /// A reader for the given lines, with no group open.
    pub fn new(lines: Vec<String>) -> (r: Self)
        ensures
            r.rest() == texts(lines@),
            r.group() is None,
    {
        let r = ManifestLines { lines, pos: 0, buf: None };
        assert(texts(r.lines@).skip(0) =~= texts(lines@));
        r
    }

    /// The next plain line, or `None` when the lines have run out.
    ///
    /// Lines are read until one comes out: empty lines are passed over,
    /// headers open their group.
    pub fn next(&mut self) -> (out: Option<String>)
        ensures
            ({
                let taken = lines_taken(old(self).group(), old(self).rest());
                let read = old(self).rest().take(taken as int);
                let all = normalized_lines(old(self).group(), old(self).rest());
                &&& taken <= old(self).rest().len()
                &&& final(self).rest() == old(self).rest().skip(taken as int)
                &&& final(self).group() == group_after(old(self).group(), read)
                &&& match out {
                    Some(line) => all.len() > 0 && line@ == all[0] && normalized_lines(
                        final(self).group(),
                        final(self).rest(),
                    ) == all.drop_first(),
                    None => all.len() == 0 && final(self).rest().len() == 0,
                }
            }),
    {
        let ghost start = self.rest();
        let ghost open = self.group();
        let ghost done: nat = 0;
        loop
            invariant
                self.lines@ == old(self).lines@,
                self.rest() == start.skip(done as int),
                done <= start.len(),
                lines_taken(open, start) == done + lines_taken(self.group(), self.rest()),
                normalized_lines(open, start) == normalized_lines(self.group(), self.rest()),
                group_after(open, start.take(done as int)) == self.group(),
                start == old(self).rest(),
                open == old(self).group(),
            decreases self.lines@.len() - self.pos,
        {
            if self.pos >= self.lines.len() {
                proof {
                    assert(self.rest().len() == 0);
                    assert(start.take(done as int) =~= start.take(
                        lines_taken(open, start) as int,
                    ));
                }
                return None;
            }
            let raw: String = self.lines[self.pos].clone();
            let ghost before = self.rest();
            let ghost group = self.group();
            proof {
                assert(before[0] == raw@);
                assert(before.drop_first() =~= texts(self.lines@).skip(self.pos + 1));
                assert(start.skip(done as int).drop_first() =~= start.skip(done as int + 1));
                lemma_group_after_push(open, start, done as int);
            }
            self.pos = self.pos + 1;
            let out: Option<String> = normalize_line(&mut self.buf, raw);
            proof {
                done = done + 1;
            }
            if out.is_some() {
                return out;
            }
        }
    }

    /// All the plain lines that are left, in order.
    pub fn collect(&mut self) -> (all: Vec<String>)
        ensures
            texts(all@) == normalized_lines(old(self).group(), old(self).rest()),
            final(self).rest().len() == 0,
    {
        let mut all: Vec<String> = Vec::new();
        let ghost want = normalized_lines(self.group(), self.rest());
        assert(texts(all@) + want =~= want);
        loop
            invariant
                texts(all@) + normalized_lines(self.group(), self.rest()) == want,
                want == normalized_lines(old(self).group(), old(self).rest()),
            ensures
                texts(all@) == want,
                self.rest().len() == 0,
            decreases self.rest().len(),
        {
            let ghost left = normalized_lines(self.group(), self.rest());
            let ghost n = self.rest().len();
            let ghost taken = lines_taken(self.group(), self.rest());
            match self.next() {
                Some(line) => {
                    proof {
                        lemma_lines_taken_positive(old(self).group(), old(self).rest());
                        assert(texts(all@.push(line)) =~= texts(all@).push(line@));
                        assert(texts(all@).push(line@) + left.drop_first() =~= texts(all@)
                            + left);
                    }
                    all.push(line);
                },
                None => {
                    assert(texts(all@) + left =~= texts(all@));
                    break ;
                },
            }
        }
        all
    }
}

/// Reading one line more moves the open group one step on.
pub proof fn lemma_group_after_push(group: Option<Seq<char>>, lines: Seq<Seq<char>>, k: int)
    requires
        0 <= k < lines.len(),
    ensures
        group_after(group, lines.take(k + 1)) == step(
            group_after(group, lines.take(k)),
            lines[k],
        ).0,
    decreases k,
{
    let a = lines.take(k + 1);
    if k == 0 {
        reveal_with_fuel(group_after, 3);
        assert(a.drop_first() =~= Seq::<Seq<char>>::empty());
        assert(lines.take(0) =~= Seq::<Seq<char>>::empty());
        assert(a[0] == lines[0]);
    } else {
        let g = step(group, lines[0]).0;
        let rest = lines.drop_first();
        lemma_group_after_push(g, rest, k - 1);
        assert(a.drop_first() =~= rest.take(k));
        assert(lines.take(k).drop_first() =~= rest.take(k - 1));
        assert(rest[k - 1] == lines[k]);
        assert(a[0] == lines[0]);
        assert(lines.take(k)[0] == lines[0]);
    }
}

/// Where a line comes out, at least one line was read.
pub proof fn lemma_lines_taken_positive(group: Option<Seq<char>>, lines: Seq<Seq<char>>)
    ensures
        lines_taken(group, lines) <= lines.len(),
        normalized_lines(group, lines).len() > 0 ==> lines_taken(group, lines) >= 1,
    decreases lines.len(),
{
    if lines.len() > 0 {
        lemma_lines_taken_positive(step(group, lines[0]).0, lines.drop_first());
    }
}

/// Reading two runs of lines one after the other is reading the first,
/// then the second with the group open that the first left open.
pub proof fn lemma_normalized_concat(
    group: Option<Seq<char>>,
    a: Seq<Seq<char>>,
    b: Seq<Seq<char>>,
)
    ensures
        normalized_lines(group, a + b) == normalized_lines(group, a) + normalized_lines(
            group_after(group, a),
            b,
        ),
        group_after(group, a + b) == group_after(group_after(group, a), b),
    decreases a.len(),
{
    if a.len() == 0 {
        assert(a + b =~= b);
        assert(normalized_lines(group, a) + normalized_lines(group, b) =~= normalized_lines(
            group,
            b,
        ));
    } else {
        let next = step(group, a[0]).0;
        assert((a + b)[0] == a[0]);
        assert((a + b).drop_first() =~= a.drop_first() + b);
        lemma_normalized_concat(next, a.drop_first(), b);
        let tail = normalized_lines(next, a.drop_first());
        let last = normalized_lines(group_after(group, a), b);
        match step(group, a[0]).1 {
            Some(line) => {
                assert(seq![line] + (tail + last) =~= (seq![line] + tail) + last);
            },
            None => {},
        }
    }
}

/// Whether a path can stand on a manifest line as it is: it is not empty,
/// and does not end in white space.
pub open spec fn is_line_path(path: Seq<char>) -> bool {
    path.len() > 0 && !is_whitespace(path.last())
}

/// The member line of a path: two spaces, the path.
pub open spec fn member_line(path: Seq<char>) -> Seq<char> {
    seq![' ', ' '] + path
}

/// The plain line of a hash and a path: the hash, two spaces, the path.
pub open spec fn plain_line(hash: Seq<char>, path: Seq<char>) -> Seq<char> {
    hash + member_line(path)
}

/// One group of a manifest: a hash, and the paths that share it.
pub struct Group {
    /// The hash, 64 hexadecimal digits.
    pub hash: Seq<char>,
    /// The paths.
    pub paths: Seq<Seq<char>>,
}

impl Group {
    /// Whether the group can be written down and read back: its hash is a
    /// header, and each of its paths can stand on a line.
    pub open spec fn wf(self) -> bool {
        &&& is_header(self.hash)
        &&& forall|i: int| 0 <= i < self.paths.len() ==> is_line_path(#[trigger] self.paths[i])
    }

    /// The member lines of the group.
    pub open spec fn member_lines(self) -> Seq<Seq<char>> {
        Seq::new(self.paths.len(), |i: int| member_line(self.paths[i]))
    }

    /// The group in a grouped manifest: the header, then a line for each
    /// member.
    pub open spec fn grouped_lines(self) -> Seq<Seq<char>> {
        seq![self.hash] + self.member_lines()
    }

    /// The group in a plain manifest: a line for each member, the hash
    /// before the path.
    pub open spec fn plain_lines(self) -> Seq<Seq<char>> {
        Seq::new(self.paths.len(), |i: int| plain_line(self.hash, self.paths[i]))
    }
}

/// The grouped manifest of some groups.
pub open spec fn grouped_manifest(groups: Seq<Group>) -> Seq<Seq<char>>
    decreases groups.len(),
{
    if groups.len() == 0 {
        Seq::empty()
    } else {
        groups[0].grouped_lines() + grouped_manifest(groups.drop_first())
    }
}

/// The plain manifest of some groups.
pub open spec fn plain_manifest(groups: Seq<Group>) -> Seq<Seq<char>>
    decreases groups.len(),
{
    if groups.len() == 0 {
        Seq::empty()
    } else {
        groups[0].plain_lines() + plain_manifest(groups.drop_first())
    }
}

/// A line that does not end in white space is read as it is.
pub proof fn lemma_trim_end_fixed(line: Seq<char>)
    requires
        line.len() == 0 || !is_whitespace(line.last()),
    ensures
        trim_end(line) == line,
{
}

/// The members of an open group come out as plain lines, and leave the
/// group open.
pub proof fn lemma_members(hash: Seq<char>, paths: Seq<Seq<char>>)
    requires
        (Group { hash, paths }).wf(),
    ensures
        normalized_lines(Some(hash), (Group { hash, paths }).member_lines()) == (Group {
            hash,
            paths,
        }).plain_lines(),
        group_after(Some(hash), (Group { hash, paths }).member_lines()) == Some(hash),
    decreases paths.len(),
{
    let g = Group { hash, paths };
    let lines = g.member_lines();
    if paths.len() == 0 {
        assert(g.plain_lines() =~= Seq::<Seq<char>>::empty());
    } else {
        let rest = Group { hash, paths: paths.drop_first() };
        assert forall|i: int| 0 <= i < rest.paths.len() implies is_line_path(
            #[trigger] rest.paths[i],
        ) by {
            assert(rest.paths[i] == paths[i + 1]);
        }
        lemma_members(hash, paths.drop_first());
        let line = lines[0];
        assert(is_line_path(paths[0]));
        assert(line == member_line(paths[0]));
        assert(line.last() == paths[0].last());
        lemma_trim_end_fixed(line);
        assert(line[0] == ' ' && line[1] == ' ');
        assert(!is_hex_digit(line[0]));
        assert(!is_header(line));
        assert(step(Some(hash), line) == (Some(hash), Some(plain_line(hash, paths[0]))));
        assert(lines.drop_first() =~= rest.member_lines());
        assert(seq![plain_line(hash, paths[0])] + rest.plain_lines() =~= g.plain_lines());
    }
}

/// A plain line is neither empty, nor a header, nor a member: it comes out
/// as it is, whatever group is open, and closes the group.
pub proof fn lemma_plain_line_step(group: Option<Seq<char>>, hash: Seq<char>, path: Seq<char>)
    requires
        is_header(hash),
        is_line_path(path),
    ensures
        step(group, plain_line(hash, path)) == (
            None::<Seq<char>>,
            Some(plain_line(hash, path)),
        ),
{
    let line = plain_line(hash, path);
    assert(line.last() == path.last());
    lemma_trim_end_fixed(line);
    assert(line.len() > HEX_LEN);
    assert(line[0] == hash[0]);
    assert(is_hex_digit(hash[0]));
}

/// The plain lines of a group come out as they are.
pub proof fn lemma_plain_lines(group: Option<Seq<char>>, hash: Seq<char>, paths: Seq<Seq<char>>)
    requires
        (Group { hash, paths }).wf(),
    ensures
        normalized_lines(group, (Group { hash, paths }).plain_lines()) == (Group {
            hash,
            paths,
        }).plain_lines(),
        group_after(group, (Group { hash, paths }).plain_lines()) == (if paths.len() == 0 {
            group
        } else {
            None
        }),
    decreases paths.len(),
{
    let g = Group { hash, paths };
    let lines = g.plain_lines();
    if paths.len() > 0 {
        let rest = Group { hash, paths: paths.drop_first() };
        assert forall|i: int| 0 <= i < rest.paths.len() implies is_line_path(
            #[trigger] rest.paths[i],
        ) by {
            assert(rest.paths[i] == paths[i + 1]);
        }
        lemma_plain_lines(None, hash, paths.drop_first());
        assert(is_line_path(paths[0]));
        lemma_plain_line_step(group, hash, paths[0]);
        assert(lines[0] == plain_line(hash, paths[0]));
        assert(lines.drop_first() =~= rest.plain_lines());
        assert(seq![lines[0]] + rest.plain_lines() =~= lines);
    } else {
        assert(lines =~= Seq::<Seq<char>>::empty());
    }
}

/// A grouped manifest reads as the plain manifest of the same groups: the
/// same lines in the same order, whatever group was open before.
pub proof fn lemma_grouped_reads_as_plain(group: Option<Seq<char>>, groups: Seq<Group>)
    requires
        forall|i: int| 0 <= i < groups.len() ==> (#[trigger] groups[i]).wf(),
    ensures
        normalized_lines(group, grouped_manifest(groups)) == plain_manifest(groups),
        normalized_lines(group, grouped_manifest(groups)).to_multiset() == plain_manifest(
            groups,
        ).to_multiset(),
    decreases groups.len(),
{
    if groups.len() > 0 {
        let g = groups[0];
        let rest = groups.drop_first();
        assert forall|i: int| 0 <= i < rest.len() implies (#[trigger] rest[i]).wf() by {
            assert(rest[i] == groups[i + 1]);
        }
        assert(g.wf());
        let head = seq![g.hash];
        let members = g.member_lines();
        let tail = grouped_manifest(rest);
        assert(grouped_manifest(groups) == (head + members) + tail);
        lemma_normalized_concat(group, head + members, tail);
        lemma_normalized_concat(group, head, members);
        assert(is_hex_digit(g.hash.last()));
        lemma_trim_end_fixed(g.hash);
        assert(step(group, g.hash) == (Some(g.hash), None::<Seq<char>>));
        reveal_with_fuel(normalized_lines, 3);
        reveal_with_fuel(group_after, 3);
        assert(head.drop_first() =~= Seq::<Seq<char>>::empty());
        assert(normalized_lines(group, head) =~= Seq::<Seq<char>>::empty());
        assert(group_after(group, head) == Some(g.hash));
        lemma_members(g.hash, g.paths);
        assert(Group { hash: g.hash, paths: g.paths } == g);
        let after = group_after(group, head + members);
        lemma_grouped_reads_as_plain(after, rest);
        assert(normalized_lines(group, head + members) =~= g.plain_lines());
    }
}

/// A plain manifest reads as itself, whatever group was open before.
pub proof fn lemma_plain_reads_as_itself(group: Option<Seq<char>>, groups: Seq<Group>)
    requires
        forall|i: int| 0 <= i < groups.len() ==> (#[trigger] groups[i]).wf(),
    ensures
        normalized_lines(group, plain_manifest(groups)) == plain_manifest(groups),
    decreases groups.len(),
{
    if groups.len() > 0 {
        let g = groups[0];
        let rest = groups.drop_first();
        assert forall|i: int| 0 <= i < rest.len() implies (#[trigger] rest[i]).wf() by {
            assert(rest[i] == groups[i + 1]);
        }
        assert(g.wf());
        assert(Group { hash: g.hash, paths: g.paths } == g);
        lemma_plain_lines(group, g.hash, g.paths);
        lemma_normalized_concat(group, g.plain_lines(), plain_manifest(rest));
        lemma_plain_reads_as_itself(group_after(group, g.plain_lines()), rest);
    }
}

/// The grouped and the plain manifest of the same groups read alike: the
/// same lines come out of both, in the same order, each as often.
pub proof fn lemma_grouped_and_plain_agree(groups: Seq<Group>)
    requires
        forall|i: int| 0 <= i < groups.len() ==> (#[trigger] groups[i]).wf(),
    ensures
        normalized_lines(None, grouped_manifest(groups)) == normalized_lines(
            None,
            plain_manifest(groups),
        ),
        normalized_lines(None, grouped_manifest(groups)).to_multiset() == normalized_lines(
            None,
            plain_manifest(groups),
        ).to_multiset(),
        normalized_lines(None, plain_manifest(groups)) == plain_manifest(groups),
{
    lemma_grouped_reads_as_plain(None, groups);
    lemma_plain_reads_as_itself(None, groups);
}

/// White space at the end of a line does not count: a line reads as the
/// line without it.
pub proof fn lemma_step_ignores_trailing_space(group: Option<Seq<char>>, raw: Seq<char>)
    ensures
        step(group, raw) == step(group, trim_end(raw)),
{
    lemma_trim_end_twice(raw);
}

/// Cutting white space off the end a second time cuts nothing.
pub proof fn lemma_trim_end_twice(s: Seq<char>)
    ensures
        trim_end(trim_end(s)) == trim_end(s),
    decreases s.len(),
{
    if s.len() > 0 && is_whitespace(s.last()) {
        lemma_trim_end_twice(s.drop_last());
    }
}

} // verus!
