//! Results grouped by checksum: which paths share which hash.
//!
//! The results are kept as pairs of a hash and a path, in order: by hash,
//! and among equal hashes by path. A pair is kept once, however often it is
//! put in. Listing the pairs gives the grouped manifest: each hash on a
//! line of its own, then its paths, each after two spaces.

use vstd::prelude::*;
use crate::bytes::{
    bytes_lt,
    bytes_order,
    lemma_lt_asymmetric,
    lemma_lt_total,
    lemma_lt_transitive,
    text_bytes,
    Order,
};
use crate::error::PxsumError;
use crate::hex::{hex_encode, hex_lower};
use crate::iter::{
    grouped_manifest,
    is_line_path,
    lemma_grouped_reads_as_plain,
    lemma_normalized_concat,
    member_line,
    normalized_lines,
    plain_line,
    plain_manifest,
    texts,
    Group,
};

verus! {

/// A hash and a path that has it.
pub type Pair = (Seq<u8>, Seq<char>);

/// Whether one pair comes before another: by hash first, then by path,
/// both as byte strings.
pub open spec fn pair_lt(a: Pair, b: Pair) -> bool {
    bytes_lt(a.0, b.0) || (a.0 == b.0 && bytes_lt(text_bytes(a.1), text_bytes(b.1)))
}

/// Whether the pairs stand in order and no two are equal.
pub open spec fn pairs_in_order(s: Seq<Pair>) -> bool {
    forall|i: int, j: int| 0 <= i < j < s.len() ==> pair_lt(#[trigger] s[i], #[trigger] s[j])
}

/// How many pairs from `from` on share the hash of the one at `from`: the
/// size of the group that begins there.
pub open spec fn run_len(s: Seq<Pair>, from: int) -> int
    decreases s.len() - from,
{
    if from < 0 || from >= s.len() {
        0
    } else if from + 1 < s.len() && s[from + 1].0 == s[from].0 {
        1 + run_len(s, from + 1)
    } else {
        1
    }
}

/// The lines of one group: the hash, then each path after two spaces.
pub open spec fn group_lines(s: Seq<Pair>, size: int) -> Seq<Seq<char>> {
    seq![hex_lower(s[0].0)] + Seq::new(size as nat, |i: int| member_line(s[i].1))
}

/// The grouped manifest of the pairs: group after group, in the order of
/// the pairs. With `only_dupes`, groups of one path are left out.
pub open spec fn listing(s: Seq<Pair>, only_dupes: bool) -> Seq<Seq<char>>
    decreases s.len(),
{
    if s.len() == 0 {
        Seq::empty()
    } else {
        let size = run_len(s, 0);
        if size <= 0 || size > s.len() {
            Seq::empty()
        } else if only_dupes && size < 2 {
            listing(s.skip(size), only_dupes)
        } else {
            group_lines(s, size) + listing(s.skip(size), only_dupes)
        }
    }
}

/// One result: a hash and a path.
struct Item {
    hash: [u8; 32],
    path: String,
}

impl Item {
    /// The pair that the item holds.
    spec fn pair(self) -> Pair {
        (self.hash@, self.path@)
    }
}

/// The pairs of a run of items.
spec fn pairs_of(items: Seq<Item>) -> Seq<Pair> {
    Seq::new(items.len(), |i: int| items[i].pair())
}

/// The results of a run, grouped by checksum.
pub struct Grouped {
    items: Vec<Item>,
}

impl Grouped {
    /// The pairs that are kept, in order.
    pub closed spec fn pairs(&self) -> Seq<Pair> {
        pairs_of(self.items@)
    }

    /// The pairs are in order, each only once.
    #[verifier::type_invariant]
    closed spec fn wf(&self) -> bool {
        pairs_in_order(pairs_of(self.items@))
    }

    /// No results yet.
    pub fn new() -> (r: Self)
        ensures
            r.pairs() == Seq::<Pair>::empty(),
    {
        let r = Grouped { items: Vec::new() };
        assert(pairs_of(r.items@) =~= Seq::<Pair>::empty());
        r
    }

    /// How many pairs are kept.
    pub fn len(&self) -> (n: usize)
        ensures
            n == self.pairs().len(),
    {
        self.items.len()
    }

    /// Puts a result in: afterwards the pair is among those kept, once, and
    /// whatever was kept still is, in order.
    pub fn insert(&mut self, hash: [u8; 32], path: String)
        ensures
            final(self).pairs().to_set() == old(self).pairs().to_set().insert((hash@, path@)),
            pairs_in_order(final(self).pairs()),
            old(self).pairs().contains((hash@, path@)) ==> final(self).pairs() == old(
                self,
            ).pairs(),
    {
        let mut taken = Grouped { items: Vec::new() };
        assert(pairs_of(taken.items@) =~= Seq::<Pair>::empty());
        core::mem::swap(self, &mut taken);
        proof {
            use_type_invariant(&taken);
        }
        let Grouped { items } = taken;
        let mut items: Vec<Item> = items;
        let ghost before = pairs_of(items@);
        let ghost new: Pair = (hash@, path@);
        let n: usize = items.len();
        let mut lo: usize = 0;
        let mut hi: usize = n;
        let mut found: bool = false;
        while lo < hi && !found
            invariant
                lo <= hi <= n,
                n == items@.len(),
                before == pairs_of(items@),
                pairs_in_order(before),
                new == (hash@, path@),
                forall|k: int| 0 <= k < lo ==> pair_lt(#[trigger] before[k], new),
                forall|k: int| hi <= k < n ==> pair_lt(new, #[trigger] before[k]),
                found ==> lo < n && before[lo as int] == new,
            decreases (hi - lo) + (if found { 0int } else { 1int }),
        {
            let mid: usize = lo + (hi - lo) / 2;
            let at: &Item = &items[mid];
            assert(before[mid as int] == at.pair());
            match pair_order(&hash, path.as_str(), &at.hash, at.path.as_str()) {
                Order::Before => {
                    proof {
                        assert forall|k: int| mid <= k < n implies pair_lt(
                            new,
                            #[trigger] before[k],
                        ) by {
                            if k > mid {
                                lemma_pair_lt_transitive(new, before[mid as int], before[k]);
                            }
                        }
                    }
                    hi = mid;
                },
                Order::After => {
                    proof {
                        assert forall|k: int| 0 <= k < mid + 1 implies pair_lt(
                            #[trigger] before[k],
                            new,
                        ) by {
                            if k < mid {
                                lemma_pair_lt_transitive(before[k], before[mid as int], new);
                            }
                        }
                    }
                    lo = mid + 1;
                },
                Order::Same => {
                    lo = mid;
                    found = true;
                },
            }
        }
        if found {
            proof {
                assert(before.contains(new));
                assert(before.to_set().insert(new) =~= before.to_set());
            }
            *self = Grouped { items };
            return ;
        }
        proof {
            assert(!before.contains(new)) by {
                if before.contains(new) {
                    let k = choose|k: int| 0 <= k < before.len() && before[k] == new;
                    lemma_pair_lt_irreflexive(new);
                }
            }
        }
        items.insert(lo, Item { hash, path });
        proof {
            let after = pairs_of(items@);
            assert(after =~= before.insert(lo as int, new));
            assert forall|i: int, j: int| 0 <= i < j < after.len() implies pair_lt(
                #[trigger] after[i],
                #[trigger] after[j],
            ) by {
                if j < lo {
                    assert(after[i] == before[i] && after[j] == before[j]);
                } else if j == lo {
                    assert(after[i] == before[i]);
                } else if i < lo {
                    assert(after[i] == before[i] && after[j] == before[j - 1]);
                } else if i == lo {
                    assert(after[j] == before[j - 1]);
                } else {
                    assert(after[i] == before[i - 1] && after[j] == before[j - 1]);
                }
            }
            assert(after.to_set() =~= before.to_set().insert(new)) by {
                assert forall|x: Pair| after.to_set().contains(x) == before.to_set().insert(
                    new,
                ).contains(x) by {
                    if after.contains(x) {
                        let k = choose|k: int| 0 <= k < after.len() && after[k] == x;
                        if k < lo {
                            assert(before[k] == x);
                        } else if k > lo {
                            assert(before[k - 1] == x);
                        }
                    }
                    if before.contains(x) {
                        let k = choose|k: int| 0 <= k < before.len() && before[k] == x;
                        if k < lo {
                            assert(after[k] == x);
                        } else {
                            assert(after[k + 1] == x);
                        }
                    }
                    if x == new {
                        assert(after[lo as int] == x);
                    }
                }
            }
        }
        *self = Grouped { items };
    }

    /// The grouped manifest of the results, line by line: the groups in the
    /// order of their hashes, the paths of a group in their order. With
    /// `only_dupes`, groups of one path are left out.
    pub fn lines(&self, only_dupes: bool) -> (out: Vec<String>)
        ensures
            texts(out@) == listing(self.pairs(), only_dupes),
            pairs_in_order(self.pairs()),
    {
        proof {
            use_type_invariant(self);
        }
        let ghost all = self.pairs();
        let n: usize = self.items.len();
        let mut out: Vec<String> = Vec::new();
        let mut i: usize = 0;
        assert(all.skip(0) =~= all);
        assert(texts(out@) + listing(all, only_dupes) =~= listing(all, only_dupes));
        while i < n
            invariant
                i <= n,
                n == self.items@.len(),
                all == pairs_of(self.items@),
                texts(out@) + listing(all.skip(i as int), only_dupes) == listing(all, only_dupes),
            decreases n - i,
        {
            let ghost rest = all.skip(i as int);
            let ghost size = run_len(rest, 0);
            let mut j: usize = i + 1;
            proof {
                lemma_run_len_bounds(rest, 0);
                reveal_with_fuel(run_len, 2);
            }
            while j < n && same_hash(&self.items[j].hash, &self.items[i].hash)
                invariant
                    i < j <= n,
                    n == self.items@.len(),
                    all == pairs_of(self.items@),
                    rest == all.skip(i as int),
                    size == run_len(rest, 0),
                    forall|k: int| i <= k < j ==> (#[trigger] all[k]).0 == all[i as int].0,
                    run_len(rest, 0) == (j - 1 - i) + run_len(rest, j - 1 - i),
                decreases n - j,
            {
                proof {
                    let at = j - 1 - i;
                    assert(rest[at] == all[j - 1]);
                    assert(rest[at + 1] == all[j as int]);
                    assert(run_len(rest, at) == 1 + run_len(rest, at + 1));
                }
                j += 1;
            }
            proof {
                let at = j - 1 - i;
                assert(rest[at] == all[j - 1]);
                if j < n {
                    assert(rest[at + 1] == all[j as int]);
                }
                assert(run_len(rest, at) == 1);
                assert(size == j - i);
                assert(rest.skip(size) =~= all.skip(j as int));
            }
            let ghost head = texts(out@);
            if !only_dupes || j - i >= 2 {
                let title: String = match hex_encode(&self.items[i].hash) {
                    Ok(s) => s,
                    Err(_) => String::new(),
                };
                out.push(title);
                assert(texts(out@) =~= head.push(hex_lower(rest[0].0)));
                let mut k: usize = i;
                while k < j
                    invariant
                        i <= k <= j <= n,
                        n == self.items@.len(),
                        all == pairs_of(self.items@),
                        rest == all.skip(i as int),
                        texts(out@) == head.push(hex_lower(rest[0].0)) + Seq::new(
                            (k - i) as nat,
                            |m: int| member_line(rest[m].1),
                        ),
                    decreases j - k,
                {
                    let ghost sofar = texts(out@);
                    let mut line: String = String::new();
                    line.push(' ');
                    line.push(' ');
                    line.append(self.items[k].path.as_str());
                    assert(line@ =~= member_line(rest[k - i].1));
                    out.push(line);
                    assert(texts(out@) =~= sofar.push(member_line(rest[k - i].1)));
                    k += 1;
                    assert(texts(out@) =~= head.push(hex_lower(rest[0].0)) + Seq::new(
                        (k - i) as nat,
                        |m: int| member_line(rest[m].1),
                    ));
                }
                assert(texts(out@) =~= head + group_lines(rest, size));
                assert((head + group_lines(rest, size)) + listing(rest.skip(size), only_dupes)
                    =~= head + (group_lines(rest, size) + listing(rest.skip(size), only_dupes)));
            }
            i = j;
        }
        assert(texts(out@) + listing(all.skip(n as int), only_dupes) =~= texts(out@));
        out
    }
}

/// Whether a grouped run printed anything, and if not, why: with
/// `only_dupes` there were no duplicates, else there was nothing at all.
pub fn grouped_exit(lines: usize, only_dupes: bool) -> (r: Result<(), PxsumError>)
    ensures
        lines > 0 <==> r is Ok,
        lines == 0 && only_dupes <==> r == Err::<(), PxsumError>(PxsumError::NoDupes),
        lines == 0 && !only_dupes <==> r == Err::<(), PxsumError>(PxsumError::Noop),
{
    if lines > 0 {
        Ok(())
    } else if only_dupes {
        Err(PxsumError::NoDupes)
    } else {
        Err(PxsumError::Noop)
    }
}

/// Whether two hashes are the same.
fn same_hash(a: &[u8; 32], b: &[u8; 32]) -> (r: bool)
    ensures
        r == (a@ == b@),
{
    crate::bytes::bytes_eq(a.as_slice(), b.as_slice())
}

/// How the pair of `hash` and `path` stands to the pair of `other_hash` and
/// `other_path`.
fn pair_order(hash: &[u8; 32], path: &str, other_hash: &[u8; 32], other_path: &str) -> (r: Order)
    ensures
        r == Order::Before <==> pair_lt((hash@, path@), (other_hash@, other_path@)),
        r == Order::Same <==> (hash@, path@) == (other_hash@, other_path@),
        r == Order::After <==> pair_lt((other_hash@, other_path@), (hash@, path@)),
{
    proof {
        lemma_lt_asymmetric(hash@, other_hash@);
        lemma_lt_asymmetric(other_hash@, hash@);
        lemma_lt_asymmetric(text_bytes(path@), text_bytes(other_path@));
        lemma_lt_asymmetric(text_bytes(other_path@), text_bytes(path@));
        vstd::utf8::encode_utf8_decode_utf8(path@);
        vstd::utf8::encode_utf8_decode_utf8(other_path@);
    }
    match bytes_order(hash.as_slice(), other_hash.as_slice()) {
        Order::Before => Order::Before,
        Order::After => Order::After,
        Order::Same => bytes_order(path.as_bytes(), other_path.as_bytes()),
    }
}

/// No pair comes before itself.
pub proof fn lemma_pair_lt_irreflexive(a: Pair)
    ensures
        !pair_lt(a, a),
{
    lemma_lt_asymmetric(a.0, a.0);
    lemma_lt_asymmetric(text_bytes(a.1), text_bytes(a.1));
}

/// The order of pairs is transitive.
pub proof fn lemma_pair_lt_transitive(a: Pair, b: Pair, c: Pair)
    requires
        pair_lt(a, b),
        pair_lt(b, c),
    ensures
        pair_lt(a, c),
{
    if bytes_lt(a.0, b.0) && bytes_lt(b.0, c.0) {
        lemma_lt_transitive(a.0, b.0, c.0);
    } else if a.0 == b.0 && b.0 == c.0 {
        lemma_lt_transitive(text_bytes(a.1), text_bytes(b.1), text_bytes(c.1));
    }
}

/// A group that begins within the pairs has one pair at least and ends
/// within them.
pub proof fn lemma_run_len_bounds(s: Seq<Pair>, from: int)
    requires
        0 <= from < s.len(),
    ensures
        1 <= run_len(s, from) <= s.len() - from,
    decreases s.len() - from,
{
    if from + 1 < s.len() && s[from + 1].0 == s[from].0 {
        lemma_run_len_bounds(s, from + 1);
    }
}

/// In a listing, hashes ascend from group to group and paths ascend within
/// a group: of two pairs that are kept, the one that is listed first has
/// the smaller hash, or the same hash and the smaller path.
pub proof fn lemma_listing_order(s: Seq<Pair>, i: int, j: int)
    requires
        pairs_in_order(s),
        0 <= i < j < s.len(),
    ensures
        bytes_lt(s[i].0, s[j].0) || (s[i].0 == s[j].0 && bytes_lt(
            text_bytes(s[i].1),
            text_bytes(s[j].1),
        )),
        s[i].0 == s[j].0 ==> forall|k: int| i <= k <= j ==> (#[trigger] s[k]).0 == s[i].0,
{
    assert(pair_lt(s[i], s[j]));
    if s[i].0 == s[j].0 {
        assert forall|k: int| i <= k <= j implies (#[trigger] s[k]).0 == s[i].0 by {
            if i < k < j {
                assert(pair_lt(s[i], s[k]));
                assert(pair_lt(s[k], s[j]));
                lemma_lt_asymmetric(s[i].0, s[k].0);
                if bytes_lt(s[i].0, s[k].0) {
                    if bytes_lt(s[k].0, s[j].0) {
                        lemma_lt_transitive(s[i].0, s[k].0, s[j].0);
                    }
                    lemma_lt_asymmetric(s[i].0, s[j].0);
                }
            }
        }
    }
}

/// The pairs of a group share its hash.
pub proof fn lemma_run_shares_hash(s: Seq<Pair>, from: int)
    requires
        0 <= from < s.len(),
    ensures
        forall|k: int| 0 <= k < run_len(s, from) ==> (#[trigger] s[from + k]).0 == s[from].0,
    decreases s.len() - from,
{
    if from + 1 < s.len() && s[from + 1].0 == s[from].0 {
        lemma_run_shares_hash(s, from + 1);
        assert forall|k: int| 0 <= k < run_len(s, from) implies (#[trigger] s[from + k]).0
            == s[from].0 by {
            if k > 0 {
                assert(s[from + 1 + (k - 1)].0 == s[from + 1].0);
            }
        }
    }
}

/// Whether every pair can be written down and read back: the hash has 32
/// bytes, and the path can stand on a line.
pub open spec fn pairs_fit_lines(s: Seq<Pair>) -> bool {
    forall|i: int|
        0 <= i < s.len() ==> (#[trigger] s[i]).0.len() == crate::chk::HASH_LEN && is_line_path(
            s[i].1,
        )
}

/// The plain manifest of the pairs: a line for each, the hash before the
/// path.
pub open spec fn plain_listing(s: Seq<Pair>) -> Seq<Seq<char>> {
    Seq::new(s.len(), |i: int| plain_line(hex_lower(s[i].0), s[i].1))
}

/// What is listed grouped reads back plain: the line normalizer makes of a
/// listing one line for each pair, in the order of the pairs, whatever
/// group was open before.
pub proof fn lemma_listing_reads_back(group: Option<Seq<char>>, s: Seq<Pair>)
    requires
        pairs_fit_lines(s),
    ensures
        normalized_lines(group, listing(s, false)) == plain_listing(s),
    decreases s.len(),
{
    if s.len() == 0 {
        assert(plain_listing(s) =~= Seq::<Seq<char>>::empty());
    } else {
        lemma_run_len_bounds(s, 0);
        lemma_run_shares_hash(s, 0);
        let size = run_len(s, 0);
        let rest = s.skip(size);
        let g = Group { hash: hex_lower(s[0].0), paths: Seq::new(size as nat, |i: int| s[i].1) };
        assert(g.wf()) by {
            crate::hex::lemma_hex_round_trip(s[0].0);
            assert forall|i: int| 0 <= i < g.paths.len() implies is_line_path(
                #[trigger] g.paths[i],
            ) by {
                assert(is_line_path(s[i].1));
            }
        }
        assert(group_lines(s, size) =~= g.grouped_lines());
        let one = seq![g];
        assert(one.drop_first() =~= Seq::<Group>::empty());
        assert(grouped_manifest(one) =~= g.grouped_lines()) by {
            reveal_with_fuel(grouped_manifest, 2);
        }
        assert(plain_manifest(one) =~= g.plain_lines()) by {
            reveal_with_fuel(plain_manifest, 2);
        }
        lemma_grouped_reads_as_plain(group, one);
        lemma_normalized_concat(group, g.grouped_lines(), listing(rest, false));
        assert forall|i: int| 0 <= i < rest.len() implies (#[trigger] rest[i]).0.len()
            == crate::chk::HASH_LEN && is_line_path(rest[i].1) by {
            assert(rest[i] == s[i + size]);
        }
        lemma_listing_reads_back(crate::iter::group_after(group, g.grouped_lines()), rest);
        assert(g.plain_lines() + plain_listing(rest) =~= plain_listing(s)) by {
            assert forall|i: int| 0 <= i < s.len() implies (g.plain_lines() + plain_listing(
                rest,
            ))[i] == plain_listing(s)[i] by {
                if i < size {
                    assert(s[0 + i].0 == s[0].0);
                } else {
                    assert(rest[i - size] == s[i]);
                }
            }
        }
    }
}

/// Every line of a plain listing holds its pair: read as a manifest line it
/// gives the hash and the path back.
pub proof fn lemma_plain_listing_parses(s: Seq<Pair>, i: int)
    requires
        pairs_fit_lines(s),
        0 <= i < s.len(),
    ensures
        crate::chk::parse_line(plain_listing(s)[i]) == Some(s[i]),
{
    assert(s[i].0.len() == crate::chk::HASH_LEN && is_line_path(s[i].1));
    crate::chk::lemma_line_round_trip(s[i].0, s[i].1);
    assert(plain_listing(s)[i] =~= crate::chk::render_line(s[i].0, s[i].1));
}

} // verus!
