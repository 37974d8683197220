//! The result tree of a scan. A node stands for one visited path: a file
//! carries its own length, a directory carries the total bytes and file count
//! of its whole subtree, with its children ordered by size (largest first).
//! A directory keeps at most `max_children` child nodes; the children pruned
//! beyond that bound stay in the totals through the `other_count` /
//! `other_size` summary bucket.

use vstd::prelude::*;
use vstd::multiset::Multiset;
use crate::sums::{weight_sum, lemma_weight_sum_push, lemma_weight_sum_permutation,
    lemma_weight_sum_split, lemma_map_to_multiset_permutation};

verus! {

pub struct DirEntry {
    /// Last path component of the scanned path.
    pub name: String,
    /// Total bytes: own length for a file, sum over every discovered child
    /// (pruned ones included) for a directory.
    pub size: u64,
    /// Number of files in the subtree rooted here.
    pub file_count: u64,
    /// Retained child nodes, ordered by `size` descending.
    pub children: Vec<DirEntry>,
    pub is_dir: bool,
    /// Number of children removed by pruning.
    pub other_count: u64,
    /// Total size of the pruned children.
    pub other_size: u64,
}

/// Weight of an entry when summing sizes.
pub open spec fn size_weight() -> spec_fn(DirEntry) -> int {
    |e: DirEntry| e.size as int
}

/// Weight of an entry when summing file counts.
pub open spec fn count_weight() -> spec_fn(DirEntry) -> int {
    |e: DirEntry| e.file_count as int
}

/// Sum of the sizes of all entries of `s`.
pub open spec fn size_sum(s: Seq<DirEntry>) -> int {
    weight_sum(s, size_weight())
}

/// Sum of the file counts of all entries of `s`.
pub open spec fn count_sum(s: Seq<DirEntry>) -> int {
    weight_sum(s, count_weight())
}

/// The entries of `s` are ordered by size, largest first.
pub open spec fn sorted_desc(s: Seq<DirEntry>) -> bool {
    forall|i: int, j: int|
        #![trigger s[i], s[j]]
        0 <= i <= j < s.len() ==> s[i].size >= s[j].size
}

/// The aggregation invariant, at this node and below. A file holds one file
/// and nothing else; a directory's size is the sum over its retained children
/// plus the pruned bucket, and when nothing was pruned its file count is
/// exactly the sum over its children.
pub open spec fn nodes_consistent(e: DirEntry) -> bool
    decreases e,
{
    &&& if e.is_dir {
        &&& e.size as int == size_sum(e.children@) + e.other_size
        &&& count_sum(e.children@) <= e.file_count as int
        &&& e.other_count == 0 ==> {
            &&& e.other_size == 0
            &&& e.file_count as int == count_sum(e.children@)
        }
    } else {
        &&& e.file_count == 1
        &&& e.children@.len() == 0
        &&& e.other_count == 0
        &&& e.other_size == 0
    }
    &&& forall|i: int| 0 <= i < e.children@.len() ==> nodes_consistent(#[trigger] e.children@[i])
}

/// Every directory's children, at this node and below, are ordered by size
/// descending.
pub open spec fn all_sorted(e: DirEntry) -> bool
    decreases e,
{
    &&& sorted_desc(e.children@)
    &&& forall|i: int| 0 <= i < e.children@.len() ==> all_sorted(#[trigger] e.children@[i])
}

/// A tree as the scan hands it out: aggregated consistently and ordered.
pub open spec fn well_formed(e: DirEntry) -> bool {
    nodes_consistent(e) && all_sorted(e)
}

/// The identity of a child as its parent reports it: name and totals.
pub open spec fn child_key() -> spec_fn(DirEntry) -> (Seq<char>, u64, u64) {
    |e: DirEntry| (e.name@, e.size, e.file_count)
}

/// The multiset of child identities of a children list.
pub open spec fn child_keys(s: Seq<DirEntry>) -> Multiset<(Seq<char>, u64, u64)> {
    s.map_values(child_key()).to_multiset()
}

pub proof fn lemma_size_sum_nonneg(s: Seq<DirEntry>)
    ensures
        size_sum(s) >= 0,
    decreases s.len(),
{
    if s.len() > 0 {
        lemma_size_sum_nonneg(s.drop_last());
    }
}

pub proof fn lemma_count_sum_nonneg(s: Seq<DirEntry>)
    ensures
        count_sum(s) >= 0,
    decreases s.len(),
{
    if s.len() > 0 {
        lemma_count_sum_nonneg(s.drop_last());
    }
}

/// Both sums split around any index `k`.
pub proof fn lemma_sums_split(s: Seq<DirEntry>, k: int)
    requires
        0 <= k <= s.len(),
    ensures
        size_sum(s) == size_sum(s.take(k)) + size_sum(s.skip(k)),
        count_sum(s) == count_sum(s.take(k)) + count_sum(s.skip(k)),
{
    lemma_weight_sum_split(s, size_weight(), k);
    lemma_weight_sum_split(s, count_weight(), k);
}

/// Two sequences holding the same entries (as multisets) have the same size
/// and file-count totals: what a directory reports does not depend on the
/// order its children were gathered in.
pub proof fn lemma_sums_permutation(s1: Seq<DirEntry>, s2: Seq<DirEntry>)
    requires
        s1.to_multiset() == s2.to_multiset(),
    ensures
        size_sum(s1) == size_sum(s2),
        count_sum(s1) == count_sum(s2),
{
    lemma_weight_sum_permutation(s1, s2, size_weight());
    lemma_weight_sum_permutation(s1, s2, count_weight());
}

impl DirEntry {
    /// A fresh, unpopulated node. For a directory this is already the final
    /// shape of an empty (or unreadable) directory: zero bytes, zero files,
    /// no children.
    pub fn new(name: String, is_dir: bool) -> (r: DirEntry)
        ensures
            r.name == name,
            r.size == 0,
            r.file_count == 0,
            r.children@.len() == 0,
            r.is_dir == is_dir,
            r.other_count == 0,
            r.other_size == 0,
            is_dir ==> well_formed(r),
    {
        let r = DirEntry {
            name,
            size: 0,
            file_count: 0,
            children: Vec::new(),
            is_dir,
            other_count: 0,
            other_size: 0,
        };
        proof {
            assert(size_sum(r.children@) == 0);
            assert(count_sum(r.children@) == 0);
        }
        r
    }

    /// The node for a single file of `size` bytes: it holds exactly one file
    /// and has no children.
    pub fn file_node(name: String, size: u64) -> (r: DirEntry)
        ensures
            r.name == name,
            r.size == size,
            r.file_count == 1,
            r.children@.len() == 0,
            !r.is_dir,
            r.other_count == 0,
            r.other_size == 0,
            well_formed(r),
    {
        DirEntry {
            name,
            size,
            file_count: 1,
            children: Vec::new(),
            is_dir: false,
            other_count: 0,
            other_size: 0,
        }
    }
}

/// Orders the entries by size, largest first, keeping exactly the same
/// entries (as a multiset). Each round picks the first largest entry left,
/// so entries of equal size keep the order they were handed in and the
/// result is deterministic for a given input.
pub fn sort_by_size_desc(v: Vec<DirEntry>) -> (r: Vec<DirEntry>)
    ensures
        r@.to_multiset() == v@.to_multiset(),
        r@.len() == v@.len(),
        sorted_desc(r@),
{
    broadcast use vstd::seq_lib::group_to_multiset_ensures;
    broadcast use vstd::multiset::group_multiset_axioms;

    let ghost orig = v@;
    let mut rest = v;
    let mut out: Vec<DirEntry> = Vec::new();
    while rest.len() > 0
        invariant
            out@.to_multiset().add(rest@.to_multiset()) == orig.to_multiset(),
            out@.len() + rest@.len() == orig.len(),
            sorted_desc(out@),
            forall|i: int, j: int|
                #![trigger out@[i], rest@[j]]
                0 <= i < out@.len() && 0 <= j < rest@.len() ==> out@[i].size >= rest@[j].size,
        decreases rest@.len(),
    {
        let ghost pre = rest@;
        let mut m: usize = 0;
        let mut k: usize = 1;
        while k < rest.len()
            invariant
                rest@ == pre,
                0 < rest@.len(),
                m < k,
                k <= rest@.len(),
                forall|t: int| 0 <= t < k ==> rest@[m as int].size >= rest@[t].size,
            decreases rest@.len() - k,
        {
            if rest[k].size > rest[m].size {
                m = k;
            }
            k += 1;
        }
        let x = rest.remove(m);
        let ghost prev_out = out@;
        proof {
            assert(x == pre[m as int]);
            assert(pre.contains(x));
            vstd::seq_lib::to_multiset_contains::<DirEntry>(pre, x);
            assert(pre.to_multiset().count(x) > 0);
            vstd::seq_lib::to_multiset_remove::<DirEntry>(pre, m as int);
            assert(rest@.to_multiset() == pre.to_multiset().remove(x));
            assert(prev_out.to_multiset().insert(x).add(pre.to_multiset().remove(x))
                =~= prev_out.to_multiset().add(pre.to_multiset()));
            assert(forall|j: int| 0 <= j < rest@.len() ==> x.size >= #[trigger] rest@[j].size);
        }
        out.push(x);
        proof {
            assert(out@ == prev_out.push(x));
            vstd::seq_lib::to_multiset_build::<DirEntry>(prev_out, x);
            assert(out@.to_multiset() == prev_out.to_multiset().insert(x));
        }
    }
    proof {
        assert(rest@.to_multiset().len() == 0);
        assert(rest@.to_multiset() =~= Multiset::<DirEntry>::empty());
        assert(out@.to_multiset() =~= orig.to_multiset());
    }
    out
}

impl DirEntry {
    /// Recursively re-orders every directory's children by size, largest
    /// first. Every node's own totals and bucket are untouched, so on a
    /// consistently aggregated tree the pass yields a fully well-formed one.
    /// It is the optional fix-up for children gathered out of order; on an
    /// already ordered tree it changes nothing.
    pub fn sort_children(self) -> (r: DirEntry)
        ensures
            r.name == self.name,
            r.size == self.size,
            r.file_count == self.file_count,
            r.is_dir == self.is_dir,
            r.other_count == self.other_count,
            r.other_size == self.other_size,
            r.children@.len() == self.children@.len(),
            size_sum(r.children@) == size_sum(self.children@),
            count_sum(r.children@) == count_sum(self.children@),
            child_keys(r.children@) == child_keys(self.children@),
            all_sorted(r),
            nodes_consistent(self) ==> well_formed(r),
        decreases self,
    {
        let ghost whole = self;
        let DirEntry { name, size, file_count, children, is_dir, other_count, other_size } = self;
        let ghost orig_kids = children@;
        proof {
            assert(orig_kids.take(orig_kids.len() as int) =~= orig_kids);
        }
        let mut rest = children;
        let mut done: Vec<DirEntry> = Vec::new();
        proof {
            assert(done@.map_values(child_key()).len() == 0);
            vstd::seq_lib::to_multiset_len::<(Seq<char>, u64, u64)>(done@.map_values(child_key()));
            assert(child_keys(done@).add(child_keys(rest@)) =~= child_keys(orig_kids)) by {
                broadcast use vstd::multiset::group_multiset_axioms;
                assert(child_keys(done@).len() == 0);
            }
        }
        while rest.len() > 0
            invariant
                whole == self,
                whole.children@ == orig_kids,
                rest@ == orig_kids.take(rest@.len() as int),
                done@.len() + rest@.len() == orig_kids.len(),
                size_sum(done@) + size_sum(rest@) == size_sum(orig_kids),
                count_sum(done@) + count_sum(rest@) == count_sum(orig_kids),
                child_keys(done@).add(child_keys(rest@)) == child_keys(orig_kids),
                forall|t: int| 0 <= t < done@.len() ==> all_sorted(#[trigger] done@[t]),
                (forall|t: int|
                    0 <= t < orig_kids.len() ==> nodes_consistent(#[trigger] orig_kids[t]))
                    ==> (forall|t: int|
                    0 <= t < done@.len() ==> nodes_consistent(#[trigger] done@[t])),
            decreases rest@.len(),
        {
            let ghost pre = rest@;
            let x = rest.pop().unwrap();
            let ghost idx = pre.len() - 1;
            proof {
                assert(x == orig_kids[idx]);
                assert(x == whole.children@[idx]);
                assert(decreases_to!(whole => whole.children));
                assert(decreases_to!(whole.children => whole.children@));
                assert(decreases_to!(whole.children@ => whole.children@[idx]));
                assert(rest@ =~= pre.drop_last());
                assert(size_sum(pre) == size_sum(pre.drop_last()) + x.size as int);
                assert(count_sum(pre) == count_sum(pre.drop_last()) + x.file_count as int);
                assert(rest@ =~= orig_kids.take(rest@.len() as int));
                let ck = child_key();
                assert(pre.map_values(ck) =~= rest@.map_values(ck).push(ck(x)));
                vstd::seq_lib::to_multiset_build::<(Seq<char>, u64, u64)>(
                    rest@.map_values(ck), ck(x));
                assert(child_keys(pre) == child_keys(rest@).insert(ck(x)));
            }
            let ghost prev_done = done@;
            let xs = x.sort_children();
            done.push(xs);
            proof {
                lemma_weight_sum_push(prev_done, size_weight(), xs);
                lemma_weight_sum_push(prev_done, count_weight(), xs);
                let ck = child_key();
                assert(ck(xs) == ck(x));
                assert(done@.map_values(ck) =~= prev_done.map_values(ck).push(ck(xs)));
                vstd::seq_lib::to_multiset_build::<(Seq<char>, u64, u64)>(
                    prev_done.map_values(ck), ck(xs));
                assert(child_keys(done@) == child_keys(prev_done).insert(ck(x)));
                assert(child_keys(prev_done).insert(ck(x)).add(child_keys(rest@))
                    =~= child_keys(prev_done).add(child_keys(rest@).insert(ck(x)))) by {
                    broadcast use vstd::multiset::group_multiset_axioms;
                }
            }
        }
        let ghost done_all = done@;
        let sorted = sort_by_size_desc(done);
        proof {
            lemma_sums_permutation(done_all, sorted@);
            lemma_map_to_multiset_permutation(done_all, sorted@, child_key());
            assert(rest@.map_values(child_key()).len() == 0);
            vstd::seq_lib::to_multiset_len::<(Seq<char>, u64, u64)>(rest@.map_values(child_key()));
            assert(child_keys(sorted@) =~= child_keys(orig_kids)) by {
                broadcast use vstd::multiset::group_multiset_axioms;
                assert(child_keys(rest@).len() == 0);
                assert(child_keys(done_all).add(child_keys(rest@)) == child_keys(orig_kids));
            }
            assert forall|t: int| 0 <= t < sorted@.len() implies
                exists|u: int| 0 <= u < done_all.len() && done_all[u] == #[trigger] sorted@[t] by {
                vstd::seq_lib::to_multiset_contains::<DirEntry>(sorted@, sorted@[t]);
                assert(sorted@.contains(sorted@[t]));
                assert(done_all.to_multiset().count(sorted@[t]) > 0);
                vstd::seq_lib::to_multiset_contains::<DirEntry>(done_all, sorted@[t]);
                assert(done_all.contains(sorted@[t]));
            }
        }
        let r = DirEntry { name, size, file_count, children: sorted, is_dir, other_count, other_size };
        proof {
            assert(all_sorted(r));
            if nodes_consistent(whole) {
                assert(forall|t: int|
                    0 <= t < orig_kids.len() ==> nodes_consistent(#[trigger] orig_kids[t]));
                assert(nodes_consistent(r));
            }
        }
        r
    }
}

/// Builds the node for a directory out of its fully scanned children: totals
/// are summed over every child handed in, the children are ordered by size
/// descending, and only the `max_children` largest are retained — the rest
/// are folded into the `other_count` / `other_size` bucket, so the totals
/// still cover them.
#[verifier::rlimit(50)]
pub fn fold_children(name: String, children: Vec<DirEntry>, max_children: usize) -> (r: DirEntry)
    requires
        size_sum(children@) <= u64::MAX as int,
        count_sum(children@) <= u64::MAX as int,
    ensures
        r.is_dir,
        r.name == name,
        r.size as int == size_sum(children@),
        r.file_count as int == count_sum(children@),
        sorted_desc(r.children@),
        r.children@.len() <= max_children,
        children@.len() <= max_children ==> r.children@.len() == children@.len()
            && r.other_count == 0 && r.other_size == 0,
        children@.len() > max_children ==> r.children@.len() == max_children as int
            && r.other_count as int == children@.len() - max_children as int,
        r.size as int == size_sum(r.children@) + r.other_size as int,
        forall|d: DirEntry| #[trigger]
            r.children@.to_multiset().count(d) <= children@.to_multiset().count(d),
        forall|i: int, d: DirEntry|
            #![trigger r.children@[i], children@.to_multiset().count(d)]
            0 <= i < r.children@.len()
                && children@.to_multiset().count(d) > r.children@.to_multiset().count(d)
                ==> r.children@[i].size >= d.size,
        (forall|i: int| 0 <= i < children@.len() ==> well_formed(#[trigger] children@[i]))
            ==> well_formed(r),
{
    let ghost orig = children@;
    let sorted_all = sort_by_size_desc(children);
    let ghost s = sorted_all@;
    proof {
        lemma_sums_permutation(orig, s);
    }

    let n = sorted_all.len();
    let mut total_size: u64 = 0;
    let mut total_count: u64 = 0;
    let mut i: usize = 0;
    while i < n
        invariant
            sorted_all@ == s,
            n == s.len(),
            i <= n,
            total_size as int == size_sum(s.take(i as int)),
            total_count as int == count_sum(s.take(i as int)),
            size_sum(s) <= u64::MAX as int,
            count_sum(s) <= u64::MAX as int,
        decreases n - i,
    {
        proof {
            assert(s.take(i as int + 1) =~= s.take(i as int).push(s[i as int]));
            lemma_weight_sum_push(s.take(i as int), size_weight(), s[i as int]);
            lemma_weight_sum_push(s.take(i as int), count_weight(), s[i as int]);
            lemma_sums_split(s, i as int + 1);
            lemma_size_sum_nonneg(s.skip(i as int + 1));
            lemma_count_sum_nonneg(s.skip(i as int + 1));
        }
        total_size = total_size + sorted_all[i].size;
        total_count = total_count + sorted_all[i].file_count;
        i = i + 1;
    }
    proof {
        assert(s.take(n as int) =~= s);
    }

    let mut retained = sorted_all;
    let mut other_count: u64 = 0;
    let mut other_size: u64 = 0;
    if n > max_children {
        let ghost suf = s.skip(max_children as int);
        proof {
            lemma_sums_split(s, max_children as int);
            lemma_size_sum_nonneg(s.take(max_children as int));
        }
        let mut j: usize = max_children;
        while j < n
            invariant
                retained@ == s,
                n == s.len(),
                max_children <= j <= n,
                suf == s.skip(max_children as int),
                size_sum(suf) <= u64::MAX as int,
                other_size as int == size_sum(suf.take(j as int - max_children as int)),
            decreases n - j,
        {
            proof {
                let jj = j as int - max_children as int;
                assert(suf[jj] == s[j as int]);
                assert(suf.take(jj + 1) =~= suf.take(jj).push(suf[jj]));
                lemma_weight_sum_push(suf.take(jj), size_weight(), suf[jj]);
                lemma_weight_sum_split(suf, size_weight(), jj + 1);
                lemma_size_sum_nonneg(suf.skip(jj + 1));
            }
            other_size = other_size + retained[j].size;
            j = j + 1;
        }
        other_count = (n - max_children) as u64;
        retained.truncate(max_children);
        proof {
            assert(suf.take(n as int - max_children as int) =~= suf);
            assert(retained@ == s.take(max_children as int));
        }
    }

    let r = DirEntry {
        name,
        size: total_size,
        file_count: total_count,
        children: retained,
        is_dir: true,
        other_count,
        other_size,
    };

    proof {
        let ret = r.children@;
        let k = if orig.len() > max_children { max_children as int } else { orig.len() as int };
        if orig.len() <= max_children {
            assert(s.take(k) =~= s);
        }
        assert(ret == s.take(k));

        // The retained children are ordered, and their entries come from `s`.
        assert forall|a: int, b: int|
            #![trigger ret[a], ret[b]]
            0 <= a <= b < ret.len() implies ret[a].size >= ret[b].size by {
            assert(ret[a] == s[a]);
            assert(ret[b] == s[b]);
        }

        // Multiset bookkeeping: s splits into the retained prefix and the
        // dropped suffix.
        let dropped = s.skip(k);
        assert(s =~= s.take(k) + s.skip(k));
        vstd::seq_lib::lemma_multiset_commutative(s.take(k), s.skip(k));
        assert(orig.to_multiset() == ret.to_multiset().add(dropped.to_multiset()));
        assert forall|d: DirEntry| #[trigger]
            ret.to_multiset().count(d) <= orig.to_multiset().count(d) by {
            broadcast use vstd::multiset::group_multiset_axioms;
        }

        // Every dropped entry is no larger than any retained one.
        assert forall|a: int, d: DirEntry|
            #![trigger ret[a], orig.to_multiset().count(d)]
            0 <= a < ret.len()
                && orig.to_multiset().count(d) > ret.to_multiset().count(d)
                implies ret[a].size >= d.size by {
            broadcast use vstd::multiset::group_multiset_axioms;
            assert(dropped.to_multiset().count(d) > 0);
            vstd::seq_lib::to_multiset_contains::<DirEntry>(dropped, d);
            assert(dropped.contains(d));
            let jd = choose|jd: int| 0 <= jd < dropped.len() && dropped[jd] == d;
            assert(d == s[k + jd]);
            assert(ret[a] == s[a]);
        }

        // The totals and the bucket line up.
        lemma_sums_split(s, k);
        assert(r.size as int == size_sum(ret) + r.other_size as int);
        lemma_count_sum_nonneg(s.skip(k));

        // Well-formedness follows if every child handed in was well-formed.
        if forall|t: int| 0 <= t < orig.len() ==> well_formed(#[trigger] orig[t]) {
            assert forall|t: int| 0 <= t < ret.len() implies well_formed(#[trigger] ret[t]) by {
                broadcast use vstd::multiset::group_multiset_axioms;
                vstd::seq_lib::to_multiset_contains::<DirEntry>(ret, ret[t]);
                assert(ret.contains(ret[t]));
                assert(orig.to_multiset().count(ret[t]) > 0);
                vstd::seq_lib::to_multiset_contains::<DirEntry>(orig, ret[t]);
                assert(orig.contains(ret[t]));
                let u = choose|u: int| 0 <= u < orig.len() && orig[u] == ret[t];
                assert(well_formed(orig[u]));
            }
            assert(nodes_consistent(r));
            assert(all_sorted(r));
        }
    }
    r
}

} // verus!
