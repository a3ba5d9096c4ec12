//! Hotspot candidates: files and directories together with the median size
//! of their siblings.  The ratio of a candidate's lines to that median, and
//! the threshold it is held against, are floating-point and are left to the
//! caller.

use vstd::prelude::*;
use vstd::string::StrSliceExecFns;
use crate::aggregate::DirAggregate;
use crate::order::{compare_chars, Order};
use crate::text::chars_of;
use crate::traverse::{parent, parent_dir, FileRecord};

verus! {

/// Whether a hotspot is a file or a directory.
#[derive(Debug, Clone, Copy, PartialEq, Eq, Structural)]
pub enum HotspotKind {
    File,
    Directory,
}

/// The full name of a hotspot kind.
pub open spec fn kind_name(k: HotspotKind) -> Seq<char> {
    match k {
        HotspotKind::File => "file"@,
        HotspotKind::Directory => "directory"@,
    }
}

impl HotspotKind {
    /// The full name of this kind, as the JSON report gives it.
    pub fn name(&self) -> (r: &'static str)
        ensures
            r@ == kind_name(*self),
    {
        match self {
            HotspotKind::File => "file",
            HotspotKind::Directory => "directory",
        }
    }
}

/// The median of a non-empty multiset of sizes, as its two middle values
/// (equal when the count is odd); the median is their mean.
#[derive(Debug, Clone, Copy, PartialEq, Eq, Structural)]
pub struct Median {
    pub low: usize,
    pub high: usize,
}

/// The number of elements of `s` that satisfy `f`.
pub open spec fn count_where(s: Seq<usize>, f: spec_fn(usize) -> bool) -> nat
    decreases s.len(),
{
    if s.len() == 0 {
        0
    } else {
        count_where(s.drop_last(), f) + if f(s.last()) {
            1nat
        } else {
            0nat
        }
    }
}

/// Non-zero values.
pub open spec fn nonzero() -> spec_fn(usize) -> bool {
    |x: usize| x > 0
}

/// Non-zero values below `v`.
pub open spec fn nonzero_below(v: usize) -> spec_fn(usize) -> bool {
    |x: usize| x > 0 && x < v
}

/// Non-zero values at or below `v`.
pub open spec fn nonzero_upto(v: usize) -> spec_fn(usize) -> bool {
    |x: usize| x > 0 && x <= v
}

/// The number of non-zero elements of `s`.
pub open spec fn count_nonzero(s: Seq<usize>) -> nat {
    count_where(s, nonzero())
}

/// `v` is the `k`-th smallest (from 0) of the non-zero elements of `s`:
/// fewer than `k + 1` of them lie below `v` and more than `k` lie at or
/// below it.
pub open spec fn is_kth_nonzero(s: Seq<usize>, k: int, v: usize) -> bool {
    count_where(s, nonzero_below(v)) <= k < count_where(s, nonzero_upto(v))
}

/// The median of the non-zero elements of `s`, `None` when there are none.
pub open spec fn median_spec(s: Seq<usize>) -> Option<Median> {
    let n = count_nonzero(s) as int;
    if n == 0 {
        None
    } else {
        Some(
            Median {
                low: choose|v: usize| #[trigger] is_kth_nonzero(s, (n - 1) / 2, v),
                high: choose|v: usize| #[trigger] is_kth_nonzero(s, n / 2, v),
            },
        )
    }
}

proof fn lemma_count_split(a: Seq<usize>, b: Seq<usize>, f: spec_fn(usize) -> bool)
    ensures
        count_where(a + b, f) == count_where(a, f) + count_where(b, f),
    decreases b.len(),
{
    if b.len() == 0 {
        assert(a + b =~= a);
    } else {
        lemma_count_split(a, b.drop_last(), f);
        assert((a + b).drop_last() =~= a + b.drop_last());
    }
}

proof fn lemma_count_le(s: Seq<usize>, f: spec_fn(usize) -> bool, g: spec_fn(usize) -> bool)
    requires
        forall|x: usize| #[trigger] f(x) ==> g(x),
    ensures
        count_where(s, f) <= count_where(s, g),
        count_where(s, g) <= s.len(),
    decreases s.len(),
{
    if s.len() > 0 {
        lemma_count_le(s.drop_last(), f, g);
    }
}

proof fn lemma_count_all(s: Seq<usize>, f: spec_fn(usize) -> bool)
    requires
        forall|i: int| 0 <= i < s.len() ==> #[trigger] f(s[i]),
    ensures
        count_where(s, f) == s.len(),
    decreases s.len(),
{
    if s.len() > 0 {
        lemma_count_all(s.drop_last(), f);
    }
}

proof fn lemma_count_none(s: Seq<usize>, f: spec_fn(usize) -> bool)
    requires
        forall|i: int| 0 <= i < s.len() ==> !#[trigger] f(s[i]),
    ensures
        count_where(s, f) == 0,
    decreases s.len(),
{
    if s.len() > 0 {
        lemma_count_none(s.drop_last(), f);
    }
}

/// At most one value is the `k`-th smallest non-zero element.
pub proof fn lemma_kth_unique(s: Seq<usize>, k: int, v: usize, w: usize)
    requires
        is_kth_nonzero(s, k, v),
        is_kth_nonzero(s, k, w),
    ensures
        v == w,
{
    if v < w {
        lemma_count_le(s, nonzero_upto(v), nonzero_below(w));
    } else if w < v {
        lemma_count_le(s, nonzero_upto(w), nonzero_below(v));
    }
}

/// Below `b`, the first value at or below which more than `k` non-zero
/// elements lie is the `k`-th smallest.
proof fn lemma_kth_exists_below(s: Seq<usize>, k: int, b: usize)
    requires
        0 <= k,
        k < count_where(s, nonzero_upto(b)),
    ensures
        exists|v: usize| #[trigger] is_kth_nonzero(s, k, v),
    decreases b,
{
    if b == 0 {
        lemma_count_le(s, nonzero_upto(0), |x: usize| false);
        lemma_count_none(s, |x: usize| false);
    } else {
        let p = (b - 1) as usize;
        lemma_count_le(s, nonzero_below(b), nonzero_upto(p));
        lemma_count_le(s, nonzero_upto(p), nonzero_below(b));
        if count_where(s, nonzero_upto(p)) <= k {
            assert(is_kth_nonzero(s, k, b));
        } else {
            lemma_kth_exists_below(s, k, p);
        }
    }
}

/// Each rank among the non-zero elements is held by some value.
proof fn lemma_kth_exists(s: Seq<usize>, k: int)
    requires
        0 <= k < count_nonzero(s),
    ensures
        exists|v: usize| #[trigger] is_kth_nonzero(s, k, v),
{
    lemma_count_le(s, nonzero(), nonzero_upto(usize::MAX));
    lemma_kth_exists_below(s, k, usize::MAX);
}

/// Empty siblings do not move the median: with a zero added, the non-zero
/// elements, and so their median, are the same.
pub proof fn lemma_median_ignores_zero(s: Seq<usize>)
    ensures
        median_spec(s.push(0)) == median_spec(s),
{
    let t = s.push(0);
    assert(t.drop_last() =~= s);
    assert forall|f: spec_fn(usize) -> bool| !f(0) implies #[trigger] count_where(t, f) == count_where(s, f) by {}
    assert(!nonzero()(0));
    assert(count_nonzero(t) == count_nonzero(s));
    let n = count_nonzero(s) as int;
    if n > 0 {
        assert forall|k: int, v: usize| #[trigger] is_kth_nonzero(t, k, v) == is_kth_nonzero(s, k, v) by {
            assert(!nonzero_below(v)(0));
            assert(!nonzero_upto(v)(0));
        }
        lemma_kth_exists(s, (n - 1) / 2);
        lemma_kth_exists(s, n / 2);
        let sl = choose|v: usize| #[trigger] is_kth_nonzero(s, (n - 1) / 2, v);
        let sh = choose|v: usize| #[trigger] is_kth_nonzero(s, n / 2, v);
        assert(is_kth_nonzero(t, (n - 1) / 2, sl));
        assert(is_kth_nonzero(t, n / 2, sh));
        let tl = choose|v: usize| #[trigger] is_kth_nonzero(t, (n - 1) / 2, v);
        let th = choose|v: usize| #[trigger] is_kth_nonzero(t, n / 2, v);
        lemma_kth_unique(s, (n - 1) / 2, sl, tl);
        lemma_kth_unique(s, n / 2, sh, th);
    }
}

/// The median does not depend on the order of the siblings: two groups
/// taken in either order give the same median.
pub proof fn lemma_median_order_free(a: Seq<usize>, b: Seq<usize>)
    ensures
        median_spec(a + b) == median_spec(b + a),
{
    assert forall|f: spec_fn(usize) -> bool| #[trigger] count_where(a + b, f) == count_where(b + a, f) by {
        lemma_count_split(a, b, f);
        lemma_count_split(b, a, f);
    }
    let s = a + b;
    let t = b + a;
    assert(count_nonzero(t) == count_nonzero(s));
    let n = count_nonzero(s) as int;
    if n > 0 {
        assert forall|k: int, v: usize| #[trigger] is_kth_nonzero(t, k, v) == is_kth_nonzero(s, k, v) by {
            assert(count_where(s, nonzero_below(v)) == count_where(t, nonzero_below(v)));
            assert(count_where(s, nonzero_upto(v)) == count_where(t, nonzero_upto(v)));
        }
        lemma_kth_exists(s, (n - 1) / 2);
        lemma_kth_exists(s, n / 2);
        let sl = choose|v: usize| #[trigger] is_kth_nonzero(s, (n - 1) / 2, v);
        let sh = choose|v: usize| #[trigger] is_kth_nonzero(s, n / 2, v);
        assert(is_kth_nonzero(t, (n - 1) / 2, sl));
        assert(is_kth_nonzero(t, n / 2, sh));
        let tl = choose|v: usize| #[trigger] is_kth_nonzero(t, (n - 1) / 2, v);
        let th = choose|v: usize| #[trigger] is_kth_nonzero(t, n / 2, v);
        lemma_kth_unique(s, (n - 1) / 2, sl, tl);
        lemma_kth_unique(s, n / 2, sh, th);
    }
}

/// A median is positive, and its lower middle value is at most its upper
/// one, so the baseline of a hotspot is never zero.
pub proof fn lemma_median_bounds(s: Seq<usize>)
    ensures
        median_spec(s) matches Some(m) ==> 0 < m.low <= m.high,
{
    let n = count_nonzero(s) as int;
    if n > 0 {
        lemma_kth_exists(s, (n - 1) / 2);
        lemma_kth_exists(s, n / 2);
        let lo = choose|v: usize| #[trigger] is_kth_nonzero(s, (n - 1) / 2, v);
        let hi = choose|v: usize| #[trigger] is_kth_nonzero(s, n / 2, v);
        lemma_count_le(s, nonzero_upto(0), |x: usize| false);
        lemma_count_none(s, |x: usize| false);
        if hi < lo {
            lemma_count_le(s, nonzero_upto(hi), nonzero_below(lo));
        }
    }
}

spec fn sorted_nonzero(t: Seq<usize>) -> bool {
    &&& forall|i: int, j: int| 0 <= i < j < t.len() ==> t[i] <= t[j]
    &&& forall|i: int| 0 <= i < t.len() ==> t[i] > 0
}

/// In a sorted sequence of non-zero values, the element at `k` is the
/// `k`-th smallest.
proof fn lemma_sorted_kth(t: Seq<usize>, k: int)
    requires
        sorted_nonzero(t),
        0 <= k < t.len(),
    ensures
        is_kth_nonzero(t, k, t[k]),
{
    let v = t[k];
    let below = nonzero_below(v);
    let upto = nonzero_upto(v);
    assert(t =~= t.take(k) + t.skip(k));
    lemma_count_split(t.take(k), t.skip(k), below);
    lemma_count_le(t.take(k), below, |x: usize| true);
    lemma_count_none(t.skip(k), below);
    assert(t =~= t.take(k + 1) + t.skip(k + 1));
    lemma_count_split(t.take(k + 1), t.skip(k + 1), upto);
    lemma_count_all(t.take(k + 1), upto);
}

/// The median of the non-zero elements of `values`; `None` when all are zero.
pub fn median_nonzero(values: &[usize]) -> (r: Option<Median>)
    ensures
        r == median_spec(values@),
        r matches Some(m) ==> is_kth_nonzero(values@, (count_nonzero(values@) - 1) / 2, m.low)
            && is_kth_nonzero(values@, count_nonzero(values@) as int / 2, m.high),
{
    let ghost s = values@;
    let mut t: Vec<usize> = Vec::new();
    let mut i: usize = 0;
    while i < values.len()
        invariant
            s == values@,
            i <= s.len(),
            sorted_nonzero(t@),
            t@.len() == count_where(s.take(i as int), nonzero()),
            forall|v: usize|
                #![trigger count_where(t@, nonzero_below(v))]
                count_where(t@, nonzero_below(v)) == count_where(s.take(i as int), nonzero_below(v)),
            forall|v: usize|
                #![trigger count_where(t@, nonzero_upto(v))]
                count_where(t@, nonzero_upto(v)) == count_where(s.take(i as int), nonzero_upto(v)),
        decreases s.len() - i,
    {
        let x = values[i];
        proof {
            assert(s.take(i + 1).drop_last() =~= s.take(i as int));
        }
        if x > 0 {
            let mut pos: usize = 0;
            while pos < t.len() && t[pos] < x
                invariant
                    pos <= t.len(),
                    sorted_nonzero(t@),
                    forall|m: int| 0 <= m < pos ==> t@[m] < x,
                decreases t.len() - pos,
            {
                pos = pos + 1;
            }
            let ghost old_t = t@;
            t.insert(pos, x);
            proof {
                assert(t@ =~= old_t.take(pos as int) + seq![x] + old_t.skip(pos as int));
                assert(old_t =~= old_t.take(pos as int) + old_t.skip(pos as int));
                assert forall|f: spec_fn(usize) -> bool|
                    f(x) || !f(x) implies #[trigger] count_where(t@, f) == count_where(old_t, f) + (if f(x) {
                        1nat
                    } else {
                        0nat
                    }) && count_where(s.take(i + 1), f) == count_where(s.take(i as int), f) + (if f(x) {
                        1nat
                    } else {
                        0nat
                    }) by {
                    lemma_count_split(old_t.take(pos as int) + seq![x], old_t.skip(pos as int), f);
                    lemma_count_split(old_t.take(pos as int), seq![x], f);
                    lemma_count_split(old_t.take(pos as int), old_t.skip(pos as int), f);
                    assert(seq![x].drop_last() =~= Seq::<usize>::empty());
                    assert(count_where(seq![x], f) == count_where(Seq::<usize>::empty(), f) + (if f(x) {
                        1nat
                    } else {
                        0nat
                    }));
                    assert(s.take(i + 1).last() == x);
                }
                assert(count_where(t@, nonzero()) == count_where(old_t, nonzero()) + 1);
                lemma_count_all(old_t, nonzero());
                lemma_count_all(t@, nonzero());
                assert forall|a: int, b: int| 0 <= a < b < t@.len() implies t@[a] <= t@[b] by {
                    if b < pos {
                    } else if a > pos {
                        assert(t@[a] == old_t[a - 1]);
                        assert(t@[b] == old_t[b - 1]);
                    } else if a == pos {
                        assert(t@[b] == old_t[b - 1]);
                        if b - 1 > pos {
                            assert(old_t[pos as int] <= old_t[b - 1]);
                        }
                    } else if b == pos {
                    } else {
                        assert(t@[b] == old_t[b - 1]);
                    }
                }
            }
        } else {
            proof {
                assert forall|f: spec_fn(usize) -> bool|
                    !f(0) implies #[trigger] count_where(s.take(i + 1), f) == count_where(
                        s.take(i as int),
                        f,
                    ) by {}
                assert(!nonzero()(0));
                assert forall|v: usize| !(#[trigger] nonzero_below(v))(0) by {}
                assert forall|v: usize| !(#[trigger] nonzero_upto(v))(0) by {}
            }
        }
        i = i + 1;
    }
    proof {
        assert(s.take(i as int) =~= s);
    }
    if t.len() == 0 {
        return None;
    }
    let n = t.len();
    let low = t[(n - 1) / 2];
    let high = t[n / 2];
    proof {
        lemma_sorted_kth(t@, (n - 1) / 2);
        lemma_sorted_kth(t@, n as int / 2);
        let nn = count_nonzero(s) as int;
        assert(nn == n);
        assert(count_where(t@, nonzero_below(low)) == count_where(s, nonzero_below(low)));
        assert(count_where(t@, nonzero_upto(low)) == count_where(s, nonzero_upto(low)));
        assert(count_where(t@, nonzero_below(high)) == count_where(s, nonzero_below(high)));
        assert(count_where(t@, nonzero_upto(high)) == count_where(s, nonzero_upto(high)));
        assert(is_kth_nonzero(s, (nn - 1) / 2, low));
        assert(is_kth_nonzero(s, nn / 2, high));
        let cl = choose|v: usize| #[trigger] is_kth_nonzero(s, (nn - 1) / 2, v);
        let ch = choose|v: usize| #[trigger] is_kth_nonzero(s, nn / 2, v);
        lemma_kth_unique(s, (nn - 1) / 2, low, cl);
        lemma_kth_unique(s, nn / 2, high, ch);
    }
    Some(Median { low, high })
}


/// A file or directory with the median size of its siblings, to be judged a
/// hotspot when its lines are large enough against that median.
#[derive(Debug, Clone)]
pub struct HotspotCandidate {
    pub path: String,
    pub lines: usize,
    /// The median lines of the siblings (itself included), zeros left out.
    pub baseline: Median,
    pub kind: HotspotKind,
}

impl View for HotspotCandidate {
    type V = (Seq<char>, usize, Median, HotspotKind);

    open spec fn view(&self) -> (Seq<char>, usize, Median, HotspotKind) {
        (self.path@, self.lines, self.baseline, self.kind)
    }
}

/// The lines of the files in `rs` whose directory is `dir`, in order.
pub open spec fn file_siblings(rs: Seq<FileRecord>, dir: Seq<char>) -> Seq<usize>
    decreases rs.len(),
{
    if rs.len() == 0 {
        Seq::empty()
    } else if parent(rs.last().path@) == dir {
        file_siblings(rs.drop_last(), dir).push(rs.last().lines)
    } else {
        file_siblings(rs.drop_last(), dir)
    }
}

/// The lines of the directories in `ds` whose parent is `dir`, in order;
/// the root is nobody's sibling.
pub open spec fn dir_siblings(ds: Seq<DirAggregate>, dir: Seq<char>) -> Seq<usize>
    decreases ds.len(),
{
    if ds.len() == 0 {
        Seq::empty()
    } else if ds.last().path@.len() > 0 && parent(ds.last().path@) == dir {
        dir_siblings(ds.drop_last(), dir).push(ds.last().lines)
    } else {
        dir_siblings(ds.drop_last(), dir)
    }
}

/// A group of siblings gives a baseline when it has two members or more and
/// one of them is not empty.
pub open spec fn baseline_of(siblings: Seq<usize>) -> Option<Median> {
    if siblings.len() < 2 {
        None
    } else {
        median_spec(siblings)
    }
}

/// The candidates among the first files of `rs` up to `n`, judged against
/// all of `rs`.
pub open spec fn file_candidates_upto(rs: Seq<FileRecord>, n: int) -> Seq<
    (Seq<char>, usize, Median, HotspotKind),
>
    decreases n,
{
    if n <= 0 || n > rs.len() {
        Seq::empty()
    } else {
        let r = rs[n - 1];
        let rest = file_candidates_upto(rs, n - 1);
        match baseline_of(file_siblings(rs, parent(r.path@))) {
            Some(m) => rest.push((r.path@, r.lines, m, HotspotKind::File)),
            None => rest,
        }
    }
}

/// The candidates among the first directories of `ds` up to `n`; the root
/// is never one.
pub open spec fn dir_candidates_upto(ds: Seq<DirAggregate>, n: int) -> Seq<
    (Seq<char>, usize, Median, HotspotKind),
>
    decreases n,
{
    if n <= 0 || n > ds.len() {
        Seq::empty()
    } else {
        let a = ds[n - 1];
        let rest = dir_candidates_upto(ds, n - 1);
        if a.path@.len() == 0 {
            rest
        } else {
            match baseline_of(dir_siblings(ds, parent(a.path@))) {
                Some(m) => rest.push((a.path@, a.lines, m, HotspotKind::Directory)),
                None => rest,
            }
        }
    }
}

/// `idx` lists, in increasing order, exactly the positions of `rs` whose
/// file lies in the directory `d`.
pub open spec fn positions_in_dir(rs: Seq<FileRecord>, d: Seq<char>, idx: Seq<int>) -> bool {
    &&& forall|k: int| 0 <= k < idx.len() ==> 0 <= #[trigger] idx[k] < rs.len() && parent(
        rs[idx[k]].path@,
    ) == d
    &&& forall|k: int, l: int| 0 <= k < l < idx.len() ==> #[trigger] idx[k] < #[trigger] idx[l]
    &&& forall|j: int|
        0 <= j < rs.len() && parent((#[trigger] rs[j]).path@) == d ==> exists|k: int|
            0 <= k < idx.len() && idx[k] == j
}

/// The siblings of a directory are the files whose own directory it is, and
/// no others: their lines, in the order of `rs`, are those at exactly the
/// positions of `rs` whose parent is `d`.
pub proof fn lemma_file_siblings_are_the_directory(rs: Seq<FileRecord>, d: Seq<char>)
    ensures
        exists|idx: Seq<int>|
            #[trigger] positions_in_dir(rs, d, idx) && file_siblings(rs, d).len() == idx.len()
                && forall|k: int|
                0 <= k < idx.len() ==> file_siblings(rs, d)[k] == rs[#[trigger] idx[k]].lines,
    decreases rs.len(),
{
    if rs.len() == 0 {
        assert(positions_in_dir(rs, d, Seq::<int>::empty()));
    } else {
        let init = rs.drop_last();
        lemma_file_siblings_are_the_directory(init, d);
        let idx0 = choose|idx: Seq<int>|
            #[trigger] positions_in_dir(init, d, idx) && file_siblings(init, d).len() == idx.len()
                && forall|k: int|
                0 <= k < idx.len() ==> file_siblings(init, d)[k] == init[#[trigger] idx[k]].lines;
        let n = rs.len() - 1;
        if parent(rs.last().path@) == d {
            let idx = idx0.push(n);
            assert forall|j: int|
                0 <= j < rs.len() && parent((#[trigger] rs[j]).path@) == d implies exists|k: int|
                0 <= k < idx.len() && idx[k] == j by {
                if j < n {
                    assert(init[j] == rs[j]);
                    let k = choose|k: int| 0 <= k < idx0.len() && idx0[k] == j;
                    assert(idx[k] == j);
                } else {
                    assert(idx[idx.len() - 1] == j);
                }
            }
            assert forall|k: int| 0 <= k < idx.len() implies 0 <= #[trigger] idx[k] < rs.len()
                && parent(rs[idx[k]].path@) == d by {
                if k < idx0.len() {
                    assert(idx[k] == idx0[k]);
                    assert(rs[idx0[k]] == init[idx0[k]]);
                }
            }
            assert forall|k: int| 0 <= k < idx.len() implies file_siblings(rs, d)[k]
                == rs[#[trigger] idx[k]].lines by {
                if k < idx0.len() {
                    assert(idx[k] == idx0[k]);
                    assert(rs[idx0[k]] == init[idx0[k]]);
                }
            }
            assert(positions_in_dir(rs, d, idx));
        } else {
            let idx = idx0;
            assert forall|j: int|
                0 <= j < rs.len() && parent((#[trigger] rs[j]).path@) == d implies exists|k: int|
                0 <= k < idx.len() && idx[k] == j by {
                assert(j < n);
                assert(init[j] == rs[j]);
            }
            assert forall|k: int| 0 <= k < idx.len() implies 0 <= #[trigger] idx[k] < rs.len()
                && parent(rs[idx[k]].path@) == d by {
                assert(rs[idx0[k]] == init[idx0[k]]);
            }
            assert forall|k: int| 0 <= k < idx.len() implies file_siblings(rs, d)[k]
                == rs[#[trigger] idx[k]].lines by {
                assert(rs[idx0[k]] == init[idx0[k]]);
            }
            assert(positions_in_dir(rs, d, idx));
        }
    }
}

/// Every file candidate comes from a file of `rs`: its path, lines and the
/// baseline of that file's own directory.
proof fn lemma_file_candidate_source(rs: Seq<FileRecord>, n: int, x: (Seq<char>, usize, Median, HotspotKind))
    requires
        file_candidates_upto(rs, n).contains(x),
    ensures
        exists|j: int|
            0 <= j < n && j < rs.len() && (#[trigger] rs[j]).path@ == x.0 && rs[j].lines == x.1
                && baseline_of(file_siblings(rs, parent(rs[j].path@))) == Some(x.2),
    decreases n,
{
    let c = file_candidates_upto(rs, n);
    let rest = file_candidates_upto(rs, n - 1);
    let k = choose|k: int| 0 <= k < c.len() && c[k] == x;
    if k < rest.len() {
        assert(rest[k] == x);
        assert(rest.contains(x));
        lemma_file_candidate_source(rs, n - 1, x);
    } else {
        assert(rs[n - 1].path@ == x.0);
    }
}

/// A file alone in its directory is never a candidate: with no other file
/// of `rs` in its directory, no candidate carries its path.
pub proof fn lemma_lone_file_no_candidate(rs: Seq<FileRecord>, i: int)
    requires
        0 <= i < rs.len(),
        forall|j: int|
            0 <= j < rs.len() && j != i ==> parent((#[trigger] rs[j]).path@) != parent(rs[i].path@),
    ensures
        file_siblings(rs, parent(rs[i].path@)).len() == 1,
        forall|k: int|
            0 <= k < file_candidates_upto(rs, rs.len() as int).len() ==> (#[trigger] file_candidates_upto(
                rs,
                rs.len() as int,
            )[k]).0 != rs[i].path@,
{
    let d = parent(rs[i].path@);
    lemma_file_siblings_are_the_directory(rs, d);
    let idx = choose|idx: Seq<int>|
        #[trigger] positions_in_dir(rs, d, idx) && file_siblings(rs, d).len() == idx.len()
            && forall|k: int| 0 <= k < idx.len() ==> file_siblings(rs, d)[k] == rs[#[trigger] idx[k]].lines;
    assert(exists|k: int| 0 <= k < idx.len() && idx[k] == i);
    if idx.len() > 1 {
        assert(idx[0] < idx[1]);
        assert(parent(rs[idx[0]].path@) == d);
        assert(parent(rs[idx[1]].path@) == d);
    }
    let c = file_candidates_upto(rs, rs.len() as int);
    assert forall|k: int| 0 <= k < c.len() implies (#[trigger] c[k]).0 != rs[i].path@ by {
        if c[k].0 == rs[i].path@ {
            assert(c.contains(c[k]));
            lemma_file_candidate_source(rs, rs.len() as int, c[k]);
            let j = choose|j: int|
                0 <= j < rs.len() && j < rs.len() && (#[trigger] rs[j]).path@ == c[k].0 && rs[j].lines
                    == c[k].1 && baseline_of(file_siblings(rs, parent(rs[j].path@))) == Some(c[k].2);
            assert(parent(rs[j].path@) == d);
            assert(j == i);
        }
    }
}

/// `idx` lists, in increasing order, exactly the positions of `ds` that hold
/// a directory other than the root whose parent is `d`.
pub open spec fn positions_under(ds: Seq<DirAggregate>, d: Seq<char>, idx: Seq<int>) -> bool {
    &&& forall|k: int| 0 <= k < idx.len() ==> 0 <= #[trigger] idx[k] < ds.len() && ds[idx[k]].path@.len()
        > 0 && parent(ds[idx[k]].path@) == d
    &&& forall|k: int, l: int| 0 <= k < l < idx.len() ==> #[trigger] idx[k] < #[trigger] idx[l]
    &&& forall|j: int|
        0 <= j < ds.len() && (#[trigger] ds[j]).path@.len() > 0 && parent(ds[j].path@) == d
            ==> exists|k: int| 0 <= k < idx.len() && idx[k] == j
}

/// The siblings under a directory are the directories other than the root
/// whose parent it is, and no others: their lines, in the order of `ds`, are
/// those at exactly those positions.
pub proof fn lemma_dir_siblings_are_the_children(ds: Seq<DirAggregate>, d: Seq<char>)
    ensures
        exists|idx: Seq<int>|
            #[trigger] positions_under(ds, d, idx) && dir_siblings(ds, d).len() == idx.len()
                && forall|k: int|
                0 <= k < idx.len() ==> dir_siblings(ds, d)[k] == ds[#[trigger] idx[k]].lines,
    decreases ds.len(),
{
    if ds.len() == 0 {
        assert(positions_under(ds, d, Seq::<int>::empty()));
    } else {
        let init = ds.drop_last();
        lemma_dir_siblings_are_the_children(init, d);
        let idx0 = choose|idx: Seq<int>|
            #[trigger] positions_under(init, d, idx) && dir_siblings(init, d).len() == idx.len()
                && forall|k: int|
                0 <= k < idx.len() ==> dir_siblings(init, d)[k] == init[#[trigger] idx[k]].lines;
        let n = ds.len() - 1;
        if ds.last().path@.len() > 0 && parent(ds.last().path@) == d {
            let idx = idx0.push(n);
            assert forall|j: int|
                0 <= j < ds.len() && (#[trigger] ds[j]).path@.len() > 0 && parent(ds[j].path@) == d
                    implies exists|k: int| 0 <= k < idx.len() && idx[k] == j by {
                if j < n {
                    assert(init[j] == ds[j]);
                    let k = choose|k: int| 0 <= k < idx0.len() && idx0[k] == j;
                    assert(idx[k] == j);
                } else {
                    assert(idx[idx.len() - 1] == j);
                }
            }
            assert forall|k: int| 0 <= k < idx.len() implies 0 <= #[trigger] idx[k] < ds.len()
                && ds[idx[k]].path@.len() > 0 && parent(ds[idx[k]].path@) == d by {
                if k < idx0.len() {
                    assert(idx[k] == idx0[k]);
                    assert(ds[idx0[k]] == init[idx0[k]]);
                }
            }
            assert forall|k: int| 0 <= k < idx.len() implies dir_siblings(ds, d)[k]
                == ds[#[trigger] idx[k]].lines by {
                if k < idx0.len() {
                    assert(idx[k] == idx0[k]);
                    assert(ds[idx0[k]] == init[idx0[k]]);
                }
            }
            assert(positions_under(ds, d, idx));
        } else {
            let idx = idx0;
            assert forall|j: int|
                0 <= j < ds.len() && (#[trigger] ds[j]).path@.len() > 0 && parent(ds[j].path@) == d
                    implies exists|k: int| 0 <= k < idx.len() && idx[k] == j by {
                assert(j < n);
                assert(init[j] == ds[j]);
            }
            assert forall|k: int| 0 <= k < idx.len() implies 0 <= #[trigger] idx[k] < ds.len()
                && ds[idx[k]].path@.len() > 0 && parent(ds[idx[k]].path@) == d by {
                assert(ds[idx0[k]] == init[idx0[k]]);
            }
            assert forall|k: int| 0 <= k < idx.len() implies dir_siblings(ds, d)[k]
                == ds[#[trigger] idx[k]].lines by {
                assert(ds[idx0[k]] == init[idx0[k]]);
            }
            assert(positions_under(ds, d, idx));
        }
    }
}

/// The baseline of a group of siblings, following [`baseline_of`].
fn baseline(siblings: &Vec<usize>) -> (r: Option<Median>)
    ensures
        r == baseline_of(siblings@),
{
    if siblings.len() < 2 {
        None
    } else {
        median_nonzero(siblings.as_slice())
    }
}

/// Every file of `records`, in order, that has a baseline among the files
/// of its own directory, with that baseline.
pub fn file_hotspot_candidates(records: &[FileRecord]) -> (r: Vec<HotspotCandidate>)
    ensures
        r@.map_values(|c: HotspotCandidate| c@) == file_candidates_upto(
            records@,
            records@.len() as int,
        ),
{
    let ghost rs = records@;
    let mut dirs: Vec<Vec<char>> = Vec::new();
    let mut k: usize = 0;
    while k < records.len()
        invariant
            rs == records@,
            k <= rs.len(),
            dirs@.len() == k,
            forall|m: int| 0 <= m < k ==> (#[trigger] dirs@[m])@ == parent(rs[m].path@),
        decreases rs.len() - k,
    {
        dirs.push(chars_of(parent_dir(records[k].path.as_str())));
        k = k + 1;
    }
    // The baseline of each directory met so far, with the index of a file
    // in it: the siblings are gathered once per directory.
    let mut known: Vec<usize> = Vec::new();
    let mut known_base: Vec<Option<Median>> = Vec::new();
    let mut out: Vec<HotspotCandidate> = Vec::new();
    let mut i: usize = 0;
    while i < records.len()
        invariant
            rs == records@,
            i <= rs.len(),
            dirs@.len() == rs.len(),
            forall|m: int| 0 <= m < rs.len() ==> (#[trigger] dirs@[m])@ == parent(rs[m].path@),
            known@.len() == known_base@.len(),
            forall|m: int|
                #![trigger known@[m]]
                0 <= m < known@.len() ==> known@[m] < rs.len() && known_base@[m] == baseline_of(
                    file_siblings(rs, parent(rs[known@[m] as int].path@)),
                ),
            out@.map_values(|c: HotspotCandidate| c@) == file_candidates_upto(rs, i as int),
        decreases rs.len() - i,
    {
        let ghost dir = parent(rs[i as int].path@);
        let mut found: Option<Option<Median>> = None;
        let mut m: usize = 0;
        while m < known.len()
            invariant_except_break
                found is None,
            invariant
                rs == records@,
                i < rs.len(),
                m <= known@.len(),
                dirs@.len() == rs.len(),
                forall|x: int| 0 <= x < rs.len() ==> (#[trigger] dirs@[x])@ == parent(rs[x].path@),
                known@.len() == known_base@.len(),
                forall|x: int|
                    #![trigger known@[x]]
                    0 <= x < known@.len() ==> known@[x] < rs.len() && known_base@[x] == baseline_of(
                        file_siblings(rs, parent(rs[known@[x] as int].path@)),
                    ),
                dir == parent(rs[i as int].path@),
            ensures
                found matches Some(b) ==> b == baseline_of(file_siblings(rs, dir)),
            decreases known@.len() - m,
        {
            if compare_chars(&dirs[known[m]], &dirs[i]) == Order::Equal {
                found = Some(known_base[m]);
                break;
            }
            m = m + 1;
        }
        let base = match found {
            Some(b) => b,
            None => {
                let mut sib: Vec<usize> = Vec::new();
                let mut j: usize = 0;
                while j < records.len()
                    invariant
                        rs == records@,
                        i < rs.len(),
                        j <= rs.len(),
                        dirs@.len() == rs.len(),
                        forall|m: int|
                            0 <= m < rs.len() ==> (#[trigger] dirs@[m])@ == parent(rs[m].path@),
                        dir == parent(rs[i as int].path@),
                        sib@ == file_siblings(rs.take(j as int), dir),
                    decreases rs.len() - j,
                {
                    proof {
                        assert(rs.take(j + 1).drop_last() =~= rs.take(j as int));
                    }
                    if compare_chars(&dirs[j], &dirs[i]) == Order::Equal {
                        sib.push(records[j].lines);
                    }
                    j = j + 1;
                }
                proof {
                    assert(rs.take(j as int) =~= rs);
                }
                let b = baseline(&sib);
                known.push(i);
                known_base.push(b);
                b
            },
        };
        let ghost before = out@;
        match base {
            Some(m) => {
                out.push(
                    HotspotCandidate {
                        path: records[i].path.clone(),
                        lines: records[i].lines,
                        baseline: m,
                        kind: HotspotKind::File,
                    },
                );
                proof {
                    assert(out@.map_values(|c: HotspotCandidate| c@) =~= before.map_values(
                        |c: HotspotCandidate| c@,
                    ).push(out@.last()@));
                }
            },
            None => {},
        }
        i = i + 1;
    }
    out
}

/// Every directory of `aggregates` but the root, in order, that has a
/// baseline among the directories sharing its parent, with that baseline.
pub fn dir_hotspot_candidates(aggregates: &[DirAggregate]) -> (r: Vec<HotspotCandidate>)
    ensures
        r@.map_values(|c: HotspotCandidate| c@) == dir_candidates_upto(
            aggregates@,
            aggregates@.len() as int,
        ),
{
    let ghost ds = aggregates@;
    let mut dirs: Vec<Vec<char>> = Vec::new();
    let mut k: usize = 0;
    while k < aggregates.len()
        invariant
            ds == aggregates@,
            k <= ds.len(),
            dirs@.len() == k,
            forall|m: int| 0 <= m < k ==> (#[trigger] dirs@[m])@ == parent(ds[m].path@),
        decreases ds.len() - k,
    {
        dirs.push(chars_of(parent_dir(aggregates[k].path.as_str())));
        k = k + 1;
    }
    // The baseline of each parent met so far, with the index of a directory
    // under it: the siblings are gathered once per parent.
    let mut known: Vec<usize> = Vec::new();
    let mut known_base: Vec<Option<Median>> = Vec::new();
    let mut out: Vec<HotspotCandidate> = Vec::new();
    let mut i: usize = 0;
    while i < aggregates.len()
        invariant
            ds == aggregates@,
            i <= ds.len(),
            dirs@.len() == ds.len(),
            forall|m: int| 0 <= m < ds.len() ==> (#[trigger] dirs@[m])@ == parent(ds[m].path@),
            known@.len() == known_base@.len(),
            forall|m: int|
                #![trigger known@[m]]
                0 <= m < known@.len() ==> known@[m] < ds.len() && known_base@[m] == baseline_of(
                    dir_siblings(ds, parent(ds[known@[m] as int].path@)),
                ),
            out@.map_values(|c: HotspotCandidate| c@) == dir_candidates_upto(ds, i as int),
        decreases ds.len() - i,
    {
        let is_root = aggregates[i].path.as_str().unicode_len() == 0;
        if !is_root {
            let ghost dir = parent(ds[i as int].path@);
            let mut found: Option<Option<Median>> = None;
            let mut m: usize = 0;
            while m < known.len()
                invariant_except_break
                    found is None,
                invariant
                    ds == aggregates@,
                    i < ds.len(),
                    m <= known@.len(),
                    dirs@.len() == ds.len(),
                    forall|x: int|
                        0 <= x < ds.len() ==> (#[trigger] dirs@[x])@ == parent(ds[x].path@),
                    known@.len() == known_base@.len(),
                    forall|x: int|
                        #![trigger known@[x]]
                        0 <= x < known@.len() ==> known@[x] < ds.len() && known_base@[x]
                            == baseline_of(dir_siblings(ds, parent(ds[known@[x] as int].path@))),
                    dir == parent(ds[i as int].path@),
                ensures
                    found matches Some(b) ==> b == baseline_of(dir_siblings(ds, dir)),
                decreases known@.len() - m,
            {
                if compare_chars(&dirs[known[m]], &dirs[i]) == Order::Equal {
                    found = Some(known_base[m]);
                    break;
                }
                m = m + 1;
            }
            let base = match found {
                Some(b) => b,
                None => {
                    let mut sib: Vec<usize> = Vec::new();
                    let mut j: usize = 0;
                    while j < aggregates.len()
                        invariant
                            ds == aggregates@,
                            i < ds.len(),
                            j <= ds.len(),
                            dirs@.len() == ds.len(),
                            forall|m: int|
                                0 <= m < ds.len() ==> (#[trigger] dirs@[m])@ == parent(
                                    ds[m].path@,
                                ),
                            dir == parent(ds[i as int].path@),
                            sib@ == dir_siblings(ds.take(j as int), dir),
                        decreases ds.len() - j,
                    {
                        proof {
                            assert(ds.take(j + 1).drop_last() =~= ds.take(j as int));
                        }
                        if aggregates[j].path.as_str().unicode_len() > 0 && compare_chars(
                            &dirs[j],
                            &dirs[i],
                        ) == Order::Equal {
                            sib.push(aggregates[j].lines);
                        }
                        j = j + 1;
                    }
                    proof {
                        assert(ds.take(j as int) =~= ds);
                    }
                    let b = baseline(&sib);
                    known.push(i);
                    known_base.push(b);
                    b
                },
            };
            let ghost before = out@;
            match base {
                Some(m) => {
                    out.push(
                        HotspotCandidate {
                            path: aggregates[i].path.clone(),
                            lines: aggregates[i].lines,
                            baseline: m,
                            kind: HotspotKind::Directory,
                        },
                    );
                    proof {
                        assert(out@.map_values(|c: HotspotCandidate| c@) =~= before.map_values(
                            |c: HotspotCandidate| c@,
                        ).push(out@.last()@));
                    }
                },
                None => {},
            }
        }
        i = i + 1;
    }
    out
}

} // verus!
