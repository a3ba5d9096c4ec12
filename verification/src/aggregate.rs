//! Per-directory totals: every directory on the path of a file counts that
//! file and its lines.

use vstd::prelude::*;
use crate::order::{compare_chars, lemma_lex_irreflexive, lemma_lex_transitive, lex_lt, Order};
use crate::text::{chars_of, count_char, prefix_of, string_of};
use crate::text::{rfind, rfind_below};
use crate::traverse::{parent, FileRecord};

verus! {

/// The totals of one directory.
#[derive(Debug, Clone)]
pub struct DirAggregate {
    /// The directory, `/`-separated; the empty string is the root.
    pub path: String,
    /// Files at any depth below the directory.
    pub files: usize,
    /// Lines of those files.
    pub lines: usize,
}

/// Directory `d` holds the file at `p`: `d` is the root, or a leading part of
/// `p` that a `/` follows.
pub open spec fn dir_holds(d: Seq<char>, p: Seq<char>) -> bool {
    d.len() == 0 || (d.len() < p.len() && p[d.len() as int] == '/' && p.take(d.len() as int) == d)
}

/// The number of files in `rs` that `d` holds.
pub open spec fn files_under(rs: Seq<FileRecord>, d: Seq<char>) -> nat
    decreases rs.len(),
{
    if rs.len() == 0 {
        0
    } else {
        files_under(rs.drop_last(), d) + if dir_holds(d, rs.last().path@) {
            1nat
        } else {
            0nat
        }
    }
}

/// The lines of the files in `rs` that `d` holds.
pub open spec fn lines_under(rs: Seq<FileRecord>, d: Seq<char>) -> nat
    decreases rs.len(),
{
    if rs.len() == 0 {
        0
    } else {
        lines_under(rs.drop_last(), d) + if dir_holds(d, rs.last().path@) {
            rs.last().lines as nat
        } else {
            0nat
        }
    }
}

/// The lines of all files in `rs`.
pub open spec fn total_lines(rs: Seq<FileRecord>) -> nat
    decreases rs.len(),
{
    if rs.len() == 0 {
        0
    } else {
        total_lines(rs.drop_last()) + rs.last().lines as nat
    }
}

/// The depth of a directory: 0 for the root, otherwise its number of
/// components.
pub open spec fn dir_depth(p: Seq<char>) -> nat {
    if p.len() == 0 {
        0
    } else {
        count_char(p, '/') + 1
    }
}

/// `d` is no deeper than `max_depth`, when that is given.
pub open spec fn within_depth(d: Seq<char>, max_depth: Option<usize>) -> bool {
    match max_depth {
        Some(m) => dir_depth(d) <= m,
        None => true,
    }
}

/// The depth of `path` (see [`dir_depth`]).
pub fn depth(path: &str) -> (r: usize)
    requires
        path@.len() < usize::MAX,
    ensures
        r == dir_depth(path@),
{
    let v = chars_of(path);
    if v.len() == 0 {
        return 0;
    }
    let mut n: usize = 0;
    let mut i: usize = 0;
    while i < v.len()
        invariant
            i <= v.len(),
            v@ == path@,
            n == count_char(v@.take(i as int), '/'),
            n <= i,
        decreases v.len() - i,
    {
        assert(v@.take(i + 1).drop_last() =~= v@.take(i as int));
        if v[i] == '/' {
            n = n + 1;
        }
        i = i + 1;
    }
    assert(v@.take(i as int) =~= v@);
    n + 1
}

/// A directory's totals while they are being summed.
struct DirEntry {
    path: Vec<char>,
    files: usize,
    lines: usize,
}

spec fn entry_matches(e: DirEntry, a: DirAggregate) -> bool {
    e.path@ == a.path@ && e.files == a.files && e.lines == a.lines
}

spec fn has_dir(es: Seq<DirEntry>, d: Seq<char>) -> bool {
    exists|m: int| 0 <= m < es.len() && (#[trigger] es[m]).path@ == d
}

spec fn sorted_entries(es: Seq<DirEntry>) -> bool {
    forall|i: int, j: int| 0 <= i < j < es.len() ==> lex_lt(es[i].path@, es[j].path@)
}

/// Adds one file of `l` lines to the entry of `d`, making the entry when there
/// is none.
fn add_to(es: &mut Vec<DirEntry>, d: Vec<char>, l: usize)
    requires
        sorted_entries(old(es)@),
        forall|n: int|
            0 <= n < old(es)@.len() && (#[trigger] old(es)@[n]).path@ == d@ ==> old(es)@[n].lines
                + l <= usize::MAX && old(es)@[n].files < usize::MAX,
    ensures
        sorted_entries(final(es)@),
        has_dir(final(es)@, d@),
        forall|n: int|
            0 <= n < old(es)@.len() ==> has_dir(final(es)@, (#[trigger] old(es)@[n]).path@),
        forall|m: int|
            0 <= m < final(es)@.len() && (#[trigger] final(es)@[m]).path@ != d@ ==> exists|n: int|
                0 <= n < old(es)@.len() && old(es)@[n] == final(es)@[m],
        forall|m: int|
            0 <= m < final(es)@.len() && (#[trigger] final(es)@[m]).path@ == d@ ==> {
                ||| exists|n: int|
                    0 <= n < old(es)@.len() && (#[trigger] old(es)@[n]).path@ == d@
                        && final(es)@[m].files == old(es)@[n].files + 1 && final(es)@[m].lines
                        == old(es)@[n].lines + l
                ||| !has_dir(old(es)@, d@) && final(es)@[m].files == 1 && final(es)@[m].lines
                    == l
            },
{
    let ghost old_es = es@;
    let mut lo: usize = 0;
    let mut hi: usize = es.len();
    while lo < hi
        invariant
            0 <= lo <= hi <= es.len(),
            es@ == old_es,
            old(es)@ == old_es,
            sorted_entries(es@),
            forall|m: int| 0 <= m < lo ==> lex_lt(es@[m].path@, d@),
            forall|m: int| hi <= m < es@.len() ==> lex_lt(d@, es@[m].path@),
            forall|n: int|
                0 <= n < old_es.len() && (#[trigger] old_es[n]).path@ == d@ ==> old_es[n].lines
                    + l <= usize::MAX && old_es[n].files < usize::MAX,
        decreases hi - lo,
    {
        let mid = lo + (hi - lo) / 2;
        match compare_chars(&es[mid].path, &d) {
            Order::Less => {
                assert forall|m: int| 0 <= m < mid + 1 implies lex_lt(es@[m].path@, d@) by {
                    if m < mid {
                        lemma_lex_transitive(es@[m].path@, es@[mid as int].path@, d@);
                    }
                }
                lo = mid + 1;
            },
            Order::Greater => {
                assert forall|m: int| mid <= m < es@.len() implies lex_lt(d@, es@[m].path@) by {
                    if m > mid {
                        lemma_lex_transitive(d@, es@[mid as int].path@, es@[m].path@);
                    }
                }
                hi = mid;
            },
            Order::Equal => {
                assert(old_es[mid as int].path@ == d@);
                let files = es[mid].files + 1;
                let lines = es[mid].lines + l;
                proof {
                    assert forall|m: int| 0 <= m < es@.len() && m != mid implies es@[m].path@
                        != d@ by {
                        lemma_lex_irreflexive(d@);
                        if m < mid {
                            assert(lex_lt(es@[m].path@, es@[mid as int].path@));
                        } else {
                            assert(lex_lt(es@[mid as int].path@, es@[m].path@));
                        }
                    }
                }
                es.set(mid, DirEntry { path: d, files, lines });
                assert forall|m: int| 0 <= m < es@.len() && (#[trigger] es@[m]).path@ != d@ implies exists|
                    n: int,
                | 0 <= n < old_es.len() && old_es[n] == es@[m] by {
                    assert(old_es[m] == es@[m]);
                }
                assert forall|n: int| 0 <= n < old_es.len() implies has_dir(es@, (#[trigger] old_es[n]).path@) by {
                    assert(es@[n].path@ == old_es[n].path@);
                }
                assert(es@[mid as int].path@ == d@);
                return ;
            },
        }
    }
    proof {
        lemma_lex_irreflexive(d@);
    }
    es.insert(lo, DirEntry { path: d, files: 1, lines: l });
    assert forall|m: int| 0 <= m < es@.len() && (#[trigger] es@[m]).path@ != d@ implies exists|n: int|
        0 <= n < old_es.len() && old_es[n] == es@[m] by {
        if m < lo {
            assert(old_es[m] == es@[m]);
        } else {
            assert(old_es[m - 1] == es@[m]);
        }
    }
    assert forall|n: int| 0 <= n < old_es.len() implies has_dir(es@, (#[trigger] old_es[n]).path@) by {
        if n < lo {
            assert(es@[n] == old_es[n]);
        } else {
            assert(es@[n + 1] == old_es[n]);
        }
    }
    assert(es@[lo as int].path@ == d@);
    assert forall|n: int| 0 <= n < old_es.len() implies (#[trigger] old_es[n]).path@ != d@ by {
        if n < lo {
        } else {
        }
    }
    assert forall|i: int, j: int| 0 <= i < j < es@.len() implies lex_lt(
        es@[i].path@,
        es@[j].path@,
    ) by {
        if i < lo && j == lo {
        } else if i == lo {
            assert(es@[j] == old_es[j - 1]);
        } else if j < lo {
        } else if i < lo {
            assert(es@[j] == old_es[j - 1]);
        } else {
            assert(es@[j] == old_es[j - 1]);
            assert(es@[i] == old_es[i - 1]);
        }
    }
}


/// Directory `d` is `p` cut before one of its `/` at index 1 up to `k - 1`.
spec fn cut_below(p: Seq<char>, k: int, d: Seq<char>) -> bool {
    exists|j: int| 1 <= j < k && j < p.len() && p[j] == '/' && d == #[trigger] p.take(j)
}

/// The entries are sorted and hold exactly the directories with a positive
/// file count, with the counts `files` and `lines`.
spec fn counted(
    es: Seq<DirEntry>,
    files: spec_fn(Seq<char>) -> nat,
    lines: spec_fn(Seq<char>) -> nat,
) -> bool {
    &&& sorted_entries(es)
    &&& forall|m: int|
        #![trigger es[m]]
        0 <= m < es.len() ==> es[m].files == files(es[m].path@) && es[m].lines == lines(
            es[m].path@,
        ) && files(es[m].path@) > 0
    &&& forall|d: Seq<char>| files(d) > 0 ==> #[trigger] has_dir(es, d)
}

proof fn lemma_add_step(
    old_es: Seq<DirEntry>,
    new_es: Seq<DirEntry>,
    q: Seq<char>,
    l: nat,
    fo: spec_fn(Seq<char>) -> nat,
    lo: spec_fn(Seq<char>) -> nat,
    fnew: spec_fn(Seq<char>) -> nat,
    lnew: spec_fn(Seq<char>) -> nat,
)
    requires
        counted(old_es, fo, lo),
        forall|d: Seq<char>| #[trigger] fo(d) == 0 ==> lo(d) == 0,
        forall|d: Seq<char>|
            #![trigger fnew(d)]
            #![trigger lnew(d)]
            fnew(d) == fo(d) + (if d == q {
                1nat
            } else {
                0nat
            }) && lnew(d) == lo(d) + (if d == q {
                l
            } else {
                0nat
            }),
        sorted_entries(new_es),
        has_dir(new_es, q),
        forall|n: int| 0 <= n < old_es.len() ==> has_dir(new_es, (#[trigger] old_es[n]).path@),
        forall|m: int|
            0 <= m < new_es.len() && (#[trigger] new_es[m]).path@ != q ==> exists|n: int|
                0 <= n < old_es.len() && old_es[n] == new_es[m],
        forall|m: int|
            0 <= m < new_es.len() && (#[trigger] new_es[m]).path@ == q ==> {
                ||| exists|n: int|
                    0 <= n < old_es.len() && (#[trigger] old_es[n]).path@ == q && new_es[m].files
                        == old_es[n].files + 1 && new_es[m].lines == old_es[n].lines + l
                ||| !has_dir(old_es, q) && new_es[m].files == 1 && new_es[m].lines == l
            },
    ensures
        counted(new_es, fnew, lnew),
{
    assert forall|m: int| 0 <= m < new_es.len() implies (#[trigger] new_es[m]).files == fnew(
        new_es[m].path@,
    ) && new_es[m].lines == lnew(new_es[m].path@) && fnew(new_es[m].path@) > 0 by {
        let e = new_es[m].path@;
        if e == q {
            if !has_dir(old_es, q) {
                assert(fo(q) == 0);
            } else {
                let n = choose|n: int|
                    0 <= n < old_es.len() && (#[trigger] old_es[n]).path@ == q
                        && new_es[m].files == old_es[n].files + 1 && new_es[m].lines
                        == old_es[n].lines + l;
                if exists|n: int|
                    0 <= n < old_es.len() && (#[trigger] old_es[n]).path@ == q
                        && new_es[m].files == old_es[n].files + 1 && new_es[m].lines
                        == old_es[n].lines + l {
                    assert(old_es[n].files == fo(q));
                } else {
                    assert(fo(q) == 0);
                }
            }
        } else {
            let n = choose|n: int| 0 <= n < old_es.len() && old_es[n] == new_es[m];
            assert(old_es[n].files == fo(old_es[n].path@));
        }
    }
    assert forall|d: Seq<char>| fnew(d) > 0 implies #[trigger] has_dir(new_es, d) by {
        if d != q {
            assert(fo(d) > 0);
            assert(has_dir(old_es, d));
            let n = choose|n: int| 0 <= n < old_es.len() && (#[trigger] old_es[n]).path@ == d;
            assert(has_dir(new_es, old_es[n].path@));
        }
    }
}

proof fn lemma_under_bounds(rs: Seq<FileRecord>, d: Seq<char>)
    ensures
        files_under(rs, d) <= rs.len(),
        lines_under(rs, d) <= total_lines(rs),
        files_under(rs, d) == 0 ==> lines_under(rs, d) == 0,
    decreases rs.len(),
{
    if rs.len() > 0 {
        lemma_under_bounds(rs.drop_last(), d);
    }
}

proof fn lemma_total_prefix(rs: Seq<FileRecord>, i: int)
    requires
        0 <= i <= rs.len(),
    ensures
        total_lines(rs.take(i)) <= total_lines(rs),
    decreases rs.len() - i,
{
    if i < rs.len() {
        lemma_total_prefix(rs, i + 1);
        assert(rs.take(i + 1).drop_last() =~= rs.take(i));
    } else {
        assert(rs.take(i) =~= rs);
    }
}

proof fn lemma_dir_holds_cut(p: Seq<char>, d: Seq<char>)
    ensures
        dir_holds(d, p) <==> (d.len() == 0 || cut_below(p, p.len() as int, d)),
{
    if d.len() > 0 && dir_holds(d, p) {
        assert(p.take(d.len() as int) == d);
    }
}

/// `dir_depth(v) <= max`.
fn depth_within(v: &Vec<char>, max: usize) -> (r: bool)
    ensures
        r == (dir_depth(v@) <= max),
{
    if v.len() == 0 {
        return true;
    }
    if max == 0 {
        return false;
    }
    let mut n: usize = 0;
    let mut i: usize = 0;
    while i < v.len()
        invariant
            i <= v.len(),
            n == count_char(v@.take(i as int), '/'),
            n < max,
        decreases v.len() - i,
    {
        assert(v@.take(i + 1).drop_last() =~= v@.take(i as int));
        if v[i] == '/' {
            n = n + 1;
            if n >= max {
                proof {
                    lemma_count_char_prefix(v@, i + 1);
                }
                return false;
            }
        }
        i = i + 1;
    }
    assert(v@.take(i as int) =~= v@);
    true
}

proof fn lemma_count_char_prefix(s: Seq<char>, i: int)
    requires
        0 <= i <= s.len(),
    ensures
        count_char(s.take(i), '/') <= count_char(s, '/'),
    decreases s.len() - i,
{
    if i < s.len() {
        lemma_count_char_prefix(s, i + 1);
        assert(s.take(i + 1).drop_last() =~= s.take(i));
    } else {
        assert(s.take(i) =~= s);
    }
}

/// The entries of `es` no deeper than `max_depth`, in order, as results.
fn select_within(es: &Vec<DirEntry>, max_depth: Option<usize>) -> (out: Vec<DirAggregate>)
    requires
        sorted_entries(es@),
    ensures
        forall|x: int, y: int| 0 <= x < y < out.len() ==> lex_lt(out[x].path@, out[y].path@),
        forall|x: int|
            #![trigger out[x]]
            0 <= x < out.len() ==> within_depth(out[x].path@, max_depth) && exists|n: int|
                0 <= n < es@.len() && entry_matches(#[trigger] es@[n], out[x]),
        forall|n: int|
            #![trigger es@[n]]
            0 <= n < es@.len() && within_depth(es@[n].path@, max_depth) ==> exists|x: int|
                0 <= x < out.len() && out[x].path@ == es@[n].path@,
{
    let mut out: Vec<DirAggregate> = Vec::new();
    let ghost mut src: Seq<int> = Seq::empty();
    let mut m: usize = 0;
    while m < es.len()
        invariant
            m <= es.len(),
            sorted_entries(es@),
            src.len() == out.len(),
            forall|x: int|
                #![trigger src[x]]
                0 <= x < src.len() ==> 0 <= src[x] < m && es@[src[x]].path@ == out[x].path@
                    && es@[src[x]].files == out[x].files && es@[src[x]].lines == out[x].lines
                    && within_depth(out[x].path@, max_depth),
            forall|x: int, y: int| 0 <= x < y < src.len() ==> src[x] < src[y],
            forall|n: int|
                #![trigger es@[n]]
                0 <= n < m && within_depth(es@[n].path@, max_depth) ==> exists|x: int|
                    0 <= x < src.len() && src[x] == n,
        decreases es.len() - m,
    {
        let keep = match max_depth {
            Some(max) => depth_within(&es[m].path, max),
            None => true,
        };
        if keep {
            let d = DirAggregate {
                path: string_of(&es[m].path),
                files: es[m].files,
                lines: es[m].lines,
            };
            out.push(d);
            proof {
                let old_src = src;
                src = src.push(m as int);
                assert forall|x: int| 0 <= x < src.len() implies 0 <= #[trigger] src[x] < m + 1
                    && es@[src[x]].path@ == out[x].path@ && es@[src[x]].files == out[x].files
                    && es@[src[x]].lines == out[x].lines && within_depth(out[x].path@, max_depth) by {
                    if x < old_src.len() {
                        assert(src[x] == old_src[x]);
                    }
                }
                assert forall|n: int|
                    0 <= n < m + 1 && within_depth((#[trigger] es@[n]).path@, max_depth) implies exists|
                    x: int,
                | 0 <= x < src.len() && src[x] == n by {
                    if n < m {
                        let x = choose|x: int| 0 <= x < old_src.len() && old_src[x] == n;
                        assert(src[x] == n);
                    } else {
                        assert(src[src.len() - 1] == n);
                    }
                }
            }
        }
        m = m + 1;
    }
    assert forall|x: int, y: int| 0 <= x < y < out.len() implies lex_lt(out[x].path@, out[y].path@) by {
        assert(src[x] < src[y]);
        assert(es@[src[x]].path@ == out[x].path@);
        assert(es@[src[y]].path@ == out[y].path@);
    }
    assert forall|x: int| 0 <= x < out.len() implies within_depth((#[trigger] out[x]).path@, max_depth)
        && exists|n: int| 0 <= n < es@.len() && entry_matches(#[trigger] es@[n], out[x]) by {
        let n = src[x];
        assert(entry_matches(es@[n], out[x]));
    }
    assert forall|n: int|
        0 <= n < es@.len() && within_depth((#[trigger] es@[n]).path@, max_depth) implies exists|x: int|
        0 <= x < out.len() && out[x].path@ == es@[n].path@ by {
        let x = choose|x: int| 0 <= x < src.len() && src[x] == n;
        assert(out[x].path@ == es@[n].path@);
    }
    out
}

/// `r` lists, in ascending order of path, every directory that holds one of
/// `rs` and is no deeper than `max_depth` when that is given, each with the
/// number and the lines of the files it holds.
pub open spec fn aggregated(rs: Seq<FileRecord>, max_depth: Option<usize>, r: Seq<DirAggregate>) -> bool {
    &&& forall|i: int, j: int| 0 <= i < j < r.len() ==> lex_lt(r[i].path@, r[j].path@)
    &&& forall|i: int|
        #![trigger r[i]]
        0 <= i < r.len() ==> files_under(rs, r[i].path@) > 0 && within_depth(r[i].path@, max_depth)
            && r[i].files == files_under(rs, r[i].path@) && r[i].lines == lines_under(
            rs,
            r[i].path@,
        )
    &&& forall|d: Seq<char>|
        files_under(rs, d) > 0 && within_depth(d, max_depth) ==> exists|i: int|
            0 <= i < r.len() && (#[trigger] r[i]).path@ == d
}

/// The totals of every directory that holds one of `records`, no deeper
/// than `max_depth` when that is given, in ascending order of path.
pub fn aggregate(records: &[FileRecord], max_depth: Option<usize>) -> (r: Vec<DirAggregate>)
    requires
        total_lines(records@) <= usize::MAX,
    ensures
        aggregated(records@, max_depth, r@),
{
    let ghost rs = records@;
    let num = records.len();
    let mut es: Vec<DirEntry> = Vec::new();
    let mut i: usize = 0;
    while i < records.len()
        invariant
            rs == records@,
            i <= rs.len(),
            rs.len() <= usize::MAX,
            total_lines(rs) <= usize::MAX,
            counted(
                es@,
                |d: Seq<char>| files_under(rs.take(i as int), d),
                |d: Seq<char>| lines_under(rs.take(i as int), d),
            ),
        decreases rs.len() - i,
    {
        let p = chars_of(records[i].path.as_str());
        let l = records[i].lines;
        let ghost fo = |d: Seq<char>| files_under(rs.take(i as int), d);
        let ghost lo = |d: Seq<char>| lines_under(rs.take(i as int), d);
        proof {
            assert(rs.take(i + 1).drop_last() =~= rs.take(i as int));
            assert(rs.take(i + 1).last() == rs[i as int]);
            lemma_total_prefix(rs, i + 1);
            assert forall|d: Seq<char>| #[trigger] fo(d) == 0 implies lo(d) == 0 by {
                lemma_under_bounds(rs.take(i as int), d);
            }
        }
        let mut k: usize = 1;
        while k < p.len()
            invariant
                rs == records@,
                i < rs.len(),
                rs.len() <= usize::MAX,
                p@ == rs[i as int].path@,
                l == rs[i as int].lines,
                1 <= k,
                k <= p.len() || k == 1,
                total_lines(rs.take(i + 1)) <= usize::MAX,
                rs.take(i + 1).drop_last() == rs.take(i as int),
                rs.take(i + 1).last() == rs[i as int],
                forall|d: Seq<char>| #[trigger] fo(d) == 0 ==> lo(d) == 0,
                fo == (|d: Seq<char>| files_under(rs.take(i as int), d)),
                lo == (|d: Seq<char>| lines_under(rs.take(i as int), d)),
                counted(
                    es@,
                    |d: Seq<char>|
                        fo(d) + if cut_below(p@, k as int, d) {
                            1nat
                        } else {
                            0nat
                        },
                    |d: Seq<char>|
                        lo(d) + if cut_below(p@, k as int, d) {
                            l as nat
                        } else {
                            0nat
                        },
                ),
            decreases p.len() - k,
        {
            let ghost f1 = |d: Seq<char>|
                fo(d) + if cut_below(p@, k as int, d) {
                    1nat
                } else {
                    0nat
                };
            let ghost l1 = |d: Seq<char>|
                lo(d) + if cut_below(p@, k as int, d) {
                    l as nat
                } else {
                    0nat
                };
            let ghost f2 = |d: Seq<char>|
                fo(d) + if cut_below(p@, k + 1, d) {
                    1nat
                } else {
                    0nat
                };
            let ghost l2 = |d: Seq<char>|
                lo(d) + if cut_below(p@, k + 1, d) {
                    l as nat
                } else {
                    0nat
                };
            if p[k] == '/' {
                let q = prefix_of(&p, k);
                let ghost old_es = es@;
                proof {
                    assert(!cut_below(p@, k as int, q@)) by {
                        if cut_below(p@, k as int, q@) {
                            let j = choose|j: int|
                                1 <= j < k && j < p@.len() && p@[j] == '/' && q@ == #[trigger] p@.take(j);
                            assert(q@.len() == j);
                        }
                    }
                    assert(dir_holds(q@, p@));
                    lemma_under_bounds(rs.take(i + 1), q@);
                    lemma_under_bounds(rs.take(i as int), q@);
                    assert(lines_under(rs.take(i + 1), q@) == lines_under(rs.take(i as int), q@) + l);
                    assert forall|n: int|
                        0 <= n < es@.len() && (#[trigger] es@[n]).path@ == q@ implies es@[n].lines + l
                        <= usize::MAX && es@[n].files < usize::MAX by {
                        assert(counted(es@, f1, l1));
                        assert(es@[n].files == f1(q@));
                        assert(es@[n].lines == l1(q@));
                        assert(f1(q@) == fo(q@));
                        assert(l1(q@) == lo(q@));
                        assert(lo(q@) + l <= usize::MAX);
                        assert(fo(q@) < usize::MAX);
                    }
                }
                add_to(&mut es, q, l);
                proof {
                    assert forall|d: Seq<char>|
                        #![trigger f2(d)]
                        #![trigger l2(d)]
                        f2(d) == f1(d) + (if d == q@ {
                            1nat
                        } else {
                            0nat
                        }) && l2(d) == l1(d) + (if d == q@ {
                            l as nat
                        } else {
                            0nat
                        }) by {
                        if d == q@ {
                            assert(cut_below(p@, k + 1, d)) by {
                                assert(d == p@.take(k as int));
                            }
                            assert(!cut_below(p@, k as int, q@)) by {
                                if cut_below(p@, k as int, q@) {
                                    let j = choose|j: int|
                                        1 <= j < k && j < p@.len() && p@[j] == '/' && q@
                                            == #[trigger] p@.take(j);
                                    assert(q@.len() == j);
                                }
                            }
                        } else {
                            if cut_below(p@, k + 1, d) {
                                let j = choose|j: int|
                                    1 <= j < k + 1 && j < p@.len() && p@[j] == '/' && d
                                        == #[trigger] p@.take(j);
                                assert(j != k);
                                assert(cut_below(p@, k as int, d));
                            }
                        }
                    }
                    assert forall|d: Seq<char>| #[trigger] f1(d) == 0 implies l1(d) == 0 by {}
                    lemma_add_step(old_es, es@, q@, l as nat, f1, l1, f2, l2);
                }
            } else {
                proof {
                    assert forall|d: Seq<char>| cut_below(p@, k + 1, d) == cut_below(
                        p@,
                        k as int,
                        d,
                    ) by {
                        if cut_below(p@, k + 1, d) {
                            let j = choose|j: int|
                                1 <= j < k + 1 && j < p@.len() && p@[j] == '/' && d
                                    == #[trigger] p@.take(j);
                            assert(j != k);
                        }
                    }
                    assert(f1 =~= f2);
                    assert(l1 =~= l2);
                }
            }
            k = k + 1;
        }
        let ghost kf: int = if p.len() == 0 {
            1
        } else {
            p.len() as int
        };
        let ghost f1 = |d: Seq<char>|
            fo(d) + if cut_below(p@, kf, d) {
                1nat
            } else {
                0nat
            };
        let ghost l1 = |d: Seq<char>|
            lo(d) + if cut_below(p@, kf, d) {
                l as nat
            } else {
                0nat
            };
        let ghost fi = |d: Seq<char>| files_under(rs.take(i + 1), d);
        let ghost li = |d: Seq<char>| lines_under(rs.take(i + 1), d);
        let ghost old_es = es@;
        let root: Vec<char> = Vec::new();
        proof {
            assert(k == kf);
            assert forall|d: Seq<char>| cut_below(p@, kf, d) == cut_below(p@, p@.len() as int, d) by {
            }
            assert(!cut_below(p@, kf, root@)) by {
                if cut_below(p@, kf, root@) {
                    let j = choose|j: int|
                        1 <= j < kf && j < p@.len() && p@[j] == '/' && root@ == #[trigger] p@.take(j);
                    assert(root@.len() == j);
                }
            }
            lemma_under_bounds(rs.take(i + 1), root@);
            lemma_under_bounds(rs.take(i as int), root@);
            assert(dir_holds(root@, p@));
            assert(lines_under(rs.take(i + 1), root@) == lines_under(rs.take(i as int), root@) + l);
            assert forall|n: int|
                0 <= n < es@.len() && (#[trigger] es@[n]).path@ == root@ implies es@[n].lines + l
                <= usize::MAX && es@[n].files < usize::MAX by {
                assert(es@[n].files == f1(root@));
                assert(es@[n].lines == l1(root@));
            }
        }
        add_to(&mut es, root, l);
        proof {
            assert forall|d: Seq<char>|
                #![trigger fi(d)]
                #![trigger li(d)]
                fi(d) == f1(d) + (if d == root@ {
                    1nat
                } else {
                    0nat
                }) && li(d) == l1(d) + (if d == root@ {
                    l as nat
                } else {
                    0nat
                }) by {
                lemma_dir_holds_cut(p@, d);
                assert(rs.take(i + 1).last().path@ == p@);
                assert(files_under(rs.take(i + 1), d) == files_under(rs.take(i as int), d) + (if dir_holds(d, p@) {
                    1nat
                } else {
                    0nat
                }));
                assert(lines_under(rs.take(i + 1), d) == lines_under(rs.take(i as int), d) + (if dir_holds(d, p@) {
                    l as nat
                } else {
                    0nat
                }));
                assert(cut_below(p@, kf, d) == cut_below(p@, p@.len() as int, d));
                if d == root@ {
                    assert(!cut_below(p@, kf, d)) by {
                        if cut_below(p@, kf, d) {
                            let j = choose|j: int|
                                1 <= j < kf && j < p@.len() && p@[j] == '/' && d == #[trigger] p@.take(j);
                            assert(d.len() == j);
                        }
                    }
                } else if d.len() == 0 {
                    assert(d =~= root@);
                }
            }
            assert forall|d: Seq<char>| #[trigger] f1(d) == 0 implies l1(d) == 0 by {}
            lemma_add_step(old_es, es@, root@, l as nat, f1, l1, fi, li);
        }
        i = i + 1;
    }
    assert(rs.take(i as int) =~= rs);
    let out = select_within(&es, max_depth);
    assert forall|d: Seq<char>|
        files_under(records@, d) > 0 && within_depth(d, max_depth) implies exists|i: int|
        0 <= i < out.len() && (#[trigger] out[i]).path@ == d by {
        assert(has_dir(es@, d));
        let n = choose|n: int| 0 <= n < es@.len() && (#[trigger] es@[n]).path@ == d;
        assert(within_depth(es@[n].path@, max_depth));
    }
    assert forall|i: int| 0 <= i < out.len() implies files_under(records@, (#[trigger] out[i]).path@) > 0
        && within_depth(out[i].path@, max_depth) && out[i].files == files_under(
        records@,
        out[i].path@,
    ) && out[i].lines == lines_under(records@, out[i].path@) by {
        let n = choose|n: int| 0 <= n < es@.len() && entry_matches(#[trigger] es@[n], out[i]);
        assert(es@[n].files == files_under(rs, es@[n].path@));
    }
    out
}


/// `d` is `s` or a directory reached from `s` by taking the parent again and
/// again, down to the root.
pub open spec fn on_parent_chain(d: Seq<char>, s: Seq<char>) -> bool
    decreases s.len(),
    via on_parent_chain_decreases
{
    d == s || (s.len() > 0 && on_parent_chain(d, parent(s)))
}

#[via_fn]
proof fn on_parent_chain_decreases(d: Seq<char>, s: Seq<char>) {
    if s.len() > 0 {
        lemma_rfind(s, '/', s.len() as int);
    }
}

proof fn lemma_rfind(s: Seq<char>, c: char, n: int)
    requires
        0 <= n <= s.len(),
    ensures
        rfind_below(s, c, n) matches Some(k) ==> 0 <= k < n && s[k] == c && forall|m: int|
            k < m < n ==> s[m] != c,
        rfind_below(s, c, n) is None ==> forall|m: int| 0 <= m < n ==> s[m] != c,
    decreases n,
{
    if n > 0 && s[n - 1] != c {
        lemma_rfind(s, c, n - 1);
    }
}

/// A directory holds a file exactly when it is the file's own directory or
/// holds that directory.
proof fn lemma_holds_step(d: Seq<char>, s: Seq<char>)
    ensures
        dir_holds(d, s) <==> (d == parent(s) || dir_holds(d, parent(s))),
{
    lemma_rfind(s, '/', s.len() as int);
    match rfind(s, '/') {
        None => {
            assert(parent(s) =~= Seq::<char>::empty());
            if d.len() == 0 {
                assert(d =~= parent(s));
            }
        },
        Some(k) => {
            let ps = s.take(k);
            assert(parent(s) == ps);
            if dir_holds(d, s) && d.len() > 0 {
                let m = d.len() as int;
                assert(s[m] == '/');
                assert(m <= k);
                if m < k {
                    assert(ps[m] == s[m]);
                    assert(ps.take(m) =~= s.take(m));
                } else {
                    assert(d =~= ps);
                }
            }
            if d == ps {
                if k > 0 {
                    assert(dir_holds(d, s));
                } else {
                    assert(d.len() == 0);
                }
            }
            if dir_holds(d, ps) && d.len() > 0 {
                let m = d.len() as int;
                assert(s[m] == ps[m]);
                assert(s.take(m) =~= ps.take(m));
            }
        },
    }
}

proof fn lemma_chain(d: Seq<char>, s: Seq<char>)
    ensures
        on_parent_chain(d, s) <==> (d == s || dir_holds(d, s)),
    decreases s.len(),
{
    if s.len() == 0 {
        if dir_holds(d, s) {
            assert(d =~= s);
        }
    } else {
        lemma_rfind(s, '/', s.len() as int);
        lemma_chain(d, parent(s));
        lemma_holds_step(d, s);
    }
}

/// The directories that hold a file are exactly those met by walking up from
/// the file's own directory through `parent` until the root.
pub proof fn lemma_holds_iff_on_parent_chain(d: Seq<char>, p: Seq<char>)
    ensures
        dir_holds(d, p) <==> on_parent_chain(d, parent(p)),
{
    lemma_chain(d, parent(p));
    lemma_holds_step(d, p);
}

/// The root holds every file: its totals are those of all files.
pub proof fn lemma_root_totals(rs: Seq<FileRecord>)
    ensures
        files_under(rs, Seq::empty()) == rs.len(),
        lines_under(rs, Seq::empty()) == total_lines(rs),
    decreases rs.len(),
{
    if rs.len() > 0 {
        lemma_root_totals(rs.drop_last());
    }
}

/// A directory other than the root counts no more files or lines than its
/// parent.
pub proof fn lemma_parent_totals(rs: Seq<FileRecord>, d: Seq<char>)
    requires
        d.len() > 0,
    ensures
        files_under(rs, d) <= files_under(rs, parent(d)),
        lines_under(rs, d) <= lines_under(rs, parent(d)),
    decreases rs.len(),
{
    if rs.len() > 0 {
        lemma_parent_totals(rs.drop_last(), d);
        let p = rs.last().path@;
        if dir_holds(d, p) {
            lemma_holds_iff_on_parent_chain(d, p);
            lemma_chain(parent(d), d);
            lemma_holds_iff_on_parent_chain(parent(d), p);
            lemma_holds_step(parent(d), p);
            lemma_chain(d, parent(p));
            lemma_chain(parent(d), parent(p));
            lemma_rfind(d, '/', d.len() as int);
            if !dir_holds(parent(d), p) {
                lemma_holds_step(d, p);
                lemma_parent_of_holder(d, p);
            }
        }
    }
}

proof fn lemma_parent_of_holder(d: Seq<char>, p: Seq<char>)
    requires
        d.len() > 0,
        dir_holds(d, p),
    ensures
        dir_holds(parent(d), p),
{
    lemma_rfind(d, '/', d.len() as int);
    match rfind(d, '/') {
        None => {
            assert(parent(d).len() == 0);
        },
        Some(k) => {
            assert(parent(d) == d.take(k));
            if k > 0 {
                assert(p[k] == d[k]);
                assert(p.take(k) =~= d.take(k));
            }
        },
    }
}

/// A row of the aggregation as plain values: path, files and lines.
pub open spec fn row(a: DirAggregate) -> (Seq<char>, usize, usize) {
    (a.path@, a.files, a.lines)
}

/// The rows of `s`, in order.
pub open spec fn rows(s: Seq<DirAggregate>) -> Seq<(Seq<char>, usize, usize)> {
    s.map_values(|a: DirAggregate| row(a))
}

/// The rows of `s` no deeper than `d`, in order.
pub open spec fn rows_within(s: Seq<DirAggregate>, d: usize) -> Seq<(Seq<char>, usize, usize)>
    decreases s.len(),
{
    if s.len() == 0 {
        Seq::empty()
    } else if dir_depth(s.last().path@) <= d {
        rows_within(s.drop_last(), d).push(row(s.last()))
    } else {
        rows_within(s.drop_last(), d)
    }
}

/// Rows in strictly ascending order of path.
pub open spec fn rows_ascending(t: Seq<(Seq<char>, usize, usize)>) -> bool {
    forall|i: int, j: int| 0 <= i < j < t.len() ==> lex_lt(#[trigger] t[i].0, #[trigger] t[j].0)
}

proof fn lemma_rows_within(s: Seq<DirAggregate>, d: usize)
    requires
        forall|i: int, j: int| 0 <= i < j < s.len() ==> lex_lt(s[i].path@, s[j].path@),
    ensures
        rows_ascending(rows_within(s, d)),
        forall|x: (Seq<char>, usize, usize)|
            #[trigger] rows_within(s, d).contains(x) <==> exists|j: int|
                0 <= j < s.len() && row(#[trigger] s[j]) == x && dir_depth(s[j].path@) <= d,
    decreases s.len(),
{
    if s.len() > 0 {
        let init = s.drop_last();
        let last = s.last();
        lemma_rows_within(init, d);
        let before = rows_within(init, d);
        assert forall|x: (Seq<char>, usize, usize)|
            #[trigger] rows_within(s, d).contains(x) <==> exists|j: int|
                0 <= j < s.len() && row(#[trigger] s[j]) == x && dir_depth(s[j].path@) <= d by {
            if rows_within(s, d).contains(x) {
                let k = choose|k: int| 0 <= k < rows_within(s, d).len() && rows_within(s, d)[k] == x;
                if k < before.len() {
                    assert(before[k] == x);
                    assert(before.contains(x));
                    let j = choose|j: int|
                        0 <= j < init.len() && row(#[trigger] init[j]) == x && dir_depth(
                            init[j].path@,
                        ) <= d;
                    assert(s[j] == init[j]);
                } else {
                    assert(s[s.len() - 1] == last);
                }
            }
            if exists|j: int| 0 <= j < s.len() && row(#[trigger] s[j]) == x && dir_depth(s[j].path@) <= d {
                let j = choose|j: int|
                    0 <= j < s.len() && row(#[trigger] s[j]) == x && dir_depth(s[j].path@) <= d;
                if j < s.len() - 1 {
                    assert(init[j] == s[j]);
                    assert(before.contains(x));
                    let k = choose|k: int| 0 <= k < before.len() && before[k] == x;
                    assert(rows_within(s, d)[k] == x);
                } else {
                    assert(rows_within(s, d)[rows_within(s, d).len() - 1] == x);
                }
            }
        }
        let t = rows_within(s, d);
        assert forall|i: int, j: int| 0 <= i < j < t.len() implies lex_lt(#[trigger] t[i].0, #[trigger] t[j].0) by {
            if j < before.len() {
                assert(t[i] == before[i] && t[j] == before[j]);
            } else {
                assert(t[i] == before[i]);
                assert(before.contains(before[i]));
                let m = choose|m: int|
                    0 <= m < init.len() && row(#[trigger] init[m]) == before[i] && dir_depth(
                        init[m].path@,
                    ) <= d;
                assert(s[m] == init[m]);
                assert(lex_lt(s[m].path@, s[s.len() - 1].path@));
            }
        }
    }
}

/// Two ascending sequences of rows that hold the same rows are equal.
proof fn lemma_ascending_unique(a: Seq<(Seq<char>, usize, usize)>, b: Seq<(Seq<char>, usize, usize)>)
    requires
        rows_ascending(a),
        rows_ascending(b),
        forall|x: (Seq<char>, usize, usize)| a.contains(x) <==> b.contains(x),
    ensures
        a == b,
    decreases a.len() + b.len(),
{
    if a.len() == 0 {
        if b.len() > 0 {
            assert(b.contains(b[0]));
        }
        assert(a =~= b);
    } else if b.len() == 0 {
        assert(a.contains(a[0]));
    } else {
        assert(a.contains(a[0]));
        assert(b.contains(b[0]));
        let j = choose|j: int| 0 <= j < b.len() && b[j] == a[0];
        let i = choose|i: int| 0 <= i < a.len() && a[i] == b[0];
        lemma_lex_irreflexive(a[0].0);
        lemma_lex_irreflexive(b[0].0);
        if i > 0 && j > 0 {
            assert(lex_lt(a[0].0, a[i].0));
            assert(lex_lt(b[0].0, b[j].0));
            lemma_lex_transitive(a[0].0, b[0].0, a[0].0);
        }
        assert(a[0] == b[0]);
        let ra = a.drop_first();
        let rb = b.drop_first();
        assert forall|x: (Seq<char>, usize, usize)| ra.contains(x) <==> rb.contains(x) by {
            if ra.contains(x) {
                let k = choose|k: int| 0 <= k < ra.len() && ra[k] == x;
                assert(a[k + 1] == x);
                assert(a.contains(x));
                let m = choose|m: int| 0 <= m < b.len() && b[m] == x;
                if m == 0 {
                    assert(lex_lt(a[0].0, a[k + 1].0));
                }
                assert(rb[m - 1] == x);
            }
            if rb.contains(x) {
                let k = choose|k: int| 0 <= k < rb.len() && rb[k] == x;
                assert(b[k + 1] == x);
                assert(b.contains(x));
                let m = choose|m: int| 0 <= m < a.len() && a[m] == x;
                if m == 0 {
                    assert(lex_lt(b[0].0, b[k + 1].0));
                }
                assert(ra[m - 1] == x);
            }
        }
        assert forall|p: int, q: int| 0 <= p < q < ra.len() implies lex_lt(#[trigger] ra[p].0, #[trigger] ra[q].0) by {
            assert(ra[p] == a[p + 1] && ra[q] == a[q + 1]);
        }
        assert forall|p: int, q: int| 0 <= p < q < rb.len() implies lex_lt(#[trigger] rb[p].0, #[trigger] rb[q].0) by {
            assert(rb[p] == b[p + 1] && rb[q] == b[q + 1]);
        }
        lemma_ascending_unique(ra, rb);
        assert(a =~= seq![a[0]] + ra);
        assert(b =~= seq![b[0]] + rb);
    }
}

/// A depth limit only leaves rows out: with a limit, the aggregation is
/// exactly the rows of the unlimited one that are no deeper than the limit,
/// in the same order and with the same counts.
pub proof fn lemma_max_depth_only_drops_rows(
    rs: Seq<FileRecord>,
    d: usize,
    all: Seq<DirAggregate>,
    cut: Seq<DirAggregate>,
)
    requires
        aggregated(rs, None, all),
        aggregated(rs, Some(d), cut),
    ensures
        rows(cut) == rows_within(all, d),
{
    lemma_rows_within(all, d);
    let rc = rows(cut);
    let rw = rows_within(all, d);
    assert forall|i: int, j: int| 0 <= i < j < rc.len() implies lex_lt(#[trigger] rc[i].0, #[trigger] rc[j].0) by {
        assert(rc[i] == row(cut[i]) && rc[j] == row(cut[j]));
    }
    assert forall|x: (Seq<char>, usize, usize)| rc.contains(x) <==> rw.contains(x) by {
        if rc.contains(x) {
            let i = choose|i: int| 0 <= i < rc.len() && rc[i] == x;
            assert(rc[i] == row(cut[i]));
            let p = cut[i].path@;
            assert(files_under(rs, p) > 0 && within_depth(p, Some(d)));
            assert(files_under(rs, p) > 0 && within_depth(p, None));
            let j = choose|j: int| 0 <= j < all.len() && (#[trigger] all[j]).path@ == p;
            assert(row(all[j]) == x && dir_depth(all[j].path@) <= d);
        }
        if rw.contains(x) {
            let j = choose|j: int|
                0 <= j < all.len() && row(#[trigger] all[j]) == x && dir_depth(all[j].path@) <= d;
            let p = all[j].path@;
            assert(files_under(rs, p) > 0 && within_depth(p, Some(d)));
            let i = choose|i: int| 0 <= i < cut.len() && (#[trigger] cut[i]).path@ == p;
            assert(rc[i] == row(cut[i]));
            assert(rc[i] == x);
        }
    }
    lemma_ascending_unique(rc, rw);
}

/// A depth limit of 0 reports the root alone: one row holding every file
/// when there are files, and no row when there are none.
pub proof fn lemma_max_depth_zero(rs: Seq<FileRecord>, cut: Seq<DirAggregate>)
    requires
        aggregated(rs, Some(0), cut),
    ensures
        cut.len() == (if rs.len() > 0 {
            1int
        } else {
            0int
        }),
        rs.len() > 0 ==> cut[0].path@.len() == 0 && cut[0].files == rs.len() && cut[0].lines
            == total_lines(rs),
{
    lemma_root_totals(rs);
    let root = Seq::<char>::empty();
    assert forall|i: int| 0 <= i < cut.len() implies (#[trigger] cut[i]).path@ =~= root by {
        assert(within_depth(cut[i].path@, Some(0)));
    }
    if cut.len() > 1 {
        assert(lex_lt(cut[0].path@, cut[1].path@));
        assert(cut[0].path@ == cut[1].path@);
        lemma_lex_irreflexive(cut[0].path@);
    }
    if rs.len() > 0 {
        assert(files_under(rs, root) > 0 && within_depth(root, Some(0)));
        let i = choose|i: int| 0 <= i < cut.len() && (#[trigger] cut[i]).path@ == root;
        assert(cut[0].path@ == root);
    } else {
        if cut.len() > 0 {
            assert(cut[0].path@ == root);
            assert(files_under(rs, cut[0].path@) > 0);
        }
    }
}

/// A path's parent is the path with its last segment removed: for a
/// non-empty path that does not begin with `/`, the parent is a prefix of
/// it, followed in it by `/` unless the parent is the root, and one level
/// shallower.
pub proof fn lemma_parent_one_level_up(p: Seq<char>)
    requires
        p.len() > 0,
        p[0] != '/',
    ensures
        p.take(parent(p).len() as int) == parent(p),
        parent(p).len() == 0 || (parent(p).len() < p.len() && p[parent(p).len() as int] == '/'),
        dir_depth(parent(p)) + 1 == dir_depth(p),
{
    lemma_rfind(p, '/', p.len() as int);
    match rfind(p, '/') {
        None => {
            lemma_count_char_none(p);
        },
        Some(k) => {
            assert(k > 0);
            assert(parent(p) == p.take(k));
            assert(p.take(k).take(k) =~= p.take(k));
            lemma_count_after_last(p, k, p.len() as int);
            assert(p.take(p.len() as int) =~= p);
        },
    }
}

proof fn lemma_count_char_none(s: Seq<char>)
    requires
        forall|m: int| 0 <= m < s.len() ==> s[m] != '/',
    ensures
        count_char(s, '/') == 0,
    decreases s.len(),
{
    if s.len() > 0 {
        lemma_count_char_none(s.drop_last());
    }
}

/// With `p[k]` the last `/` of `p`, every prefix past it holds one `/` more
/// than the prefix before it.
proof fn lemma_count_after_last(p: Seq<char>, k: int, n: int)
    requires
        0 <= k < n <= p.len(),
        p[k] == '/',
        forall|m: int| k < m < p.len() ==> p[m] != '/',
    ensures
        count_char(p.take(n), '/') == count_char(p.take(k), '/') + 1,
    decreases n - k,
{
    assert(p.take(n).drop_last() =~= p.take(n - 1));
    if n == k + 1 {
    } else {
        lemma_count_after_last(p, k, n - 1);
    }
}

} // verus!
