//! File records and the path arithmetic used on them.

use vstd::prelude::*;
use vstd::string::StrSliceExecFns;
use crate::config::LineMode;
use crate::count::{count_lines, lines_counted};
use crate::order::{compare_chars, lemma_lex_total, lemma_lex_transitive, lex_lt, Order};
use crate::text::{chars_of, rfind, rfind_below, string_of};

verus! {

/// One counted file.
#[derive(Debug, Clone)]
pub struct FileRecord {
    /// Path relative to the analysed root, with `/` between components.
    pub path: String,
    /// Size of the file in bytes.
    pub bytes: u64,
    /// Lines counted under `line_mode`.
    pub lines: usize,
    pub line_mode: LineMode,
}

/// The directory part of a `/`-separated path: everything before its last
/// `/`, or the empty string (the root) when it has none.
pub open spec fn parent(p: Seq<char>) -> Seq<char> {
    match rfind(p, '/') {
        Some(i) => p.take(i),
        None => Seq::empty(),
    }
}

/// The directory part of `path` (see [`parent`]).
pub fn parent_dir(path: &str) -> (r: &str)
    ensures
        r@ == parent(path@),
{
    let v = chars_of(path);
    let mut n = v.len();
    while n > 0 && v[n - 1] != '/'
        invariant
            n <= v.len(),
            v@ == path@,
            rfind(v@, '/') == rfind_below(v@, '/', n as int),
        decreases n,
    {
        n = n - 1;
    }
    if n == 0 {
        let r = path.substring_char(0, 0);
        assert(r@ =~= Seq::<char>::empty());
        r
    } else {
        path.substring_char(0, n - 1)
    }
}

/// `path` made relative to `base`, both given as their components: the
/// components after `base` joined with `/`, when `base` is a leading part of
/// `path` (`Path::strip_prefix`); `None` otherwise.
pub open spec fn relative_components(base: Seq<Seq<char>>, path: Seq<Seq<char>>) -> Option<
    Seq<char>,
> {
    if base.len() <= path.len() && path.take(base.len() as int) == base {
        Some(join_slash(path.skip(base.len() as int)))
    } else {
        None
    }
}

/// The parts joined with `/` between them.
pub open spec fn join_slash(parts: Seq<Seq<char>>) -> Seq<char>
    decreases parts.len(),
{
    if parts.len() == 0 {
        Seq::empty()
    } else if parts.len() == 1 {
        parts[0]
    } else {
        join_slash(parts.drop_last()) + seq!['/'] + parts.last()
    }
}

/// The components of `path` after those of `base`, joined with `/`; `None`
/// when `path` does not lie under `base`.
pub fn relative_path(base: &Vec<String>, path: &Vec<String>) -> (r: Option<String>)
    ensures
        r matches Some(s) ==> relative_components(base@.map_values(|c: String| c@), path@.map_values(|c: String| c@)) == Some(s@),
        r is None ==> relative_components(base@.map_values(|c: String| c@), path@.map_values(|c: String| c@)) is None,
{
    let ghost bv = base@.map_values(|c: String| c@);
    let ghost pv = path@.map_values(|c: String| c@);
    if base.len() > path.len() {
        return None;
    }
    let mut i: usize = 0;
    while i < base.len()
        invariant
            i <= base.len() <= path.len(),
            bv == base@.map_values(|c: String| c@),
            pv == path@.map_values(|c: String| c@),
            forall|k: int| 0 <= k < i ==> bv[k] == pv[k],
        decreases base.len() - i,
    {
        if base[i] != path[i] {
            assert(pv.take(base.len() as int)[i as int] != bv[i as int]);
            return None;
        }
        i = i + 1;
    }
    assert(pv.take(base.len() as int) =~= bv);
    let mut out: Vec<char> = Vec::new();
    let mut j = base.len();
    while j < path.len()
        invariant
            base.len() <= j <= path.len(),
            pv == path@.map_values(|c: String| c@),
            out@ == join_slash(pv.subrange(base.len() as int, j as int)),
        decreases path.len() - j,
    {
        let ghost before = pv.subrange(base.len() as int, j as int);
        let part = chars_of(path[j].as_str());
        if j > base.len() {
            out.push('/');
        }
        let mut k: usize = 0;
        let ghost start = out@;
        while k < part.len()
            invariant
                k <= part.len(),
                out@ == start + part@.take(k as int),
            decreases part.len() - k,
        {
            assert(part@.take(k + 1) =~= part@.take(k as int).push(part@[k as int]));
            out.push(part[k]);
            k = k + 1;
        }
        assert(part@.take(k as int) =~= part@);
        let ghost after = pv.subrange(base.len() as int, j + 1);
        assert(after.drop_last() =~= before);
        assert(after.last() == part@);
        if j == base.len() {
            assert(out@ =~= after[0]);
        } else {
            assert(out@ =~= join_slash(after.drop_last()) + seq!['/'] + after.last());
        }
        j = j + 1;
    }
    assert(pv.subrange(base.len() as int, path.len() as int) =~= pv.skip(base.len() as int));
    Some(string_of(&out))
}

/// The record of a file at `rel` whose bytes are `content`: its size and its
/// lines counted under `line_mode`, where `ext` is the file's extension.
pub fn file_record(rel: String, content: &[u8], ext: Option<&str>, line_mode: &LineMode) -> (r:
    FileRecord)
    ensures
        r.path@ == rel@,
        r.bytes == content@.len(),
        r.lines == lines_counted(
            content@,
            *line_mode,
            match ext {
                Some(e) => Some(e@),
                None => None,
            },
        ),
        r.line_mode == *line_mode,
{
    let lines = count_lines(content, line_mode, ext);
    FileRecord { path: rel, bytes: content.len() as u64, lines, line_mode: *line_mode }
}

/// Every record's path comes no earlier, in code-point order, than the paths
/// of the records before it.
pub open spec fn sorted_by_path(s: Seq<FileRecord>) -> bool {
    forall|i: int, j: int| 0 <= i < j < s.len() ==> !lex_lt(#[trigger] s[j].path@, #[trigger] s[i].path@)
}

/// The records of `s` whose path is `p`, in order.
pub open spec fn records_at(s: Seq<FileRecord>, p: Seq<char>) -> Seq<FileRecord>
    decreases s.len(),
{
    if s.len() == 0 {
        s
    } else if s.last().path@ == p {
        records_at(s.drop_last(), p).push(s.last())
    } else {
        records_at(s.drop_last(), p)
    }
}

proof fn lemma_records_at_add(a: Seq<FileRecord>, b: Seq<FileRecord>, p: Seq<char>)
    ensures
        records_at(a + b, p) == records_at(a, p) + records_at(b, p),
    decreases b.len(),
{
    if b.len() == 0 {
        assert(a + b =~= a);
        assert(records_at(a, p) + records_at(b, p) =~= records_at(a, p));
    } else {
        lemma_records_at_add(a, b.drop_last(), p);
        assert((a + b).drop_last() =~= a + b.drop_last());
        assert((a + b).last() == b.last());
        if b.last().path@ == p {
            assert(records_at(a, p) + records_at(b.drop_last(), p).push(b.last()) =~= (records_at(
                a,
                p,
            ) + records_at(b.drop_last(), p)).push(b.last()));
        }
    }
}

proof fn lemma_records_at_none(s: Seq<FileRecord>, p: Seq<char>)
    requires
        forall|i: int| 0 <= i < s.len() ==> (#[trigger] s[i]).path@ != p,
    ensures
        records_at(s, p) == Seq::<FileRecord>::empty(),
    decreases s.len(),
{
    if s.len() > 0 {
        lemma_records_at_none(s.drop_last(), p);
    }
}

proof fn lemma_records_at_one(x: FileRecord, p: Seq<char>)
    ensures
        records_at(seq![x], p) == (if x.path@ == p {
            seq![x]
        } else {
            Seq::<FileRecord>::empty()
        }),
{
    let s = seq![x];
    assert(s.drop_last() =~= Seq::<FileRecord>::empty());
    assert(s.last() == x);
    let e = Seq::<FileRecord>::empty();
    assert(records_at(e, p) == e);
    assert(records_at(s.drop_last(), p) == e);
    if x.path@ == p {
        assert(records_at(s, p) == e.push(x));
        assert(e.push(x) =~= s);
    } else {
        assert(records_at(s, p) == e);
    }
}

/// The records in path order (`String` order, which is code-point order):
/// the same records, each as often as before, sorted by path, and the
/// records that share a path in the order they came in.
pub fn sort_by_path(records: Vec<FileRecord>) -> (r: Vec<FileRecord>)
    ensures
        sorted_by_path(r@),
        r@.to_multiset() == records@.to_multiset(),
        forall|p: Seq<char>| #[trigger] records_at(r@, p) == records_at(records@, p),
{
    broadcast use vstd::seq_lib::group_to_multiset_ensures;

    let mut rest = records;
    let mut out: Vec<FileRecord> = Vec::new();
    while rest.len() > 0
        invariant
            sorted_by_path(out@),
            out@.to_multiset().add(rest@.to_multiset()) == records@.to_multiset(),
            forall|p: Seq<char>| #[trigger] records_at(records@, p) == records_at(rest@, p)
                + records_at(out@, p),
        decreases rest.len(),
    {
        let ghost before_rest = rest@;
        let ghost before_out = out@;
        let rec = rest.pop().unwrap();
        assert(before_rest == rest@.push(rec));
        let key = chars_of(rec.path.as_str());
        // Equal paths go before the ones already taken, which came later in
        // the input.
        let mut k: usize = 0;
        while k < out.len()
            invariant
                k <= out.len(),
                out@ == before_out,
                key@ == rec.path@,
                sorted_by_path(out@),
                forall|m: int| 0 <= m < k ==> lex_lt(#[trigger] out@[m].path@, key@),
            ensures
                k <= out.len(),
                out@ == before_out,
                forall|m: int| 0 <= m < k ==> lex_lt(#[trigger] out@[m].path@, key@),
                k < out.len() ==> !lex_lt(out@[k as int].path@, key@),
            decreases out.len() - k,
        {
            let other = chars_of(out[k].path.as_str());
            match compare_chars(&other, &key) {
                Order::Less => {},
                _ => break,
            }
            k = k + 1;
        }
        proof {
            assert forall|m: int| k <= m < out@.len() implies !lex_lt(#[trigger] out@[m].path@, key@) by {
                if lex_lt(out@[m].path@, key@) {
                    // out[k] <= out[m] < key contradicts the exit of the scan
                    lemma_lex_total(out@[k as int].path@, out@[m].path@);
                    if lex_lt(out@[k as int].path@, out@[m].path@) {
                        lemma_lex_transitive(out@[k as int].path@, out@[m].path@, key@);
                    }
                }
            }
        }
        out.insert(k, rec);
        proof {
            let s = out@;
            assert(s == before_out.insert(k as int, rec));
            assert forall|i: int, j: int| 0 <= i < j < s.len() implies !lex_lt(#[trigger] s[j].path@, #[trigger] s[i].path@) by {
                if j == k {
                    assert(s[i] == before_out[i]);
                    if lex_lt(s[j].path@, s[i].path@) {
                        lemma_lex_transitive(s[j].path@, s[i].path@, s[j].path@);
                        crate::order::lemma_lex_irreflexive(s[j].path@);
                    }
                } else if i == k {
                    assert(s[j] == before_out[j - 1]);
                } else {
                    let i0 = if i < k { i } else { i - 1 };
                    let j0 = if j < k { j } else { j - 1 };
                    assert(s[i] == before_out[i0]);
                    assert(s[j] == before_out[j0]);
                }
            }
            assert(s.remove(k as int) =~= before_out);
            vstd::seq_lib::to_multiset_remove(s, k as int);
            assert(s.contains(rec)) by { assert(s[k as int] == rec); }
            vstd::seq_lib::to_multiset_contains(s, rec);
            assert(s.to_multiset() =~= before_out.to_multiset().insert(rec));
            vstd::seq_lib::to_multiset_build(rest@, rec);
            assert(before_rest.to_multiset() =~= rest@.to_multiset().insert(rec));
            assert(out@.to_multiset().add(rest@.to_multiset()) =~= before_out.to_multiset().add(before_rest.to_multiset()));
            let head = before_out.take(k as int);
            let tail = before_out.skip(k as int);
            assert(s =~= head + (seq![rec] + tail));
            assert(before_out =~= head + tail);
            assert forall|i: int| 0 <= i < head.len() implies (#[trigger] head[i]).path@ != rec.path@ by {
                assert(head[i] == before_out[i]);
                crate::order::lemma_lex_irreflexive(rec.path@);
            }
            assert forall|p: Seq<char>| #[trigger] records_at(records@, p) == records_at(rest@, p)
                + records_at(out@, p) by {
                assert(records_at(records@, p) == records_at(before_rest, p) + records_at(before_out, p));
                lemma_records_at_add(rest@, seq![rec], p);
                lemma_records_at_add(head, seq![rec] + tail, p);
                lemma_records_at_add(seq![rec], tail, p);
                lemma_records_at_add(head, tail, p);
                lemma_records_at_one(rec, p);
                if rec.path@ == p {
                    lemma_records_at_none(head, p);
                    assert(records_at(records@, p) =~= records_at(rest@, p) + records_at(out@, p));
                } else {
                    assert(records_at(records@, p) =~= records_at(rest@, p) + records_at(out@, p));
                }
            }
        }
    }
    assert forall|p: Seq<char>| #[trigger] records_at(out@, p) == records_at(records@, p) by {
        assert(records_at(rest@, p) =~= Seq::<FileRecord>::empty());
        assert(records_at(records@, p) =~= records_at(out@, p));
    }
    out
}

} // verus!
