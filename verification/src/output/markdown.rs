//! The Markdown report.

use vstd::prelude::*;
use vstd::string::{StrSliceExecFns, StringExecFns};
use crate::aggregate::DirAggregate;
use crate::hotspot::HotspotKind;
use crate::output::HotspotRow;
use crate::text::{decimal, decimal_chars, digit_char, string_of};

verus! {

/// `d` with a comma before every group of three digits counted from the
/// right, except the leading group.
pub open spec fn group_thousands(d: Seq<char>) -> Seq<char>
    decreases d.len(),
{
    if d.len() <= 3 {
        d
    } else {
        group_thousands(d.take(d.len() - 3)) + seq![','] + d.skip(d.len() - 3)
    }
}

/// `n` in decimal with thousands separators, such as `1,234,567`.
pub open spec fn thousands(n: nat) -> Seq<char> {
    group_thousands(decimal(n))
}

/// `s` with its commas left out.
pub open spec fn strip_commas(s: Seq<char>) -> Seq<char>
    decreases s.len(),
{
    if s.len() == 0 {
        s
    } else if s.last() == ',' {
        strip_commas(s.drop_last())
    } else {
        strip_commas(s.drop_last()).push(s.last())
    }
}

proof fn lemma_strip_commas_add(a: Seq<char>, b: Seq<char>)
    ensures
        strip_commas(a + b) == strip_commas(a) + strip_commas(b),
    decreases b.len(),
{
    if b.len() == 0 {
        assert(a + b =~= a);
        assert(strip_commas(a) + strip_commas(b) =~= strip_commas(a));
    } else {
        lemma_strip_commas_add(a, b.drop_last());
        assert((a + b).drop_last() =~= a + b.drop_last());
        assert((a + b).last() == b.last());
        if b.last() != ',' {
            assert(strip_commas(a) + strip_commas(b.drop_last()).push(b.last()) =~= (strip_commas(a)
                + strip_commas(b.drop_last())).push(b.last()));
        }
    }
}

proof fn lemma_group_strips_back(d: Seq<char>)
    ensures
        strip_commas(group_thousands(d)) == strip_commas(d),
    decreases d.len(),
{
    if d.len() > 3 {
        let head = d.take(d.len() - 3);
        let tail = d.skip(d.len() - 3);
        lemma_group_strips_back(head);
        lemma_strip_commas_add(group_thousands(head) + seq![','], tail);
        lemma_strip_commas_add(group_thousands(head), seq![',']);
        lemma_strip_commas_add(head, tail);
        let comma: Seq<char> = seq![','];
        assert(comma.drop_last() =~= Seq::<char>::empty());
        assert(comma.last() == ',');
        assert(strip_commas(comma) == strip_commas(comma.drop_last()));
        assert(strip_commas(comma) =~= Seq::<char>::empty());
        assert(head + tail =~= d);
        assert(strip_commas(head) + Seq::<char>::empty() =~= strip_commas(head));
    }
}

proof fn lemma_decimal_has_no_comma(n: nat)
    ensures
        strip_commas(decimal(n)) == decimal(n),
    decreases n,
{
    let d = digit_char(n % 10);
    assert(d != ',');
    if n < 10 {
        assert(decimal(n) == seq![d]);
        let one: Seq<char> = seq![d];
        assert(one.drop_last() =~= Seq::<char>::empty());
        assert(one.last() == d);
        assert(strip_commas(one) == strip_commas(one.drop_last()).push(d));
        assert(strip_commas(Seq::<char>::empty()) == Seq::<char>::empty());
        assert(seq![d] =~= Seq::<char>::empty().push(d));
    } else {
        lemma_decimal_has_no_comma(n / 10);
        assert(decimal(n) == decimal(n / 10).push(d));
        assert(decimal(n).drop_last() =~= decimal(n / 10));
    }
}

/// The separators are all that grouping adds: with its commas left out, a
/// number in thousands form is its plain decimal form.
pub proof fn lemma_thousands_strip_to_decimal(n: nat)
    ensures
        strip_commas(thousands(n)) == decimal(n),
{
    lemma_group_strips_back(decimal(n));
    lemma_decimal_has_no_comma(n);
}

fn group_prefix(d: &Vec<char>, end: usize) -> (r: Vec<char>)
    requires
        end <= d.len(),
    ensures
        r@ == group_thousands(d@.take(end as int)),
    decreases end,
{
    if end <= 3 {
        let mut r: Vec<char> = Vec::new();
        let mut i: usize = 0;
        while i < end
            invariant
                i <= end <= d.len(),
                r@ == d@.take(i as int),
            decreases end - i,
        {
            assert(d@.take(i + 1) =~= d@.take(i as int).push(d@[i as int]));
            r.push(d[i]);
            i = i + 1;
        }
        r
    } else {
        let mut r = group_prefix(d, end - 3);
        r.push(',');
        let ghost head = r@;
        let mut i = end - 3;
        while i < end
            invariant
                3 < end,
                end - 3 <= i <= end <= d.len(),
                r@ == head + d@.subrange(end - 3, i as int),
            decreases end - i,
        {
            assert(d@.subrange(end - 3, i + 1) =~= d@.subrange(end - 3, i as int).push(
                d@[i as int],
            ));
            r.push(d[i]);
            i = i + 1;
        }
        let ghost t = d@.take(end as int);
        assert(t.take(t.len() - 3) =~= d@.take(end - 3));
        assert(t.skip(t.len() - 3) =~= d@.subrange(end - 3, end as int));
        r
    }
}

/// `n` in decimal with thousands separators.
pub fn format_num(n: usize) -> (r: String)
    ensures
        r@ == thousands(n as nat),
{
    let d = decimal_chars(n);
    let g = group_prefix(&d, d.len());
    assert(d@.take(d.len() as int) =~= d@);
    string_of(&g)
}


/// How a directory is shown: the root as `.`.
pub open spec fn display_path(p: Seq<char>) -> Seq<char> {
    if p.len() == 0 {
        "."@
    } else {
        p
    }
}

/// The short name of a hotspot kind in the report tables.
pub open spec fn kind_label(k: HotspotKind) -> Seq<char> {
    match k {
        HotspotKind::File => "file"@,
        HotspotKind::Directory => "dir"@,
    }
}

/// One row of the directory table.
pub open spec fn md_dir_row(a: DirAggregate) -> Seq<char> {
    "| "@ + display_path(a.path@) + " | "@ + thousands(a.files as nat) + " | "@ + thousands(
        a.lines as nat,
    ) + " |\n"@
}

/// The rows of the directory table.
pub open spec fn md_dir_rows(aggs: Seq<DirAggregate>) -> Seq<char>
    decreases aggs.len(),
{
    if aggs.len() == 0 {
        Seq::empty()
    } else {
        md_dir_rows(aggs.drop_last()) + md_dir_row(aggs.last())
    }
}

/// One row of the hotspot table.
pub open spec fn md_hotspot_row(h: HotspotRow) -> Seq<char> {
    "| "@ + h.path@ + " | "@ + kind_label(h.kind) + " | "@ + thousands(h.lines as nat) + " | "@
        + thousands(h.baseline as nat) + " | "@ + h.ratio@ + "x |\n"@
}

/// The rows of the hotspot table.
pub open spec fn md_hotspot_rows(rows: Seq<HotspotRow>) -> Seq<char>
    decreases rows.len(),
{
    if rows.len() == 0 {
        Seq::empty()
    } else {
        md_hotspot_rows(rows.drop_last()) + md_hotspot_row(rows.last())
    }
}

/// The Markdown report: the directory table, then the hotspot table or a
/// note that there are none.
pub open spec fn markdown_report(aggs: Seq<DirAggregate>, rows: Seq<HotspotRow>) -> Seq<char> {
    "## Directory Summary\n\n"@ + "| Path | Files | Lines |\n"@ + "| --- | ---: | ---: |\n"@
        + md_dir_rows(aggs) + "\n"@ + "## Hotspots\n\n"@ + if rows.len() == 0 {
        "No hotspots found.\n"@
    } else {
        "| Path | Kind | Lines | Median | Ratio |\n"@ + "| --- | --- | ---: | ---: | ---: |\n"@
            + md_hotspot_rows(rows)
    }
}

/// The directory table has one row per directory, in order: adding a
/// directory adds its row at the end, the root shown as `.`, the counts with
/// thousands separators.
pub proof fn lemma_md_one_row_per_directory(aggs: Seq<DirAggregate>, a: DirAggregate)
    ensures
        md_dir_rows(Seq::<DirAggregate>::empty()) == Seq::<char>::empty(),
        md_dir_rows(aggs.push(a)) == md_dir_rows(aggs) + ("| "@ + (if a.path@.len() == 0 {
            "."@
        } else {
            a.path@
        }) + " | "@ + thousands(a.files as nat) + " | "@ + thousands(a.lines as nat) + " |\n"@),
{
    assert(aggs.push(a).drop_last() =~= aggs);
}

/// The hotspot table has one row per hotspot, in order: adding a hotspot to
/// a non-empty list adds its row at the end of the report, with its path,
/// kind, lines and median (thousands separators) and its ratio followed by
/// `x`; a first hotspot turns the empty note into a one-row table.
pub proof fn lemma_md_one_row_per_hotspot(aggs: Seq<DirAggregate>, hs: Seq<HotspotRow>, h: HotspotRow)
    ensures
        md_hotspot_rows(Seq::<HotspotRow>::empty()) == Seq::<char>::empty(),
        md_hotspot_rows(hs.push(h)) == md_hotspot_rows(hs) + ("| "@ + h.path@ + " | "@ + kind_label(
            h.kind,
        ) + " | "@ + thousands(h.lines as nat) + " | "@ + thousands(h.baseline as nat) + " | "@
            + h.ratio@ + "x |\n"@),
        hs.len() > 0 ==> markdown_report(aggs, hs.push(h)) == markdown_report(aggs, hs) + ("| "@
            + h.path@ + " | "@ + kind_label(h.kind) + " | "@ + thousands(h.lines as nat) + " | "@
            + thousands(h.baseline as nat) + " | "@ + h.ratio@ + "x |\n"@),
        markdown_report(aggs, seq![h]) == markdown_report(aggs, Seq::<HotspotRow>::empty()).take(
            markdown_report(aggs, Seq::<HotspotRow>::empty()).len() - "No hotspots found.\n"@.len(),
        ) + "| Path | Kind | Lines | Median | Ratio |\n"@ + "| --- | --- | ---: | ---: | ---: |\n"@
            + ("| "@ + h.path@ + " | "@ + kind_label(h.kind) + " | "@ + thousands(h.lines as nat)
            + " | "@ + thousands(h.baseline as nat) + " | "@ + h.ratio@ + "x |\n"@),
{
    assert(hs.push(h).drop_last() =~= hs);
    let row = "| "@ + h.path@ + " | "@ + kind_label(h.kind) + " | "@ + thousands(h.lines as nat)
        + " | "@ + thousands(h.baseline as nat) + " | "@ + h.ratio@ + "x |\n"@;
    let head = "## Directory Summary\n\n"@ + "| Path | Files | Lines |\n"@ + "| --- | ---: | ---: |\n"@
        + md_dir_rows(aggs) + "\n"@ + "## Hotspots\n\n"@;
    let th = "| Path | Kind | Lines | Median | Ratio |\n"@ + "| --- | --- | ---: | ---: | ---: |\n"@;
    if hs.len() > 0 {
        assert(markdown_report(aggs, hs) == head + (th + md_hotspot_rows(hs)));
        assert(markdown_report(aggs, hs.push(h)) == head + (th + md_hotspot_rows(hs.push(h))));
        assert(head + (th + (md_hotspot_rows(hs) + row)) =~= head + (th + md_hotspot_rows(hs)) + row);
    }
    let one = seq![h];
    assert(one.drop_last() =~= Seq::<HotspotRow>::empty());
    assert(one.last() == h);
    assert(md_hotspot_rows(one) == md_hotspot_rows(one.drop_last()) + md_hotspot_row(one.last()));
    assert(md_hotspot_rows(Seq::<HotspotRow>::empty()) == Seq::<char>::empty());
    assert(md_hotspot_rows(one) =~= row);
    let empty_report = markdown_report(aggs, Seq::<HotspotRow>::empty());
    assert(empty_report == head + "No hotspots found.\n"@);
    assert(empty_report.take(empty_report.len() - "No hotspots found.\n"@.len()) =~= head);
    assert(markdown_report(aggs, one) == head + (th + row));
    assert(head + (th + row) =~= head + th + row);
}

pub fn kind_str(k: HotspotKind) -> (r: &'static str)
    ensures
        r@ == kind_label(k),
{
    match k {
        HotspotKind::File => "file",
        HotspotKind::Directory => "dir",
    }
}

/// The Markdown report of the directory totals and hotspots.
pub fn render(aggregates: &[DirAggregate], hotspots: &[HotspotRow]) -> (r: String)
    ensures
        r@ == markdown_report(aggregates@, hotspots@),
{
    let mut out = String::new();
    out.append("## Directory Summary\n\n");
    out.append("| Path | Files | Lines |\n");
    out.append("| --- | ---: | ---: |\n");
    let ghost head = out@;
    let mut i: usize = 0;
    while i < aggregates.len()
        invariant
            i <= aggregates@.len(),
            out@ == head + md_dir_rows(aggregates@.take(i as int)),
        decreases aggregates@.len() - i,
    {
        let a = &aggregates[i];
        let ghost before = out@;
        out.append("| ");
        if a.path.as_str().unicode_len() == 0 {
            out.append(".");
        } else {
            out.append(a.path.as_str());
        }
        out.append(" | ");
        out.append(format_num(a.files).as_str());
        out.append(" | ");
        out.append(format_num(a.lines).as_str());
        out.append(" |\n");
        proof {
            assert(aggregates@.take(i + 1).drop_last() =~= aggregates@.take(i as int));
            assert(out@ =~= before + md_dir_row(aggregates@[i as int]));
        }
        i = i + 1;
    }
    assert(aggregates@.take(i as int) =~= aggregates@);
    out.append("\n");
    out.append("## Hotspots\n\n");
    let ghost mid = out@;
    if hotspots.len() == 0 {
        out.append("No hotspots found.\n");
    } else {
        out.append("| Path | Kind | Lines | Median | Ratio |\n");
        out.append("| --- | --- | ---: | ---: | ---: |\n");
        let ghost table = out@;
        let mut j: usize = 0;
        while j < hotspots.len()
            invariant
                j <= hotspots@.len(),
                out@ == table + md_hotspot_rows(hotspots@.take(j as int)),
            decreases hotspots@.len() - j,
        {
            let h = &hotspots[j];
            let ghost before = out@;
            out.append("| ");
            out.append(h.path.as_str());
            out.append(" | ");
            out.append(kind_str(h.kind));
            out.append(" | ");
            out.append(format_num(h.lines).as_str());
            out.append(" | ");
            out.append(format_num(h.baseline).as_str());
            out.append(" | ");
            out.append(h.ratio.as_str());
            out.append("x |\n");
            proof {
                assert(hotspots@.take(j + 1).drop_last() =~= hotspots@.take(j as int));
                assert(out@ =~= before + md_hotspot_row(hotspots@[j as int]));
            }
            j = j + 1;
        }
        assert(hotspots@.take(j as int) =~= hotspots@);
    }
    assert(out@ =~= markdown_report(aggregates@, hotspots@));
    out
}

} // verus!
