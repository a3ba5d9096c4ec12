//! The self-contained HTML report.

use vstd::prelude::*;
use vstd::string::{StrSliceExecFns, StringExecFns};
use crate::aggregate::DirAggregate;
use crate::output::markdown::{display_path, format_num, kind_label, kind_str, thousands};
use crate::output::HotspotRow;
use crate::text::{chars_of, string_of};

verus! {

/// `n` in decimal with thousands separators.
pub fn fmt_num(n: usize) -> (r: String)
    ensures
        r@ == thousands(n as nat),
{
    format_num(n)
}


/// The escaped form of one character.
pub open spec fn escape_char(c: char) -> Seq<char> {
    if c == '&' {
        "&amp;"@
    } else if c == '<' {
        "&lt;"@
    } else if c == '>' {
        "&gt;"@
    } else if c == '"' {
        "&quot;"@
    } else if c == '\'' {
        "&#39;"@
    } else {
        seq![c]
    }
}

/// `s` with `&`, `<`, `>`, `"` and `'` replaced by their HTML entities.
pub open spec fn escaped(s: Seq<char>) -> Seq<char>
    decreases s.len(),
{
    if s.len() == 0 {
        Seq::empty()
    } else {
        escaped(s.drop_last()) + escape_char(s.last())
    }
}

/// `s` made safe to place in HTML text.
pub fn escape(s: &str) -> (r: String)
    ensures
        r@ == escaped(s@),
{
    let v = chars_of(s);
    let mut out: Vec<char> = Vec::new();
    let mut i: usize = 0;
    while i < v.len()
        invariant
            i <= v.len(),
            v@ == s@,
            out@ == escaped(v@.take(i as int)),
        decreases v.len() - i,
    {
        let c = v[i];
        let ghost before = out@;
        if c == '&' {
            out.push('&');
            out.push('a');
            out.push('m');
            out.push('p');
            out.push(';');
            proof { reveal_strlit("&amp;"); }
        } else if c == '<' {
            out.push('&');
            out.push('l');
            out.push('t');
            out.push(';');
            proof { reveal_strlit("&lt;"); }
        } else if c == '>' {
            out.push('&');
            out.push('g');
            out.push('t');
            out.push(';');
            proof { reveal_strlit("&gt;"); }
        } else if c == '"' {
            out.push('&');
            out.push('q');
            out.push('u');
            out.push('o');
            out.push('t');
            out.push(';');
            proof { reveal_strlit("&quot;"); }
        } else if c == '\'' {
            out.push('&');
            out.push('#');
            out.push('3');
            out.push('9');
            out.push(';');
            proof { reveal_strlit("&#39;"); }
        } else {
            out.push(c);
        }
        proof {
            assert(v@.take(i + 1).drop_last() =~= v@.take(i as int));
            assert(out@ =~= before + escape_char(c));
        }
        i = i + 1;
    }
    assert(v@.take(i as int) =~= v@);
    string_of(&out)
}

/// A character that ends or opens markup in HTML text or in a quoted
/// attribute.
pub open spec fn is_markup(c: char) -> bool {
    c == '<' || c == '>' || c == '"' || c == '\''
}

/// Escaped text holds no markup character: whatever a path contains, it
/// cannot open a tag or leave an attribute once escaped.
pub proof fn lemma_escaped_has_no_markup(s: Seq<char>)
    ensures
        forall|i: int| 0 <= i < escaped(s).len() ==> !is_markup(#[trigger] escaped(s)[i]),
    decreases s.len(),
{
    if s.len() > 0 {
        lemma_escaped_has_no_markup(s.drop_last());
        reveal_strlit("&amp;");
        reveal_strlit("&lt;");
        reveal_strlit("&gt;");
        reveal_strlit("&quot;");
        reveal_strlit("&#39;");
        let a = escaped(s.drop_last());
        let b = escape_char(s.last());
        assert forall|i: int| 0 <= i < escaped(s).len() implies !is_markup(#[trigger] escaped(s)[i]) by {
            if i < a.len() {
                assert(escaped(s)[i] == a[i]);
            } else {
                assert(escaped(s)[i] == b[i - a.len()]);
            }
        }
    }
}

/// The opening of the page, up to the directory rows.
pub open spec fn html_head() -> Seq<char> {
    "<!DOCTYPE html>\n"@
        + "<html lang=\"en\">\n"@
        + "<head>\n"@
        + "<meta charset=\"UTF-8\">\n"@
        + "<meta name=\"viewport\" content=\"width=device-width, initial-scale=1.0\">\n"@
        + "<title>Structure Heatmap Report</title>\n"@
        + "<style>\n"@
        + "body { font-family: monospace; max-width: 900px; margin: 2rem auto; padding: 0 1rem; }\n"@
        + "h2 { border-bottom: 1px solid #ccc; }\n"@
        + "table { border-collapse: collapse; width: 100%; }\n"@
        + "th, td { border: 1px solid #ddd; padding: 4px 8px; text-align: left; }\n"@
        + ".num { text-align: right; }\n"@
        + "tr:nth-child(even) { background: #f8f8f8; }\n"@
        + "</style>\n"@
        + "</head>\n"@
        + "<body>\n"@
        + "<h1>Structure Heatmap Report</h1>\n"@
        + "<h2>Directory Summary</h2>\n"@
        + "<table>\n"@
        + "<thead><tr><th>Path</th><th>Files</th><th>Lines</th></tr></thead>\n"@
        + "<tbody>\n"@
}

/// One row of the directory table.
pub open spec fn html_dir_row(a: DirAggregate) -> Seq<char> {
    "<tr><td>"@ + escaped(display_path(a.path@)) + "</td><td class=\"num\">"@ + thousands(
        a.files as nat,
    ) + "</td><td class=\"num\">"@ + thousands(a.lines as nat) + "</td></tr>\n"@
}

/// The rows of the directory table.
pub open spec fn html_dir_rows(aggs: Seq<DirAggregate>) -> Seq<char>
    decreases aggs.len(),
{
    if aggs.len() == 0 {
        Seq::empty()
    } else {
        html_dir_rows(aggs.drop_last()) + html_dir_row(aggs.last())
    }
}

/// One row of the hotspot table.
pub open spec fn html_hotspot_row(h: HotspotRow) -> Seq<char> {
    "<tr><td>"@ + escaped(h.path@) + "</td><td>"@ + kind_label(h.kind)
        + "</td><td class=\"num\">"@ + thousands(h.lines as nat) + "</td><td class=\"num\">"@
        + thousands(h.baseline as nat) + "</td><td class=\"num\">"@ + h.ratio@
        + "x</td></tr>\n"@
}

/// The rows of the hotspot table.
pub open spec fn html_hotspot_rows(rows: Seq<HotspotRow>) -> Seq<char>
    decreases rows.len(),
{
    if rows.len() == 0 {
        Seq::empty()
    } else {
        html_hotspot_rows(rows.drop_last()) + html_hotspot_row(rows.last())
    }
}

/// The hotspot section: a table, or a note that there are none.
pub open spec fn html_hotspot_section(rows: Seq<HotspotRow>) -> Seq<char> {
    if rows.len() == 0 {
        "<p>No hotspots found.</p>\n"@
    } else {
        "<table>\n"@
            + "<thead><tr><th>Path</th><th>Kind</th><th>Lines</th><th>Median</th><th>Ratio</th></tr></thead>\n"@
            + "<tbody>\n"@ + html_hotspot_rows(rows) + "</tbody>\n"@ + "</table>\n"@
    }
}

/// The HTML report: one page with inline styles and no outside resources.
pub open spec fn html_report(aggs: Seq<DirAggregate>, rows: Seq<HotspotRow>) -> Seq<char> {
    html_head() + html_dir_rows(aggs) + "</tbody>\n"@ + "</table>\n"@ + "<h2>Hotspots</h2>\n"@
        + html_hotspot_section(rows) + "</body>\n"@ + "</html>\n"@
}

/// The directory table has one row per directory, root included: adding a
/// directory to the list inserts its row, after the rows before it and
/// ahead of the end of the table; the root's row shows `.`.
pub proof fn lemma_html_one_row_per_directory(aggs: Seq<DirAggregate>, a: DirAggregate, hs: Seq<
    HotspotRow,
>)
    ensures
        html_dir_rows(Seq::<DirAggregate>::empty()) == Seq::<char>::empty(),
        html_dir_rows(aggs.push(a)) == html_dir_rows(aggs) + ("<tr><td>"@ + escaped(
            if a.path@.len() == 0 {
                "."@
            } else {
                a.path@
            },
        ) + "</td><td class=\"num\">"@ + thousands(a.files as nat) + "</td><td class=\"num\">"@
            + thousands(a.lines as nat) + "</td></tr>\n"@),
        a.path@.len() == 0 ==> html_dir_rows(aggs.push(a)) == html_dir_rows(aggs) + ("<tr><td>.</td><td class=\"num\">"@
            + thousands(a.files as nat) + "</td><td class=\"num\">"@ + thousands(a.lines as nat)
            + "</td></tr>\n"@),
        ({
            let k = (html_head().len() + html_dir_rows(aggs).len()) as int;
            html_report(aggs.push(a), hs) == html_report(aggs, hs).take(k) + ("<tr><td>"@ + escaped(
                if a.path@.len() == 0 {
                    "."@
                } else {
                    a.path@
                },
            ) + "</td><td class=\"num\">"@ + thousands(a.files as nat) + "</td><td class=\"num\">"@
                + thousands(a.lines as nat) + "</td></tr>\n"@) + html_report(aggs, hs).skip(k)
        }),
{
    assert(aggs.push(a).drop_last() =~= aggs);
    let row = html_dir_row(a);
    if a.path@.len() == 0 {
        reveal_strlit(".");
        let dot = "."@;
        assert(dot.drop_last() =~= Seq::<char>::empty());
        assert(dot.last() == '.');
        assert(dot.len() == 1);
        assert(escaped(dot) == escaped(dot.drop_last()) + escape_char(dot.last()));
        assert(escaped(Seq::<char>::empty()) == Seq::<char>::empty());
        assert(escaped(dot) =~= escape_char('.'));
        assert(escape_char('.') =~= seq!['.']);
        assert(escaped(dot) =~= dot);
        assert("<tr><td>"@ + dot + "</td><td class=\"num\">"@ =~= "<tr><td>.</td><td class=\"num\">"@) by {
            reveal_strlit("<tr><td>");
            reveal_strlit("</td><td class=\"num\">");
            reveal_strlit("<tr><td>.</td><td class=\"num\">");
        }
    }
    let head = html_head() + html_dir_rows(aggs);
    let tail = "</tbody>\n"@ + "</table>\n"@ + "<h2>Hotspots</h2>\n"@ + html_hotspot_section(hs)
        + "</body>\n"@ + "</html>\n"@;
    assert(html_report(aggs, hs) =~= head + tail);
    assert(html_report(aggs.push(a), hs) =~= head + row + tail);
    assert((head + tail).take(head.len() as int) =~= head);
    assert((head + tail).skip(head.len() as int) =~= tail);
}

/// The hotspot table has one row per hotspot, in order: adding a hotspot
/// adds its row, escaped, at the end of the rows.
pub proof fn lemma_html_one_row_per_hotspot(hs: Seq<HotspotRow>, h: HotspotRow)
    ensures
        html_hotspot_rows(Seq::<HotspotRow>::empty()) == Seq::<char>::empty(),
        html_hotspot_rows(hs.push(h)) == html_hotspot_rows(hs) + ("<tr><td>"@ + escaped(h.path@)
            + "</td><td>"@ + kind_label(h.kind) + "</td><td class=\"num\">"@ + thousands(
            h.lines as nat,
        ) + "</td><td class=\"num\">"@ + thousands(h.baseline as nat) + "</td><td class=\"num\">"@
            + h.ratio@ + "x</td></tr>\n"@),
{
    assert(hs.push(h).drop_last() =~= hs);
}

/// The HTML report of the directory totals and hotspots.
pub fn render(aggregates: &[DirAggregate], hotspots: &[HotspotRow]) -> (r: String)
    ensures
        r@ == html_report(aggregates@, hotspots@),
{
    let mut out = String::new();
    out.append("<!DOCTYPE html>\n");
    out.append("<html lang=\"en\">\n");
    out.append("<head>\n");
    out.append("<meta charset=\"UTF-8\">\n");
    out.append("<meta name=\"viewport\" content=\"width=device-width, initial-scale=1.0\">\n");
    out.append("<title>Structure Heatmap Report</title>\n");
    out.append("<style>\n");
    out.append("body { font-family: monospace; max-width: 900px; margin: 2rem auto; padding: 0 1rem; }\n");
    out.append("h2 { border-bottom: 1px solid #ccc; }\n");
    out.append("table { border-collapse: collapse; width: 100%; }\n");
    out.append("th, td { border: 1px solid #ddd; padding: 4px 8px; text-align: left; }\n");
    out.append(".num { text-align: right; }\n");
    out.append("tr:nth-child(even) { background: #f8f8f8; }\n");
    out.append("</style>\n");
    out.append("</head>\n");
    out.append("<body>\n");
    out.append("<h1>Structure Heatmap Report</h1>\n");
    out.append("<h2>Directory Summary</h2>\n");
    out.append("<table>\n");
    out.append("<thead><tr><th>Path</th><th>Files</th><th>Lines</th></tr></thead>\n");
    out.append("<tbody>\n");
    assert(out@ =~= html_head());
    let ghost head = out@;
    let mut i: usize = 0;
    while i < aggregates.len()
        invariant
            i <= aggregates@.len(),
            out@ == head + html_dir_rows(aggregates@.take(i as int)),
        decreases aggregates@.len() - i,
    {
        let a = &aggregates[i];
        let ghost before = out@;
        out.append("<tr><td>");
        if a.path.as_str().unicode_len() == 0 {
            out.append(escape(".").as_str());
        } else {
            out.append(escape(a.path.as_str()).as_str());
        }
        out.append("</td><td class=\"num\">");
        out.append(fmt_num(a.files).as_str());
        out.append("</td><td class=\"num\">");
        out.append(fmt_num(a.lines).as_str());
        out.append("</td></tr>\n");
        proof {
            assert(aggregates@.take(i + 1).drop_last() =~= aggregates@.take(i as int));
            assert(out@ =~= before + html_dir_row(aggregates@[i as int]));
        }
        i = i + 1;
    }
    assert(aggregates@.take(i as int) =~= aggregates@);
    out.append("</tbody>\n");
    out.append("</table>\n");
    out.append("<h2>Hotspots</h2>\n");
    let ghost mid = out@;
    if hotspots.len() == 0 {
        out.append("<p>No hotspots found.</p>\n");
    } else {
        out.append("<table>\n");
        out.append(
            "<thead><tr><th>Path</th><th>Kind</th><th>Lines</th><th>Median</th><th>Ratio</th></tr></thead>\n",
        );
        out.append("<tbody>\n");
        let ghost table = out@;
        let mut j: usize = 0;
        while j < hotspots.len()
            invariant
                j <= hotspots@.len(),
                out@ == table + html_hotspot_rows(hotspots@.take(j as int)),
            decreases hotspots@.len() - j,
        {
            let h = &hotspots[j];
            let ghost before = out@;
            out.append("<tr><td>");
            out.append(escape(h.path.as_str()).as_str());
            out.append("</td><td>");
            out.append(kind_str(h.kind));
            out.append("</td><td class=\"num\">");
            out.append(fmt_num(h.lines).as_str());
            out.append("</td><td class=\"num\">");
            out.append(fmt_num(h.baseline).as_str());
            out.append("</td><td class=\"num\">");
            out.append(h.ratio.as_str());
            out.append("x</td></tr>\n");
            proof {
                assert(hotspots@.take(j + 1).drop_last() =~= hotspots@.take(j as int));
                assert(out@ =~= before + html_hotspot_row(hotspots@[j as int]));
            }
            j = j + 1;
        }
        assert(hotspots@.take(j as int) =~= hotspots@);
        out.append("</tbody>\n");
        out.append("</table>\n");
    }
    out.append("</body>\n");
    out.append("</html>\n");
    assert(out@ =~= html_report(aggregates@, hotspots@));
    out
}

} // verus!
