use sheat::aggregate::DirAggregate;
use sheat::hotspot::HotspotKind;
use sheat::output::html::{escape, fmt_num};
use sheat::output::markdown::format_num;
use sheat::output::{html, markdown, HotspotRow};

#[test]
fn escape_html_chars() {
    assert_eq!(escape("<script>"), "&lt;script&gt;");
    assert_eq!(escape("a & b"), "a &amp; b");
}

#[test]
fn format_num_basic() {
    assert_eq!(format_num(0), "0");
    assert_eq!(format_num(999), "999");
    assert_eq!(format_num(1000), "1,000");
    assert_eq!(format_num(1234567), "1,234,567");
}

#[test]
fn render_is_valid_html() {
    let aggs = vec![DirAggregate {
        path: "".to_string(),
        files: 1,
        lines: 5,
    }];
    let html = html::render(&aggs, &[]);
    assert!(html.contains("<!DOCTYPE html>"));
    assert!(html.contains("No hotspots found."));
}

#[test]
fn render_no_hotspots_message() {
    let aggs = vec![DirAggregate {
        path: "".to_string(),
        files: 1,
        lines: 10,
    }];
    let out = markdown::render(&aggs, &[]);
    assert!(out.contains("No hotspots found."));
}

#[test]
fn render_includes_hotspot_row() {
    let aggs = vec![DirAggregate {
        path: "src".to_string(),
        files: 2,
        lines: 100,
    }];
    let hotspots = vec![HotspotRow {
        path: "src/big.rs".to_string(),
        lines: 90,
        baseline: 10,
        ratio: format!("{:.1}", 9.0f64),
        kind: HotspotKind::File,
    }];
    let out = markdown::render(&aggs, &hotspots);
    assert!(out.contains("src/big.rs"));
    assert!(out.contains("9.0x"));
}

// ---- further cases ----

#[test]
fn escape_all_special_characters() {
    assert_eq!(escape("\"it's\" <&>"), "&quot;it&#39;s&quot; &lt;&amp;&gt;");
    assert_eq!(escape("plain"), "plain");
    assert_eq!(escape(""), "");
}

#[test]
fn fmt_num_matches_format_num() {
    for n in [0usize, 12, 123, 1234, 12345, 123456, 1000000, usize::MAX] {
        assert_eq!(fmt_num(n), format_num(n));
    }
    assert_eq!(format_num(18446744073709551615usize), "18,446,744,073,709,551,615");
}

#[test]
fn markdown_report_exact_text() {
    let aggs = vec![
        DirAggregate { path: "".to_string(), files: 3, lines: 1200 },
        DirAggregate { path: "src".to_string(), files: 2, lines: 1100 },
    ];
    let rows = vec![HotspotRow {
        path: "src/big.rs".to_string(),
        kind: HotspotKind::Directory,
        lines: 1000,
        baseline: 100,
        ratio: "10.0".to_string(),
    }];
    let out = markdown::render(&aggs, &rows);
    let expected = "## Directory Summary\n\n| Path | Files | Lines |\n| --- | ---: | ---: |\n\
| . | 3 | 1,200 |\n| src | 2 | 1,100 |\n\n## Hotspots\n\n\
| Path | Kind | Lines | Median | Ratio |\n| --- | --- | ---: | ---: | ---: |\n\
| src/big.rs | dir | 1,000 | 100 | 10.0x |\n";
    assert_eq!(out, expected);
}

#[test]
fn html_report_is_self_contained_and_escaped() {
    let aggs = vec![DirAggregate { path: "a<b".to_string(), files: 1, lines: 2000 }];
    let rows = vec![HotspotRow {
        path: "a<b/c&d.rs".to_string(),
        kind: HotspotKind::File,
        lines: 2000,
        baseline: 5,
        ratio: "400.0".to_string(),
    }];
    let out = html::render(&aggs, &rows);
    assert!(out.starts_with("<!DOCTYPE html>\n"));
    assert!(out.ends_with("</body>\n</html>\n"));
    assert!(!out.contains("http"));
    assert!(out.contains("<tr><td>a&lt;b</td><td class=\"num\">1</td><td class=\"num\">2,000</td></tr>\n"));
    assert!(out.contains("<tr><td>a&lt;b/c&amp;d.rs</td><td>file</td><td class=\"num\">2,000</td><td class=\"num\">5</td><td class=\"num\">400.0x</td></tr>\n"));
    assert!(!out.contains("No hotspots found."));
}

#[test]
fn escaped_text_has_no_markup() {
    let e = escape("<a href=\"x\" title='y'>&</a>");
    assert!(!e.contains(['<', '>', '"', '\'']));
    assert_eq!(e, "&lt;a href=&quot;x&quot; title=&#39;y&#39;&gt;&amp;&lt;/a&gt;");
}

#[test]
fn grouped_number_without_commas_is_decimal() {
    for n in [0usize, 7, 999, 1000, 65536, 1234567, usize::MAX] {
        assert_eq!(fmt_num(n).replace(',', ""), n.to_string());
    }
    assert_eq!(fmt_num(1234567), "1,234,567");
}
