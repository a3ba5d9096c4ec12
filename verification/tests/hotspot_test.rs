use sheat::aggregate::{aggregate, DirAggregate};
use sheat::config::LineMode;
use sheat::hotspot::{
    dir_hotspot_candidates, file_hotspot_candidates, median_nonzero, HotspotCandidate, HotspotKind,
    Median,
};
use sheat::traverse::FileRecord;

fn make_record(path: &str, lines: usize) -> FileRecord {
    FileRecord {
        path: path.to_string(),
        bytes: 0,
        lines,
        line_mode: LineMode::Physical,
    }
}

fn median_value(m: &Median) -> f64 {
    (m.low + m.high) as f64 / 2.0
}

fn above(cands: Vec<HotspotCandidate>, min_ratio: f64) -> Vec<HotspotCandidate> {
    cands
        .into_iter()
        .filter(|c| c.lines as f64 / median_value(&c.baseline) >= min_ratio)
        .collect()
}

#[test]
fn detects_large_file() {
    let records = vec![
        make_record("a.rs", 10),
        make_record("b.rs", 10),
        make_record("big.rs", 100),
    ];
    let hotspots = above(file_hotspot_candidates(&records), 3.0);
    assert_eq!(hotspots.len(), 1);
    assert_eq!(hotspots[0].path, "big.rs");
    assert_eq!(hotspots[0].lines, 100);
    assert_eq!(median_value(&hotspots[0].baseline), 10.0);
}

#[test]
fn no_hotspot_when_below_ratio() {
    let records = vec![make_record("a.rs", 10), make_record("b.rs", 20)];
    let hotspots = above(file_hotspot_candidates(&records), 3.0);
    assert!(hotspots.is_empty());
}

#[test]
fn median_excludes_zeros() {
    assert_eq!(median_nonzero(&[0, 0, 10]).map(|m| median_value(&m)), Some(10.0));
    assert_eq!(median_nonzero(&[0, 0, 0]), None);
}

#[test]
fn median_even_count() {
    assert_eq!(median_nonzero(&[2, 4]).map(|m| median_value(&m)), Some(3.0));
}

// ---- further cases ----

#[test]
fn median_middle_values() {
    assert_eq!(median_nonzero(&[5, 1, 3]), Some(Median { low: 3, high: 3 }));
    assert_eq!(median_nonzero(&[9, 0, 1, 7, 3]), Some(Median { low: 3, high: 7 }));
    assert_eq!(median_nonzero(&[]), None);
    assert_eq!(median_nonzero(&[4, 4, 4, 1]), Some(Median { low: 4, high: 4 }));
}

#[test]
fn lone_file_has_no_candidate() {
    let records = vec![make_record("src/a.rs", 10), make_record("b.rs", 20), make_record("c.rs", 0)];
    let c = file_hotspot_candidates(&records);
    let paths: Vec<&str> = c.iter().map(|x| x.path.as_str()).collect();
    assert_eq!(paths, vec!["b.rs", "c.rs"]);
    assert_eq!(c[0].baseline, Median { low: 20, high: 20 });
    assert_eq!(c[0].kind, HotspotKind::File);
}

#[test]
fn siblings_all_empty_give_no_candidate() {
    let records = vec![make_record("a.rs", 0), make_record("b.rs", 0)];
    assert!(file_hotspot_candidates(&records).is_empty());
}

#[test]
fn directory_candidates_leave_root_out_of_siblings() {
    let records = vec![
        make_record("src/a.rs", 10),
        make_record("tests/b.rs", 20),
        make_record("top.rs", 5),
    ];
    let aggs = aggregate(&records, None);
    let c = dir_hotspot_candidates(&aggs);
    let paths: Vec<&str> = c.iter().map(|x| x.path.as_str()).collect();
    assert_eq!(paths, vec!["src", "tests"]);
    // siblings under the root: "src" (10) and "tests" (20); the root is not one
    assert_eq!(c[0].baseline, Median { low: 10, high: 20 });
    assert_eq!(c[1].kind, HotspotKind::Directory);
}

#[test]
fn directory_hotspot_against_siblings_only() {
    let d = |p: &str, f: usize, l: usize| DirAggregate { path: p.to_string(), files: f, lines: l };
    let aggs = vec![d("", 3, 120), d("a", 1, 10), d("b", 1, 10), d("c", 1, 100)];
    let hot = above(dir_hotspot_candidates(&aggs), 3.0);
    assert_eq!(hot.len(), 1);
    assert_eq!(hot[0].path, "c");
    assert_eq!(hot[0].lines, 100);
    assert_eq!(median_value(&hot[0].baseline), 10.0);
    assert_eq!(hot[0].lines as f64 / median_value(&hot[0].baseline), 10.0);
    assert_eq!(hot[0].kind, HotspotKind::Directory);
}

#[test]
fn lone_directory_has_no_candidate() {
    let aggs = vec![DirAggregate { path: "only".to_string(), files: 1, lines: 3 }];
    assert!(dir_hotspot_candidates(&aggs).is_empty());
}

#[test]
fn median_unchanged_by_added_zero() {
    let with = median_nonzero(&[7, 1, 4, 0]);
    let without = median_nonzero(&[7, 1, 4]);
    assert_eq!(with, without);
    assert_eq!(with, Some(Median { low: 4, high: 4 }));
}

#[test]
fn median_independent_of_order() {
    assert_eq!(median_nonzero(&[1, 9, 3, 5]), median_nonzero(&[5, 3, 9, 1]));
    assert_eq!(median_nonzero(&[1, 9, 3, 5]), Some(Median { low: 3, high: 5 }));
}

#[test]
fn median_is_positive_and_ordered() {
    let m = median_nonzero(&[0, 2, 0, 8]).unwrap();
    assert!(0 < m.low && m.low <= m.high);
    assert_eq!(m, Median { low: 2, high: 8 });
}
