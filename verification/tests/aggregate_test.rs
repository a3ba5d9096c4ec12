use sheat::aggregate::{aggregate, depth};
use sheat::config::LineMode;
use sheat::traverse::{parent_dir, FileRecord};

fn make_record(path: &str, lines: usize) -> FileRecord {
    FileRecord {
        path: path.to_string(),
        bytes: 0,
        lines,
        line_mode: LineMode::Physical,
    }
}

#[test]
fn aggregate_single_dir() {
    let records = vec![make_record("a.rs", 10), make_record("b.rs", 20)];
    let aggs = aggregate(&records, None);
    let root = aggs.iter().find(|a| a.path.is_empty()).unwrap();
    assert_eq!(root.files, 2);
    assert_eq!(root.lines, 30);
}

#[test]
fn aggregate_nested() {
    let records = vec![
        make_record("src/a.rs", 10),
        make_record("src/b.rs", 20),
        make_record("tests/c.rs", 5),
    ];
    let aggs = aggregate(&records, None);
    let root = aggs.iter().find(|a| a.path.is_empty()).unwrap();
    assert_eq!(root.files, 3);
    assert_eq!(root.lines, 35);
    let src = aggs.iter().find(|a| a.path == "src").unwrap();
    assert_eq!(src.files, 2);
    assert_eq!(src.lines, 30);
}

#[test]
fn aggregate_max_depth() {
    let records = vec![make_record("a/b/c.rs", 5)];
    let aggs = aggregate(&records, Some(1));
    assert!(aggs.iter().all(|a| !a.path.contains("a/b")));
}

#[test]
fn depth_fn() {
    assert_eq!(depth(""), 0);
    assert_eq!(depth("src"), 1);
    assert_eq!(depth("src/foo"), 2);
    assert_eq!(depth("src/foo/bar"), 3);
}

// ---- further cases ----

#[test]
fn aggregate_is_sorted_and_complete() {
    let records = vec![
        make_record("z/x.rs", 1),
        make_record("a/b/c.rs", 2),
        make_record("a/d.rs", 3),
        make_record("top.rs", 4),
    ];
    let aggs = aggregate(&records, None);
    let paths: Vec<&str> = aggs.iter().map(|a| a.path.as_str()).collect();
    assert_eq!(paths, vec!["", "a", "a/b", "z"]);
    let a = &aggs[1];
    assert_eq!((a.files, a.lines), (2, 5));
    let ab = &aggs[2];
    assert_eq!((ab.files, ab.lines), (1, 2));
    assert_eq!((aggs[0].files, aggs[0].lines), (4, 10));
}

#[test]
fn aggregate_depth_zero_keeps_only_root() {
    let records = vec![make_record("a/b/c.rs", 5), make_record("d.rs", 1)];
    let aggs = aggregate(&records, Some(0));
    assert_eq!(aggs.len(), 1);
    assert_eq!(aggs[0].path, "");
    assert_eq!(aggs[0].lines, 6);
}

#[test]
fn aggregate_of_nothing_is_empty() {
    assert!(aggregate(&[], None).is_empty());
}

#[test]
fn every_directory_counts_its_descendants() {
    let records = vec![make_record("a/b/c/d.rs", 7), make_record("a/e.rs", 1)];
    let aggs = aggregate(&records, Some(2));
    let paths: Vec<&str> = aggs.iter().map(|a| a.path.as_str()).collect();
    assert_eq!(paths, vec!["", "a", "a/b"]);
    assert_eq!(aggs[1].lines, 8);
    assert_eq!(aggs[2].lines, 7);
}

#[test]
fn max_depth_only_drops_rows() {
    let records = vec![
        make_record("a/b/c.rs", 5),
        make_record("a/d.rs", 7),
        make_record("e/f/g/h.rs", 2),
        make_record("top.rs", 1),
    ];
    let all = aggregate(&records, None);
    for d in 0..5 {
        let cut = aggregate(&records, Some(d));
        let expected: Vec<(String, usize, usize)> = all
            .iter()
            .filter(|a| depth(&a.path) <= d)
            .map(|a| (a.path.clone(), a.files, a.lines))
            .collect();
        let got: Vec<(String, usize, usize)> =
            cut.iter().map(|a| (a.path.clone(), a.files, a.lines)).collect();
        assert_eq!(got, expected);
    }
}

#[test]
fn max_depth_zero_reports_root_alone() {
    let records = vec![make_record("a/b.rs", 3), make_record("c.rs", 4)];
    let cut = aggregate(&records, Some(0));
    assert_eq!(cut.len(), 1);
    assert_eq!(cut[0].path, "");
    assert_eq!(cut[0].files, 2);
    assert_eq!(cut[0].lines, 7);
    assert!(aggregate(&[], Some(0)).is_empty());
}

#[test]
fn parent_is_one_level_up() {
    for p in ["a", "a/b", "src/foo/bar.rs", "a//b", "a/"] {
        let parent = parent_dir(p);
        assert!(p.starts_with(parent));
        assert_eq!(depth(parent) + 1, depth(p));
        assert!(parent.is_empty() || p.as_bytes()[parent.len()] == b'/');
    }
}
