use sheat::config::LineMode;
use sheat::traverse::{file_record, parent_dir, relative_path, sort_by_path, FileRecord};

#[test]
fn parent_dir_works() {
    assert_eq!(parent_dir("src/foo/bar.rs"), "src/foo");
    assert_eq!(parent_dir("main.rs"), "");
    assert_eq!(parent_dir("a/b"), "a");
}

// ---- further cases ----

#[test]
fn parent_dir_of_leading_slash() {
    assert_eq!(parent_dir("/a"), "");
    assert_eq!(parent_dir("a//b"), "a/");
    assert_eq!(parent_dir(""), "");
}

#[test]
fn relative_path_joins_remaining_components() {
    let base = vec!["/".to_string(), "tmp".to_string()];
    let path = vec![
        "/".to_string(),
        "tmp".to_string(),
        "src".to_string(),
        "main.rs".to_string(),
    ];
    assert_eq!(relative_path(&base, &path), Some("src/main.rs".to_string()));
    assert_eq!(relative_path(&base, &base), Some(String::new()));
}

#[test]
fn relative_path_outside_base_is_none() {
    let base = vec!["/".to_string(), "tmp".to_string()];
    let other = vec!["/".to_string(), "var".to_string(), "x".to_string()];
    assert_eq!(relative_path(&base, &other), None);
    assert_eq!(relative_path(&base, &vec!["/".to_string()]), None);
}

#[test]
fn file_record_counts_content() {
    let r = file_record("a/b.rs".to_string(), b"x\n// c\n", Some("rs"), &LineMode::Sloc);
    assert_eq!(r.path, "a/b.rs");
    assert_eq!(r.bytes, 7);
    assert_eq!(r.lines, 1);
    assert_eq!(r.line_mode, LineMode::Sloc);
    let p = file_record("t.txt".to_string(), b"x\n// c\n", None, &LineMode::Physical);
    assert_eq!(p.lines, 2);
}

fn rec(path: &str, lines: usize) -> FileRecord {
    FileRecord { path: path.to_string(), bytes: 0, lines, line_mode: LineMode::Physical }
}

#[test]
fn sort_by_path_orders_by_code_point() {
    let records = vec![rec("b.rs", 1), rec("a/z.rs", 2), rec("a.rs", 3), rec("B.rs", 4), rec("é.rs", 5)];
    let sorted = sort_by_path(records);
    let paths: Vec<&str> = sorted.iter().map(|r| r.path.as_str()).collect();
    assert_eq!(paths, vec!["B.rs", "a.rs", "a/z.rs", "b.rs", "é.rs"]);
    assert_eq!(sorted[2].lines, 2);
}

#[test]
fn sort_by_path_keeps_equal_paths_in_order() {
    let sorted = sort_by_path(vec![rec("x", 1), rec("a", 2), rec("x", 3)]);
    let lines: Vec<usize> = sorted.iter().map(|r| r.lines).collect();
    assert_eq!(lines, vec![2, 1, 3]);
    assert!(sort_by_path(Vec::new()).is_empty());
}
