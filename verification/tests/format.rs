use jgrep::format::{count_by_file, count_lines, format_prefix, format_result, matched_files, unmatched_files, ResultText};

fn result(path: Option<&str>, line: Option<usize>, text: &str, score: &str) -> ResultText {
    ResultText {
        path: path.map(|p| p.to_string()),
        line_number: line,
        text: text.to_string(),
        score: score.to_string(),
        context_before: Vec::new(),
        context_after: Vec::new(),
        original_line: None,
        label: None,
        label_scores: String::new(),
    }
}

#[test]
fn formats_basic_result() {
    let r = result(Some("src/lib.rs"), Some(7), "retry logic", &format!("{:.3}", 0.875f32));
    assert_eq!(format_result(&r, true, true), "src/lib.rs:7:retry logic  [0.875]");
}

#[test]
fn formats_context_lines_with_dash_prefix() {
    let mut r = result(Some("a.rs"), Some(3), "hit", "0.900");
    r.context_before = vec!["before".to_string()];
    r.context_after = vec!["after1".to_string(), "after2".to_string()];
    assert_eq!(
        format_result(&r, true, true),
        "a.rs-3-before\na.rs:3:hit  [0.900]\na.rs-3-after1\na.rs-3-after2"
    );
    assert_eq!(format_result(&r, false, false), "before\nhit  [0.900]\nafter1\nafter2");
}

#[test]
fn formats_piped_and_labelled_results() {
    let mut r = result(Some("a.rs"), Some(1), "retry timeout", "0.812");
    r.original_line = Some("a.rs:1:retry timeout".to_string());
    assert_eq!(format_result(&r, true, true), "a.rs:1:retry timeout  [0.812]");
    let mut r = result(None, Some(4), "text", "0.700");
    r.label = Some("bug".to_string());
    r.label_scores = "bug:0.700 docs:0.100".to_string();
    assert_eq!(format_result(&r, true, true), "4:text  [bug] [bug:0.700 docs:0.100]");
}

#[test]
fn prefixes() {
    assert_eq!(format_prefix(&Some("p".to_string()), Some(12), true, true, ':'), "p:12:");
    assert_eq!(format_prefix(&Some("p".to_string()), Some(12), false, true, '-'), "12-");
    assert_eq!(format_prefix(&None, Some(12), true, false, ':'), "");
}

#[test]
fn file_listings() {
    let paths = vec![Some("b".to_string()), None, Some("a".to_string()), Some("b".to_string())];
    assert_eq!(matched_files(&paths), vec!["b".to_string(), "a".to_string()]);
    let files = vec!["a".to_string(), "b".to_string(), "c".to_string()];
    assert_eq!(unmatched_files(&files, &paths), vec!["c".to_string()]);
    assert_eq!(
        count_lines(&files, &paths, true),
        vec!["a:1".to_string(), "b:2".to_string(), "c:0".to_string()]
    );
    assert_eq!(count_lines(&files, &paths, false), vec!["1".to_string(), "2".to_string(), "0".to_string()]);
}

#[test]
fn counts_by_file_in_order_of_first_result() {
    let paths = vec![Some("b".to_string()), None, Some("a".to_string()), Some("b".to_string())];
    assert_eq!(count_by_file(&paths), vec![("b".to_string(), 2), ("a".to_string(), 1)]);
    assert!(count_by_file(&vec![None, None]).is_empty());
}
