use jgrep::filter::{build_globset, should_exclude_dir, should_include_file};

fn set(patterns: &[&str]) -> globset::GlobSet {
    build_globset(&patterns.iter().map(|p| p.to_string()).collect()).unwrap().unwrap()
}

#[test]
fn no_patterns_give_no_set() {
    assert!(build_globset(&Vec::new()).unwrap().is_none());
    assert!(build_globset(&vec!["a[".to_string()]).is_err());
}

#[test]
fn include_and_exclude_match_path_or_file_name() {
    let rs = set(&["*.rs"]);
    assert!(should_include_file("src/main.rs", Some(&rs), None));
    assert!(!should_include_file("src/main.py", Some(&rs), None));
    let named = set(&["main.rs"]);
    assert!(should_include_file("deep/dir/main.rs", Some(&named), None));
    assert!(!should_include_file("deep/dir/main.rs", None, Some(&named)));
    assert!(should_include_file("deep/dir/lib.rs", Some(&rs), Some(&named)));
    assert!(should_include_file("anything", None, None));
}

#[test]
fn excluded_directories() {
    assert!(should_exclude_dir(true, ".git", "repo/.git", None));
    assert!(should_exclude_dir(true, "node_modules", "x/node_modules", None));
    assert!(!should_exclude_dir(true, "src", "repo/src", None));
    let target = set(&["target"]);
    assert!(should_exclude_dir(true, "target", "repo/target", Some(&target)));
    assert!(!should_exclude_dir(false, ".git", "repo/.git", Some(&target)));
    assert!(!should_exclude_dir(false, "target", "repo/target", Some(&target)));
}

#[test]
fn file_names_follow_path_components() {
    let b = set(&["b"]);
    assert!(should_include_file("a/b", Some(&b), None));
    assert!(should_include_file("a/b/", Some(&b), None));
    assert!(should_include_file("a/b/.", Some(&b), None));
    assert!(should_include_file("./b", Some(&b), None));
    assert!(!should_include_file("a/b/..", Some(&b), None));
    assert!(!should_include_file("/", Some(&b), None));
    assert!(!should_include_file(".", Some(&b), None));
}
