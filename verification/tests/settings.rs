use jgrep::error::JinaError;
use jgrep::settings::{
    build_settings, collect_labels, collect_paths, collect_paths_for_classification, color_enabled,
    has_results, is_classification_mode, required_pattern, resolve_model, select_mode, SearchFlags,
    SearchMode,
};
use jgrep::types::{ColorWhen, Granularity, JinaTask};

fn flags(model: &str) -> SearchFlags {
    SearchFlags {
        recursive: false,
        files_with_matches: false,
        files_without_match: false,
        count: false,
        line_number: true,
        with_filename: false,
        no_filename: false,
        after_context: 0,
        before_context: 0,
        context: 0,
        include_patterns: Vec::new(),
        exclude_patterns: Vec::new(),
        exclude_dir_patterns: Vec::new(),
        color: ColorWhen::Auto,
        invert_match: false,
        max_count: None,
        quiet: false,
        top_k: None,
        model: model.to_string(),
        task: None,
        truncate_dim: None,
        fast: false,
        batch_size: 256,
        granularity: Granularity::Token,
        file_count: 1,
    }
}

#[test]
fn default_settings() {
    let s = build_settings(flags("jina-embeddings-v5-small"), false).unwrap();
    assert_eq!(s.task, JinaTask::Retrieval);
    assert_eq!(s.truncate_dim, None);
    assert_eq!(s.top_k, 10);
    assert_eq!(s.batch_size, 256);
    assert!(!s.with_filename);
    assert!(!s.color);
    assert_eq!((s.after_context, s.before_context), (0, 0));
    assert_eq!(s.granularity, Granularity::Token);
}

#[test]
fn default_settings_hold_for_every_model() {
    for m in [
        "jina-embeddings-v5-small",
        "jina-code-embeddings-1.5b",
        "jina-embeddings-v5-nano",
        "jina-code-embeddings-0.5b",
    ] {
        for fast in [false, true] {
            let mut f = flags(m);
            f.fast = fast;
            assert!(build_settings(f, true).is_ok());
        }
    }
}

#[test]
fn fast_picks_a_smaller_dimension() {
    let mut f = flags("jina-code-embeddings-1.5b");
    f.fast = true;
    let s = build_settings(f, false).unwrap();
    assert_eq!(s.truncate_dim, Some(512));
    assert_eq!(s.task, JinaTask::Nl2Code);
    let mut f = flags("jina-embeddings-v5-nano");
    f.fast = true;
    assert_eq!(build_settings(f, false).unwrap().truncate_dim, Some(256));
    let mut f = flags("jina-embeddings-v5-nano");
    f.fast = true;
    f.truncate_dim = Some(64);
    assert_eq!(build_settings(f, false).unwrap().truncate_dim, Some(64));
}

#[test]
fn context_and_file_names() {
    let mut f = flags("jina-embeddings-v5-small");
    f.context = 2;
    f.after_context = 5;
    f.before_context = 7;
    f.file_count = 2;
    let s = build_settings(f, false).unwrap();
    assert_eq!((s.after_context, s.before_context), (2, 2));
    assert!(s.with_filename);
    let mut f = flags("jina-embeddings-v5-small");
    f.after_context = 5;
    f.before_context = 7;
    f.recursive = true;
    f.no_filename = true;
    f.batch_size = 0;
    f.top_k = Some(3);
    let s = build_settings(f, false).unwrap();
    assert_eq!((s.after_context, s.before_context), (5, 7));
    assert!(!s.with_filename);
    assert_eq!(s.batch_size, 1);
    assert_eq!(s.top_k, 3);
}

#[test]
fn settings_errors_come_in_order() {
    let err = build_settings(flags("nope"), false).err().unwrap();
    assert_eq!(err, JinaError::UnknownModel { model: "nope".to_string() });
    assert_eq!(err.message(), "unsupported Jina model: nope");
    let mut f = flags("jina-embeddings-v5-small");
    f.task = Some(JinaTask::Qa);
    f.truncate_dim = Some(3);
    assert!(matches!(
        build_settings(f, false).err().unwrap(),
        JinaError::UnsupportedTask { task: JinaTask::Qa, .. }
    ));
    let mut f = flags("jina-embeddings-v5-small");
    f.truncate_dim = Some(3);
    assert!(matches!(
        build_settings(f, false).err().unwrap(),
        JinaError::UnsupportedTruncateDim { dim: 3, .. }
    ));
}

#[test]
fn resolve_model_uses_given_task() {
    let (info, task, dim) = resolve_model("jina-code-embeddings-0.5b", Some(JinaTask::Qa), true, None).unwrap();
    assert_eq!(info.dimension, 896);
    assert_eq!(task, JinaTask::Qa);
    assert_eq!(dim, Some(512));
}

#[test]
fn colors() {
    assert!(!color_enabled(ColorWhen::Never, true));
    assert!(color_enabled(ColorWhen::Always, false));
    assert!(color_enabled(ColorWhen::Auto, true));
    assert!(!color_enabled(ColorWhen::Auto, false));
}

#[test]
fn modes() {
    assert!(is_classification_mode(true, 0, false));
    assert!(is_classification_mode(false, 2, false));
    assert!(is_classification_mode(false, 0, true));
    assert!(!is_classification_mode(false, 0, false));
    assert_eq!(select_mode(true, true, true, false), SearchMode::Classify);
    assert_eq!(select_mode(false, true, true, false), SearchMode::Workspace);
    assert_eq!(select_mode(false, false, true, false), SearchMode::Pipe);
    assert_eq!(select_mode(false, false, true, true), SearchMode::Grep);
    assert_eq!(select_mode(false, false, false, false), SearchMode::Grep);
    assert_eq!(SearchMode::Classify.as_str(), "classify");
    assert_eq!(SearchMode::Workspace.as_str(), "workspace");
    assert_eq!(SearchMode::Pipe.as_str(), "pipe");
    assert_eq!(SearchMode::Grep.as_str(), "grep");
}

#[test]
fn labels_from_flags_and_file() {
    let labels = collect_labels(vec!["bug".to_string()], Some("  feature \n\n\t\ndocs\r\n")).unwrap();
    assert_eq!(labels, vec!["bug".to_string(), "feature".to_string(), "docs".to_string()]);
    assert_eq!(collect_labels(Vec::new(), Some(" \n")), Err(JinaError::MissingLabels));
    assert_eq!(collect_labels(Vec::new(), None), Err(JinaError::MissingLabels));
}

#[test]
fn paths_default_to_current_directory() {
    assert_eq!(collect_paths(Vec::new()), vec![".".to_string()]);
    assert_eq!(collect_paths(vec!["a".to_string(), "b".to_string()]), vec!["a".to_string(), "b".to_string()]);
    assert_eq!(collect_paths_for_classification(Vec::new(), Some("src".to_string())), vec!["src".to_string()]);
    assert_eq!(collect_paths_for_classification(Vec::new(), None), vec![".".to_string()]);
    assert_eq!(
        collect_paths_for_classification(vec!["x".to_string()], Some("src".to_string())),
        vec!["x".to_string()]
    );
}

#[test]
fn pattern_and_exit_status() {
    assert_eq!(required_pattern(Some("q".to_string())), Ok("q".to_string()));
    assert_eq!(required_pattern(None), Err(JinaError::MissingPattern));
    assert!(has_results(true, 0));
    assert!(has_results(false, 1));
    assert!(!has_results(false, 0));
}
