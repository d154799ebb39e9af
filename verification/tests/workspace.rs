use jgrep::error::JinaError;
use jgrep::types::JinaTask;
use jgrep::workspace::{
    check_profile, default_profile_id, keep_record, profile_for, profile_index_path, require_index,
    sanitize_profile_id, PREPROCESSING_VERSION,
};

#[test]
fn default_profile_ids() {
    assert_eq!(
        default_profile_id("jina-embeddings-v5-small", JinaTask::Retrieval, None),
        "jina-local__jina-embeddings-v5-small__retrieval__1024__v1"
    );
    assert_eq!(
        default_profile_id("jina-code-embeddings-1.5b", JinaTask::Nl2Code, Some(256)),
        "jina-local__jina-code-embeddings-1_5b__nl2code__256__v1"
    );
    assert_eq!(default_profile_id("my model", JinaTask::Qa, None), "jina-local__my_model__qa__0__v1");
}

#[test]
fn sanitizing_is_idempotent() {
    let once = sanitize_profile_id("a/b c.d-é_9");
    assert_eq!(once, "a_b_c_d-__9");
    assert_eq!(sanitize_profile_id(&once), once);
}

#[test]
fn profiles() {
    let p = profile_for("prof", "jina-embeddings-v5-nano", JinaTask::Clustering, None);
    assert_eq!(p.id, "prof");
    assert_eq!(p.backend, "rust-native-candle");
    assert_eq!(p.task, "clustering");
    assert_eq!(p.dimension, 768);
    assert_eq!(p.truncate_dim, None);
    assert_eq!(p.preprocessing_version, PREPROCESSING_VERSION);
    assert_eq!(check_profile(&p, "prof", "jina-embeddings-v5-nano", JinaTask::Clustering), Ok(()));
    let err = check_profile(&p, "prof", "jina-embeddings-v5-nano", JinaTask::Retrieval).err().unwrap();
    assert_eq!(
        err.message(),
        "profile 'prof' was built with model 'jina-embeddings-v5-nano' task 'clustering', but query requested model 'jina-embeddings-v5-nano' task 'retrieval'"
    );
}

#[test]
fn index_paths_and_records() {
    assert_eq!(profile_index_path("/ws", "p1"), "/ws/jina_profiles/p1.json");
    let synced = vec!["a.rs".to_string(), "b.rs".to_string()];
    assert!(!keep_record("a.rs", &synced, true));
    assert!(keep_record("c.rs", &synced, true));
    assert!(!keep_record("c.rs", &synced, false));
    assert_eq!(require_index(Some(5u8), "p"), Ok(5u8));
    assert_eq!(
        require_index::<u8>(None, "p"),
        Err(JinaError::ProfileNotIndexed { profile: "p".to_string() })
    );
}
