use jgrep::error::JinaError;
use jgrep::runtime::{
    assets_result, hf_snapshots_dir, join, missing_asset_files, model_assets, newest_entry, NativeJinaEmbedder,
    RuntimeBackend,
};
use jgrep::types::JinaModelInfo;

#[test]
fn status_reports_missing_model() {
    let embedder = NativeJinaEmbedder::new(Some("/definitely/missing".to_string()));
    let status = embedder.model_status("jina-embeddings-v5-small", None, (false, false, false)).expect("status");
    assert!(!status.available);
    assert!(status.missing_files.contains(&"config.json".to_string()));
}

#[test]
fn status_without_any_directory_lists_every_file() {
    let embedder = NativeJinaEmbedder::new(None);
    let status = embedder.model_status("jina-code-embeddings-1.5b", None, (true, true, true)).unwrap();
    assert_eq!(status.repo_id, "jinaai/jina-code-embeddings-1.5b-mlx");
    assert_eq!(status.dimension, 1536);
    assert!(!status.available);
    assert_eq!(status.path, None);
    assert_eq!(status.missing_files, vec!["config.json", "tokenizer.json", "model.safetensors"]);
    let err = embedder.model_status("other", None, (true, true, true)).err().unwrap();
    assert_eq!(err.message(), "unsupported model: other");
}

#[test]
fn configured_directory_wins_over_snapshot() {
    let embedder = NativeJinaEmbedder::new(Some("/definitely/missing".to_string()));
    let status = embedder
        .model_status("jina-embeddings-v5-nano", Some("/also/missing".to_string()), (false, false, false))
        .unwrap();
    assert_eq!(status.path.as_deref(), Some("/definitely/missing"));
    let embedder = NativeJinaEmbedder::new(None);
    let status = embedder
        .model_status("jina-embeddings-v5-nano", Some("/also/missing".to_string()), (false, false, false))
        .unwrap();
    assert_eq!(status.path.as_deref(), Some("/also/missing"));
}

#[test]
fn resolving_assets_reports_each_failure() {
    let embedder = NativeJinaEmbedder::new(None);
    assert_eq!(
        embedder.resolve_assets("x", None, (true, true, true)).err().unwrap(),
        JinaError::UnsupportedAssetModel { model: "x".to_string() }
    );
    assert_eq!(
        embedder.resolve_assets("jina-embeddings-v5-small", None, (true, true, true)).err().unwrap(),
        JinaError::MissingModel {
            model: "jina-embeddings-v5-small".to_string(),
            repo_id: "jinaai/jina-embeddings-v5-text-small-mlx".to_string(),
        }
    );
    let embedder = NativeJinaEmbedder::new(Some("/definitely/missing".to_string()));
    let err = embedder.resolve_assets("jina-embeddings-v5-small", None, (false, false, false)).err().unwrap();
    assert_eq!(
        err.message(),
        "model assets for 'jina-embeddings-v5-small' are incomplete at /definitely/missing. Missing: config.json, tokenizer.json, model.safetensors"
    );
}

#[test]
fn embedder_batch_size_is_at_least_one() {
    assert_eq!(NativeJinaEmbedder::new(None).batch_size(), 256);
    assert_eq!(NativeJinaEmbedder::new_with_batch_size(None, 0).batch_size(), 1);
    let e = NativeJinaEmbedder::new_with_batch_size(Some("/m".to_string()), 8);
    assert_eq!(e.batch_size(), 8);
    assert_eq!(e.model_dir().as_deref(), Some("/m"));
}

#[test]
fn asset_paths_join_like_unix_paths() {
    assert_eq!(join("/models/x", "config.json"), "/models/x/config.json");
    assert_eq!(join("/models/x/", "config.json"), "/models/x/config.json");
    assert_eq!(join("", "a"), "a");
    assert_eq!(join("/base", "/abs"), "/abs");
    let info = JinaModelInfo::for_model("jina-embeddings-v5-small").unwrap();
    let a = model_assets(info, "/m".to_string());
    assert_eq!(a.config_json, "/m/config.json");
    assert_eq!(a.tokenizer_json, "/m/tokenizer.json");
    assert_eq!(a.model_safetensors, "/m/model.safetensors");
}

#[test]
fn missing_names_follow_presence() {
    assert_eq!(missing_asset_files((true, false, true)), vec!["tokenizer.json".to_string()]);
    assert!(missing_asset_files((true, true, true)).is_empty());
}

#[test]
fn hugging_face_snapshot_directory() {
    assert_eq!(
        hf_snapshots_dir("/home/u", "jinaai/jina-embeddings-v5-text-small-mlx"),
        "/home/u/.cache/huggingface/hub/models--jinaai--jina-embeddings-v5-text-small-mlx/snapshots"
    );
    assert_eq!(hf_snapshots_dir("/h/", "a/b/c"), "/h/.cache/huggingface/hub/models--a--b--c/snapshots");
}

#[test]
fn newest_snapshot_is_latest_and_last_among_equals() {
    assert_eq!(newest_entry(&Vec::new()), None);
    assert_eq!(newest_entry(&vec![Some(5), None, Some(9), Some(-3)]), Some(2));
    assert_eq!(newest_entry(&vec![Some(9), Some(9), Some(1)]), Some(1));
    assert_eq!(newest_entry(&vec![None, None]), Some(1));
    assert_eq!(newest_entry(&vec![Some(-1), None]), Some(0));
}

#[test]
fn runtime_backend_selection() {
    match RuntimeBackend::new(true, Some("/m".to_string()), 0) {
        RuntimeBackend::Daemon(c) => {
            assert_eq!(c.batch_size(), 1);
            assert_eq!(c.model_dir().as_deref(), Some("/m"));
        }
        RuntimeBackend::Local(_) => panic!("expected the daemon client"),
    }
    match RuntimeBackend::new(false, None, 32) {
        RuntimeBackend::Local(e) => {
            assert_eq!(e.batch_size(), 32);
            assert_eq!(e.model_dir(), None);
        }
        RuntimeBackend::Daemon(_) => panic!("expected the local embedder"),
    }
}

#[test]
fn resolves_complete_asset_directory() {
    let embedder = NativeJinaEmbedder::new(Some("/models/code".to_string()));
    let assets = embedder
        .resolve_assets("jina-code-embeddings-1.5b", None, (true, true, true))
        .expect("assets");
    assert_eq!(assets.model.dimension, 1536);
    assert_eq!(assets.root, "/models/code");
    assert_eq!(assets.config_json, "/models/code/config.json");
    assert_eq!(assets.tokenizer_json, "/models/code/tokenizer.json");
    assert_eq!(assets.model_safetensors, "/models/code/model.safetensors");
}

#[test]
fn status_is_available_exactly_when_assets_resolve() {
    let present_cases = [
        (true, true, true),
        (true, false, true),
        (false, true, true),
        (true, true, false),
        (false, false, false),
    ];
    for model_dir in [Some("/m".to_string()), None] {
        let embedder = NativeJinaEmbedder::new(model_dir);
        for present in present_cases {
            let status = embedder.model_status("jina-embeddings-v5-small", None, present).unwrap();
            let assets = embedder.resolve_assets("jina-embeddings-v5-small", None, present);
            assert_eq!(status.available, assets.is_ok());
        }
    }
}

#[test]
fn assets_result_names_missing_files() {
    let info = JinaModelInfo::for_model("jina-embeddings-v5-nano").unwrap();
    let err = assets_result(info.clone(), "/d".to_string(), (true, false, false)).err().unwrap();
    assert_eq!(
        err.message(),
        "model assets for 'jina-embeddings-v5-nano' are incomplete at /d. Missing: tokenizer.json, model.safetensors"
    );
    let a = assets_result(info, "/d".to_string(), (true, true, true)).unwrap();
    assert_eq!(a.tokenizer_json, "/d/tokenizer.json");
    let e = NativeJinaEmbedder::new(None);
    assert_eq!(e.asset_root(Some("/snap".to_string())).as_deref(), Some("/snap"));
    assert_eq!(e.asset_root(None), None);
}
