use jgrep::error::JinaError;
use jgrep::types::{JinaModelInfo, JinaModelKind, JinaTask, PromptName, DEFAULT_CODE_MODEL, DEFAULT_TEXT_MODEL};

const ALL_TASKS: [JinaTask; 9] = [
    JinaTask::Retrieval,
    JinaTask::TextMatching,
    JinaTask::Clustering,
    JinaTask::Classification,
    JinaTask::Nl2Code,
    JinaTask::Qa,
    JinaTask::Code2Code,
    JinaTask::Code2Nl,
    JinaTask::Code2Completion,
];

const MODELS: [&str; 4] = [
    "jina-embeddings-v5-small",
    "jina-code-embeddings-1.5b",
    "jina-embeddings-v5-nano",
    "jina-code-embeddings-0.5b",
];

#[test]
fn task_wire_names_round_trip() {
    let names: Vec<&str> = ALL_TASKS.iter().map(|t| t.as_wire()).collect();
    assert_eq!(
        names,
        vec![
            "retrieval",
            "text-matching",
            "clustering",
            "classification",
            "nl2code",
            "qa",
            "code2code",
            "code2nl",
            "code2completion"
        ]
    );
    for t in ALL_TASKS {
        assert_eq!(JinaTask::from_wire(t.as_wire()), Some(t));
    }
    assert_eq!(JinaTask::from_wire("Retrieval"), None);
    assert_eq!(JinaTask::from_wire(""), None);
}

#[test]
fn prompt_wire_names_round_trip() {
    for (p, name) in [
        (PromptName::Query, "query"),
        (PromptName::Document, "document"),
        (PromptName::Passage, "passage"),
    ] {
        assert_eq!(p.as_wire(), name);
        assert_eq!(PromptName::from_wire(name), Some(p));
    }
    assert_eq!(PromptName::from_wire("doc"), None);
}

#[test]
fn prompt_pair_tasks() {
    let paired: Vec<bool> = ALL_TASKS.iter().map(|t| t.uses_prompt_pair()).collect();
    assert_eq!(paired, vec![true, false, false, false, true, true, true, true, true]);
}

#[test]
fn catalogue_entries() {
    let small = JinaModelInfo::for_model(DEFAULT_TEXT_MODEL).unwrap();
    assert_eq!(small.repo_id, "jinaai/jina-embeddings-v5-text-small-mlx");
    assert_eq!(small.kind, JinaModelKind::TextV5);
    assert_eq!(small.dimension, 1024);
    assert_eq!(small.max_seq_len, 32768);
    assert_eq!(small.matryoshka_dims, vec![32, 64, 128, 256, 512, 768, 1024]);
    let code = JinaModelInfo::for_model(DEFAULT_CODE_MODEL).unwrap();
    assert_eq!(code.repo_id, "jinaai/jina-code-embeddings-1.5b-mlx");
    assert_eq!(code.dimension, 1536);
    assert!(code.is_code_model());
    assert_eq!(code.default_task(), JinaTask::Nl2Code);
    let nano = JinaModelInfo::for_model("jina-embeddings-v5-nano").unwrap();
    assert_eq!((nano.dimension, nano.max_seq_len), (768, 8192));
    let small_code = JinaModelInfo::for_model("jina-code-embeddings-0.5b").unwrap();
    assert_eq!(small_code.matryoshka_dims, vec![64, 128, 256, 512, 896]);
    assert!(JinaModelInfo::for_model("jina-embeddings-v4").is_none());
}

#[test]
fn catalogue_is_consistent() {
    for m in MODELS {
        let info = JinaModelInfo::for_model(m).unwrap();
        assert_eq!(info.model, m);
        assert!(info.supported_tasks.contains(&info.default_task()));
        assert_eq!(*info.matryoshka_dims.last().unwrap(), info.dimension);
        let code = info.kind == JinaModelKind::Code;
        for t in ALL_TASKS {
            let code_task = matches!(
                t,
                JinaTask::Nl2Code | JinaTask::Qa | JinaTask::Code2Code | JinaTask::Code2Nl | JinaTask::Code2Completion
            );
            assert_eq!(info.supported_tasks.contains(&t), code == code_task);
        }
    }
}

#[test]
fn validate_task_reports_supported_tasks() {
    let info = JinaModelInfo::for_model(DEFAULT_TEXT_MODEL).unwrap();
    assert_eq!(info.validate_task(&JinaTask::Clustering), Ok(()));
    let err = info.validate_task(&JinaTask::Nl2Code).unwrap_err();
    assert_eq!(
        err.message(),
        "model 'jina-embeddings-v5-small' does not support task 'nl2code'; supported tasks: retrieval, text-matching, clustering, classification"
    );
}

#[test]
fn validate_truncate_dim_reports_supported_dimensions() {
    let info = JinaModelInfo::for_model(DEFAULT_CODE_MODEL).unwrap();
    assert_eq!(info.validate_truncate_dim(None), Ok(()));
    assert_eq!(info.validate_truncate_dim(Some(512)), Ok(()));
    let err = info.validate_truncate_dim(Some(100)).unwrap_err();
    assert!(matches!(err, JinaError::UnsupportedTruncateDim { dim: 100, .. }));
    assert_eq!(
        err.message(),
        "model 'jina-code-embeddings-1.5b' does not support truncate_dim 100; supported dimensions: 128, 256, 512, 1024, 1536"
    );
}

#[test]
fn error_messages() {
    let cases = vec![
        (JinaError::UnknownModel { model: "m".to_string() }, "unsupported Jina model: m"),
        (
            JinaError::UnsupportedAssetModel { model: "m".to_string() },
            "unsupported Jina model 'm'; supported models: jina-embeddings-v5-small, jina-code-embeddings-1.5b, jina-embeddings-v5-nano, jina-code-embeddings-0.5b",
        ),
        (JinaError::UnknownStatusModel { model: "m".to_string() }, "unsupported model: m"),
        (
            JinaError::MissingModel { model: "m".to_string(), repo_id: "org/r".to_string() },
            "model 'm' is not available in the local Hugging Face cache. Download it explicitly before searching: huggingface-cli download org/r --local-dir <model-dir>, then run semtools jgrep --model-dir <model-dir> ...",
        ),
        (
            JinaError::IncompleteAssets {
                model: "m".to_string(),
                root: "/d".to_string(),
                missing: vec!["config.json".to_string(), "model.safetensors".to_string()],
            },
            "model assets for 'm' are incomplete at /d. Missing: config.json, model.safetensors",
        ),
        (JinaError::UnknownWireTask { task: "x".to_string() }, "unsupported task: x"),
        (JinaError::UnknownPromptName { prompt_name: "y".to_string() }, "unsupported prompt_name: y"),
        (JinaError::DaemonNoEmbeddings, "daemon returned no embeddings"),
        (JinaError::DaemonFailed { message: Some("boom".to_string()) }, "boom"),
        (JinaError::DaemonFailed { message: None }, "unknown daemon error"),
        (
            JinaError::ProfileNotIndexed { profile: "p".to_string() },
            "Jina workspace profile 'p' is not indexed yet",
        ),
        (
            JinaError::ProfileMismatch {
                profile: "p".to_string(),
                index_model: "a".to_string(),
                index_task: "qa".to_string(),
                model: "b".to_string(),
                task: JinaTask::Nl2Code,
            },
            "profile 'p' was built with model 'a' task 'qa', but query requested model 'b' task 'nl2code'",
        ),
        (JinaError::MissingLabels, "classification mode requires labels via -e or -f"),
        (JinaError::MissingPattern, "PATTERN is required unless classification labels are provided"),
        (JinaError::NoClassificationLabels, "classification requires at least one label"),
        (JinaError::EmptyTokens, "tokenizer produced no tokens"),
        (JinaError::MissingEmbedding { index: 12 }, "missing embedding for input 12"),
    ];
    for (err, msg) in cases {
        assert_eq!(err.message(), msg);
    }
}
