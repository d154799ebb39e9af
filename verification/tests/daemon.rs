use jgrep::daemon::{answer, log_path, pid_path, read_pid_text, request_names, runtime_dir, socket_path, status, DaemonJinaClient};
use jgrep::error::JinaError;
use jgrep::types::{JinaTask, PromptName};

#[test]
fn runtime_files_live_under_home() {
    let dir = runtime_dir("/home/u");
    assert_eq!(dir, "/home/u/.semtools/runtime");
    assert_eq!(socket_path(&dir), "/home/u/.semtools/runtime/jina-daemon.sock");
    assert_eq!(pid_path(&dir), "/home/u/.semtools/runtime/jina-daemon.pid");
    assert_eq!(log_path(&dir), "/home/u/.semtools/runtime/jina-daemon.log");
}

#[test]
fn pid_files_are_read_trimmed() {
    assert_eq!(read_pid_text(" 4242\n"), Some(4242));
    assert_eq!(read_pid_text("4294967295"), Some(u32::MAX));
    assert_eq!(read_pid_text("4294967296"), None);
    assert_eq!(read_pid_text("abc"), None);
    assert_eq!(read_pid_text(""), None);
}

#[test]
fn daemon_status_from_findings() {
    let s = status(Some("/r/s.sock".to_string()), None, Some("12\n".to_string()), Some(true));
    assert!(s.running);
    assert_eq!(s.socket_path, "/r/s.sock");
    assert_eq!(s.pid_path, "");
    assert_eq!(s.pid, Some(12));
    let s = status(None, Some("/r/p".to_string()), None, None);
    assert!(!s.running);
    assert_eq!(s.pid, None);
    assert!(!status(None, None, None, Some(false)).running);
}

#[test]
fn request_names_are_checked() {
    assert_eq!(request_names("qa", Some("query")), Ok((JinaTask::Qa, Some(PromptName::Query))));
    assert_eq!(request_names("retrieval", None), Ok((JinaTask::Retrieval, None)));
    assert_eq!(
        request_names("nope", Some("bad")),
        Err(JinaError::UnknownWireTask { task: "nope".to_string() })
    );
    assert_eq!(
        request_names("qa", Some("bad")),
        Err(JinaError::UnknownPromptName { prompt_name: "bad".to_string() })
    );
}

#[test]
fn daemon_answers() {
    assert_eq!(answer(true, Some(vec![1u8]), None), Ok(vec![1u8]));
    assert_eq!(answer::<Vec<u8>>(true, None, None), Err(JinaError::DaemonNoEmbeddings));
    assert_eq!(
        answer::<Vec<u8>>(false, Some(vec![1u8]), Some("bad".to_string())),
        Err(JinaError::DaemonFailed { message: Some("bad".to_string()) })
    );
    assert_eq!(answer::<Vec<u8>>(false, None, None).err().unwrap().message(), "unknown daemon error");
}

#[test]
fn daemon_client_settings() {
    let c = DaemonJinaClient::new(Some("/m".to_string()), 0);
    assert_eq!(c.batch_size(), 1);
    assert_eq!(c.model_dir().as_deref(), Some("/m"));
}
