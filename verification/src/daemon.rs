//! The background embedding daemon: its client's configuration, where its
//! runtime files are, its status, and reading the names in a request.

use vstd::prelude::*;
use crate::error::JinaError;
use crate::runtime::{join, join_path, opt_view};
use crate::text::{chars_of, parse_usize, parse_usize_spec, trim, trim_chars};
use crate::types::{JinaTask, PromptName, prompt_from_wire, task_from_wire};

verus! {

/// The client that sends embedding requests to the daemon.
#[derive(Clone, Debug)]
pub struct DaemonJinaClient {
    model_dir: Option<String>,
    batch_size: usize,
}

impl View for DaemonJinaClient {
    type V = (Option<Seq<char>>, nat);

    closed spec fn view(&self) -> (Option<Seq<char>>, nat) {
        (opt_view(self.model_dir), self.batch_size as nat)
    }
}

impl DaemonJinaClient {
    /// A client asking for models in `model_dir` (when given), batching
    /// `batch_size` inputs at a time, and at least one.
    pub fn new(model_dir: Option<String>, batch_size: usize) -> (c: DaemonJinaClient)
        ensures
            c@ == (opt_view(model_dir), if batch_size >= 1 {
                batch_size as nat
            } else {
                1nat
            }),
    {
        DaemonJinaClient { model_dir, batch_size: if batch_size >= 1 { batch_size } else { 1 } }
    }

    /// The model directory sent with each request.
    pub fn model_dir(&self) -> (r: Option<String>)
        ensures
            opt_view(r) == self@.0,
    {
        self.model_dir.clone()
    }

    /// The batch size sent with each request.
    pub fn batch_size(&self) -> (r: usize)
        ensures
            r == self@.1,
    {
        self.batch_size
    }
}

/// The daemon's runtime directory under a home directory:
/// `~/.semtools/runtime`.
pub open spec fn runtime_dir_spec(home: Seq<char>) -> Seq<char> {
    join_path(join_path(home, ".semtools"@), "runtime"@)
}

/// The daemon's runtime directory under `home`.
pub fn runtime_dir(home: &str) -> (r: String)
    ensures
        r@ == runtime_dir_spec(home@),
{
    let semtools = join(home, ".semtools");
    join(semtools.as_str(), "runtime")
}

/// The daemon's socket in its runtime directory.
pub fn socket_path(runtime_dir: &str) -> (r: String)
    ensures
        r@ == join_path(runtime_dir@, "jina-daemon.sock"@),
{
    join(runtime_dir, "jina-daemon.sock")
}

/// The file holding the daemon's process id.
pub fn pid_path(runtime_dir: &str) -> (r: String)
    ensures
        r@ == join_path(runtime_dir@, "jina-daemon.pid"@),
{
    join(runtime_dir, "jina-daemon.pid")
}

/// The daemon's log file.
pub fn log_path(runtime_dir: &str) -> (r: String)
    ensures
        r@ == join_path(runtime_dir@, "jina-daemon.log"@),
{
    join(runtime_dir, "jina-daemon.log")
}

/// What `s.parse::<u32>()` gives.
pub open spec fn parse_u32_spec(s: Seq<char>) -> Option<nat> {
    match parse_usize_spec(s) {
        Some(n) => if n <= u32::MAX {
            Some(n)
        } else {
            None
        },
        None => None,
    }
}

/// The process id written in a pid file: its trimmed text as a `u32`.
pub fn read_pid_text(content: &str) -> (r: Option<u32>)
    ensures
        r matches Some(n) ==> parse_u32_spec(trim(content@)) == Some(n as nat),
        r is None ==> parse_u32_spec(trim(content@)) is None,
{
    let chars = chars_of(content);
    let t = trim_chars(&chars);
    match parse_usize(&t) {
        Some(n) => if n <= u32::MAX as usize {
            Some(n as u32)
        } else {
            None
        },
        None => None,
    }
}

/// The daemon's status as reported to the user.
#[derive(Clone, Debug)]
pub struct DaemonStatus {
    pub running: bool,
    pub socket_path: String,
    pub pid_path: String,
    pub pid: Option<u32>,
}

/// A string's view, or nothing.
pub open spec fn or_empty(s: Option<String>) -> Seq<char> {
    match s {
        Some(x) => x@,
        None => Seq::empty(),
    }
}

/// The daemon's status from what was found: the socket and pid file paths
/// (empty when they could not be had), the pid file's text (when it could be
/// read), and whether a ping got an answer (when one did) and what it said.
pub fn status(
    socket: Option<String>,
    pid_file: Option<String>,
    pid_text: Option<String>,
    ping_ok: Option<bool>,
) -> (s: DaemonStatus)
    ensures
        s.socket_path@ == or_empty(socket),
        s.pid_path@ == or_empty(pid_file),
        s.running == (ping_ok == Some(true)),
        pid_text is None ==> s.pid is None,
        pid_text matches Some(t) ==> (match s.pid {
            Some(n) => parse_u32_spec(trim(t@)) == Some(n as nat),
            None => parse_u32_spec(trim(t@)) is None,
        }),
{
    let pid = match &pid_text {
        Some(t) => read_pid_text(t.as_str()),
        None => None,
    };
    DaemonStatus {
        running: match ping_ok {
            Some(ok) => ok,
            None => false,
        },
        socket_path: match socket {
            Some(s) => s,
            None => String::new(),
        },
        pid_path: match pid_file {
            Some(p) => p,
            None => String::new(),
        },
        pid,
    }
}

/// Reads the task and prompt names of an embedding request; an error names
/// the first one that is not known.
pub fn request_names(task: &str, prompt_name: Option<&str>) -> (r: Result<(JinaTask, Option<PromptName>), JinaError>)
    ensures
        task_from_wire(task@) is None ==> (r matches Err(JinaError::UnknownWireTask { task: t }) && t@
            == task@),
        task_from_wire(task@) matches Some(t) ==> match prompt_name {
            None => r == Ok::<(JinaTask, Option<PromptName>), JinaError>((t, None)),
            Some(p) => match prompt_from_wire(p@) {
                Some(q) => r == Ok::<(JinaTask, Option<PromptName>), JinaError>((t, Some(q))),
                None => (r matches Err(JinaError::UnknownPromptName { prompt_name: n }) && n@ == p@),
            },
        },
{
    let t = match JinaTask::from_wire(task) {
        Some(t) => t,
        None => {
            return Err(JinaError::UnknownWireTask { task: task.to_owned() });
        },
    };
    match prompt_name {
        None => Ok((t, None)),
        Some(p) => match PromptName::from_wire(p) {
            Some(q) => Ok((t, Some(q))),
            None => Err(JinaError::UnknownPromptName { prompt_name: p.to_owned() }),
        },
    }
}

/// What a daemon answer gives the client: the embeddings of a successful
/// answer, else an error (carrying the daemon's message, if any).
pub fn answer<T>(ok: bool, embeddings: Option<T>, error: Option<String>) -> (r: Result<T, JinaError>)
    ensures
        ok && embeddings is Some ==> r == Ok::<T, JinaError>(embeddings->0),
        ok && embeddings is None ==> r == Err::<T, JinaError>(JinaError::DaemonNoEmbeddings),
        !ok ==> (r matches Err(JinaError::DaemonFailed { message: m }) && opt_view(m) == opt_view(
            error,
        )),
{
    if ok {
        match embeddings {
            Some(e) => Ok(e),
            None => Err(JinaError::DaemonNoEmbeddings),
        }
    } else {
        Err(JinaError::DaemonFailed { message: error })
    }
}

} // verus!
