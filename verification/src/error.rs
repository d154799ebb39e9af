//! The errors of the library and the messages they print.

use vstd::prelude::*;
use crate::text::{decimal, decimal_chars, join_sep, join_strings, str_views, string_of};
use crate::types::{JinaTask, task_wire};

verus! {

/// What can go wrong.
#[derive(Debug, PartialEq, Eq)]
pub enum JinaError {
    /// The model does not offer the task.
    UnsupportedTask { model: String, task: JinaTask, tasks: Vec<JinaTask> },
    /// The model does not offer the truncation dimension.
    UnsupportedTruncateDim { model: String, dim: usize, dims: Vec<usize> },
    /// Model settings name a model that is not in the catalogue.
    UnknownModel { model: String },
    /// Model files were asked for a model that is not in the catalogue.
    UnsupportedAssetModel { model: String },
    /// A status was asked for a model that is not in the catalogue.
    UnknownStatusModel { model: String },
    /// No directory holds the model: none was given and no cached snapshot
    /// was found.
    MissingModel { model: String, repo_id: String },
    /// The model's directory lacks some of its files.
    IncompleteAssets { model: String, root: String, missing: Vec<String> },
    /// A request names a task that does not exist.
    UnknownWireTask { task: String },
    /// A request names a prompt that does not exist.
    UnknownPromptName { prompt_name: String },
    /// The daemon answered without embeddings.
    DaemonNoEmbeddings,
    /// The daemon answered with an error.
    DaemonFailed { message: Option<String> },
    /// The workspace profile has no index yet.
    ProfileNotIndexed { profile: String },
    /// The index was built with another model or task than the query asks.
    ProfileMismatch {
        profile: String,
        index_model: String,
        index_task: String,
        model: String,
        task: JinaTask,
    },
    /// Classification mode was asked for without any label.
    MissingLabels,
    /// A search was asked for without a pattern.
    MissingPattern,
    /// Classification was asked for with no label.
    NoClassificationLabels,
    /// The tokenizer gave no token ids for an input.
    EmptyTokens,
    /// No embedding was produced for the input at this position.
    MissingEmbedding { index: usize },
}


/// The supported tasks, listed by wire name.
pub open spec fn task_list(tasks: Seq<JinaTask>) -> Seq<char> {
    join_sep(tasks.map_values(|t: JinaTask| task_wire(t)), ", "@)
}

/// The supported dimensions, listed in decimal.
pub open spec fn dim_list(dims: Seq<usize>) -> Seq<char> {
    join_sep(dims.map_values(|d: usize| decimal(d as nat)), ", "@)
}

/// The message each error prints.
pub open spec fn error_message(e: JinaError) -> Seq<char> {
    match e {
        JinaError::UnsupportedTask { model, task, tasks } => "model '"@ + model@
            + "' does not support task '"@ + task_wire(task) + "'; supported tasks: "@ + task_list(
            tasks@,
        ),
        JinaError::UnsupportedTruncateDim { model, dim, dims } => "model '"@ + model@
            + "' does not support truncate_dim "@ + decimal(dim as nat)
            + "; supported dimensions: "@ + dim_list(dims@),
        JinaError::UnknownModel { model } => "unsupported Jina model: "@ + model@,
        JinaError::UnsupportedAssetModel { model } => "unsupported Jina model '"@ + model@
            + "'; supported models: jina-embeddings-v5-small, jina-code-embeddings-1.5b, jina-embeddings-v5-nano, jina-code-embeddings-0.5b"@,
        JinaError::UnknownStatusModel { model } => "unsupported model: "@ + model@,
        JinaError::MissingModel { model, repo_id } => "model '"@ + model@
            + "' is not available in the local Hugging Face cache. Download it explicitly before searching: huggingface-cli download "@
            + repo_id@
            + " --local-dir <model-dir>, then run semtools jgrep --model-dir <model-dir> ..."@,
        JinaError::IncompleteAssets { model, root, missing } => "model assets for '"@ + model@
            + "' are incomplete at "@ + root@ + ". Missing: "@ + join_sep(
            str_views(missing@),
            ", "@,
        ),
        JinaError::UnknownWireTask { task } => "unsupported task: "@ + task@,
        JinaError::UnknownPromptName { prompt_name } => "unsupported prompt_name: "@ + prompt_name@,
        JinaError::DaemonNoEmbeddings => "daemon returned no embeddings"@,
        JinaError::DaemonFailed { message } => match message {
            Some(m) => m@,
            None => "unknown daemon error"@,
        },
        JinaError::ProfileNotIndexed { profile } => "Jina workspace profile '"@ + profile@
            + "' is not indexed yet"@,
        JinaError::ProfileMismatch { profile, index_model, index_task, model, task } => "profile '"@
            + profile@ + "' was built with model '"@ + index_model@ + "' task '"@ + index_task@
            + "', but query requested model '"@ + model@ + "' task '"@ + task_wire(task) + "'"@,
        JinaError::MissingLabels => "classification mode requires labels via -e or -f"@,
        JinaError::MissingPattern => "PATTERN is required unless classification labels are provided"@,
        JinaError::NoClassificationLabels => "classification requires at least one label"@,
        JinaError::EmptyTokens => "tokenizer produced no tokens"@,
        JinaError::MissingEmbedding { index } => "missing embedding for input "@ + decimal(
            index as nat,
        ),
    }
}

fn task_names(tasks: &Vec<JinaTask>) -> (r: Vec<String>)
    ensures
        str_views(r@) == tasks@.map_values(|t: JinaTask| task_wire(t)),
{
    let mut r: Vec<String> = Vec::new();
    let mut i: usize = 0;
    while i < tasks.len()
        invariant
            i <= tasks.len(),
            str_views(r@) == tasks@.take(i as int).map_values(|t: JinaTask| task_wire(t)),
        decreases tasks.len() - i,
    {
        let ghost before = r@;
        let name = tasks[i].as_wire().to_owned();
        r.push(name);
        assert(str_views(r@) =~= str_views(before).push(task_wire(tasks@[i as int])));
        assert(tasks@.take(i as int + 1).map_values(|t: JinaTask| task_wire(t)) =~= tasks@.take(
            i as int,
        ).map_values(|t: JinaTask| task_wire(t)).push(task_wire(tasks@[i as int])));
        i = i + 1;
    }
    assert(tasks@.take(tasks.len() as int) == tasks@);
    r
}

fn dim_names(dims: &Vec<usize>) -> (r: Vec<String>)
    ensures
        str_views(r@) == dims@.map_values(|d: usize| decimal(d as nat)),
{
    let mut r: Vec<String> = Vec::new();
    let mut i: usize = 0;
    while i < dims.len()
        invariant
            i <= dims.len(),
            str_views(r@) == dims@.take(i as int).map_values(|d: usize| decimal(d as nat)),
        decreases dims.len() - i,
    {
        let ghost before = r@;
        let name = string_of(&decimal_chars(dims[i]));
        r.push(name);
        assert(str_views(r@) =~= str_views(before).push(decimal(dims@[i as int] as nat)));
        assert(dims@.take(i as int + 1).map_values(|d: usize| decimal(d as nat)) =~= dims@.take(
            i as int,
        ).map_values(|d: usize| decimal(d as nat)).push(decimal(dims@[i as int] as nat)));
        i = i + 1;
    }
    assert(dims@.take(dims.len() as int) == dims@);
    r
}

impl JinaError {
    /// The message the error prints.
    pub fn message(&self) -> (r: String)
        ensures
            r@ == error_message(*self),
    {
        match self {
            JinaError::UnsupportedTask { model, task, tasks } => {
                let mut s = "model '".to_owned();
                s.append(model.as_str());
                s.append("' does not support task '");
                s.append(task.as_wire());
                s.append("'; supported tasks: ");
                let list = join_strings(&task_names(tasks), ", ");
                s.append(list.as_str());
                s
            },
            JinaError::UnsupportedTruncateDim { model, dim, dims } => {
                let mut s = "model '".to_owned();
                s.append(model.as_str());
                s.append("' does not support truncate_dim ");
                let d = string_of(&decimal_chars(*dim));
                s.append(d.as_str());
                s.append("; supported dimensions: ");
                let list = join_strings(&dim_names(dims), ", ");
                s.append(list.as_str());
                s
            },
            JinaError::UnknownModel { model } => {
                let mut s = "unsupported Jina model: ".to_owned();
                s.append(model.as_str());
                s
            },
            JinaError::UnsupportedAssetModel { model } => {
                let mut s = "unsupported Jina model '".to_owned();
                s.append(model.as_str());
                s.append(
                    "'; supported models: jina-embeddings-v5-small, jina-code-embeddings-1.5b, jina-embeddings-v5-nano, jina-code-embeddings-0.5b",
                );
                s
            },
            JinaError::UnknownStatusModel { model } => {
                let mut s = "unsupported model: ".to_owned();
                s.append(model.as_str());
                s
            },
            JinaError::MissingModel { model, repo_id } => {
                let mut s = "model '".to_owned();
                s.append(model.as_str());
                s.append(
                    "' is not available in the local Hugging Face cache. Download it explicitly before searching: huggingface-cli download ",
                );
                s.append(repo_id.as_str());
                s.append(" --local-dir <model-dir>, then run semtools jgrep --model-dir <model-dir> ...");
                s
            },
            JinaError::IncompleteAssets { model, root, missing } => {
                let mut s = "model assets for '".to_owned();
                s.append(model.as_str());
                s.append("' are incomplete at ");
                s.append(root.as_str());
                s.append(". Missing: ");
                let list = join_strings(missing, ", ");
                s.append(list.as_str());
                s
            },
            JinaError::UnknownWireTask { task } => {
                let mut s = "unsupported task: ".to_owned();
                s.append(task.as_str());
                s
            },
            JinaError::UnknownPromptName { prompt_name } => {
                let mut s = "unsupported prompt_name: ".to_owned();
                s.append(prompt_name.as_str());
                s
            },
            JinaError::DaemonNoEmbeddings => "daemon returned no embeddings".to_owned(),
            JinaError::DaemonFailed { message } => match message {
                Some(m) => m.clone(),
                None => "unknown daemon error".to_owned(),
            },
            JinaError::ProfileNotIndexed { profile } => {
                let mut s = "Jina workspace profile '".to_owned();
                s.append(profile.as_str());
                s.append("' is not indexed yet");
                s
            },
            JinaError::ProfileMismatch { profile, index_model, index_task, model, task } => {
                let mut s = "profile '".to_owned();
                s.append(profile.as_str());
                s.append("' was built with model '");
                s.append(index_model.as_str());
                s.append("' task '");
                s.append(index_task.as_str());
                s.append("', but query requested model '");
                s.append(model.as_str());
                s.append("' task '");
                s.append(task.as_wire());
                s.append("'");
                s
            },
            JinaError::MissingLabels => "classification mode requires labels via -e or -f".to_owned(),
            JinaError::MissingPattern => "PATTERN is required unless classification labels are provided".to_owned(),
            JinaError::NoClassificationLabels => "classification requires at least one label".to_owned(),
            JinaError::EmptyTokens => "tokenizer produced no tokens".to_owned(),
            JinaError::MissingEmbedding { index } => {
                let mut s = "missing embedding for input ".to_owned();
                let d = string_of(&decimal_chars(*index));
                s.append(d.as_str());
                s
            },
        }
    }
}

} // verus!
