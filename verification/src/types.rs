//! Tasks, prompt names, chunk granularities and the catalogue of supported
//! Jina models, with the checks that a task or a truncation dimension suits
//! a model.

use vstd::prelude::*;
use crate::error::JinaError;
use crate::text::{chars_of, str_eq};

verus! {

/// The text model used when none is named.
pub const DEFAULT_TEXT_MODEL: &'static str = "jina-embeddings-v5-small";

/// The code model suggested first among the code models.
pub const DEFAULT_CODE_MODEL: &'static str = "jina-code-embeddings-1.5b";

/// An embedding task.
#[derive(Clone, Copy, Debug, PartialEq, Eq, Structural)]
pub enum JinaTask {
    Retrieval,
    TextMatching,
    Clustering,
    Classification,
    Nl2Code,
    Qa,
    Code2Code,
    Code2Nl,
    Code2Completion,
}

/// The wire name of a task.
pub open spec fn task_wire(t: JinaTask) -> Seq<char> {
    match t {
        JinaTask::Retrieval => "retrieval"@,
        JinaTask::TextMatching => "text-matching"@,
        JinaTask::Clustering => "clustering"@,
        JinaTask::Classification => "classification"@,
        JinaTask::Nl2Code => "nl2code"@,
        JinaTask::Qa => "qa"@,
        JinaTask::Code2Code => "code2code"@,
        JinaTask::Code2Nl => "code2nl"@,
        JinaTask::Code2Completion => "code2completion"@,
    }
}

/// The task whose wire name is `s`, if any.
pub open spec fn task_from_wire(s: Seq<char>) -> Option<JinaTask> {
    if s == "retrieval"@ {
        Some(JinaTask::Retrieval)
    } else if s == "text-matching"@ {
        Some(JinaTask::TextMatching)
    } else if s == "clustering"@ {
        Some(JinaTask::Clustering)
    } else if s == "classification"@ {
        Some(JinaTask::Classification)
    } else if s == "nl2code"@ {
        Some(JinaTask::Nl2Code)
    } else if s == "qa"@ {
        Some(JinaTask::Qa)
    } else if s == "code2code"@ {
        Some(JinaTask::Code2Code)
    } else if s == "code2nl"@ {
        Some(JinaTask::Code2Nl)
    } else if s == "code2completion"@ {
        Some(JinaTask::Code2Completion)
    } else {
        None
    }
}

/// Tasks whose query and document are embedded with different prompts.
pub open spec fn task_uses_prompt_pair(t: JinaTask) -> bool {
    !(t == JinaTask::TextMatching || t == JinaTask::Clustering || t == JinaTask::Classification)
}

impl JinaTask {
    /// The task's name on the command line and on the wire.
    pub fn as_wire(&self) -> (r: &'static str)
        ensures
            r@ == task_wire(*self),
    {
        match self {
            JinaTask::Retrieval => "retrieval",
            JinaTask::TextMatching => "text-matching",
            JinaTask::Clustering => "clustering",
            JinaTask::Classification => "classification",
            JinaTask::Nl2Code => "nl2code",
            JinaTask::Qa => "qa",
            JinaTask::Code2Code => "code2code",
            JinaTask::Code2Nl => "code2nl",
            JinaTask::Code2Completion => "code2completion",
        }
    }

    /// The task with wire name `value`, or `None` for any other string.
    pub fn from_wire(value: &str) -> (r: Option<JinaTask>)
        ensures
            r == task_from_wire(value@),
    {
        if str_eq(value, "retrieval") {
            Some(JinaTask::Retrieval)
        } else if str_eq(value, "text-matching") {
            Some(JinaTask::TextMatching)
        } else if str_eq(value, "clustering") {
            Some(JinaTask::Clustering)
        } else if str_eq(value, "classification") {
            Some(JinaTask::Classification)
        } else if str_eq(value, "nl2code") {
            Some(JinaTask::Nl2Code)
        } else if str_eq(value, "qa") {
            Some(JinaTask::Qa)
        } else if str_eq(value, "code2code") {
            Some(JinaTask::Code2Code)
        } else if str_eq(value, "code2nl") {
            Some(JinaTask::Code2Nl)
        } else if str_eq(value, "code2completion") {
            Some(JinaTask::Code2Completion)
        } else {
            None
        }
    }

    /// Whether the task embeds queries and documents with distinct prompts.
    pub fn uses_prompt_pair(&self) -> (r: bool)
        ensures
            r == task_uses_prompt_pair(*self),
    {
        match self {
            JinaTask::TextMatching | JinaTask::Clustering | JinaTask::Classification => false,
            _ => true,
        }
    }
}

/// Which side of a prompt pair a text is embedded as.
#[derive(Clone, Copy, Debug, PartialEq, Eq, Structural)]
pub enum PromptName {
    Query,
    Document,
    Passage,
}

/// The wire name of a prompt.
pub open spec fn prompt_wire(p: PromptName) -> Seq<char> {
    match p {
        PromptName::Query => "query"@,
        PromptName::Document => "document"@,
        PromptName::Passage => "passage"@,
    }
}

/// The prompt whose wire name is `s`, if any.
pub open spec fn prompt_from_wire(s: Seq<char>) -> Option<PromptName> {
    if s == "query"@ {
        Some(PromptName::Query)
    } else if s == "document"@ {
        Some(PromptName::Document)
    } else if s == "passage"@ {
        Some(PromptName::Passage)
    } else {
        None
    }
}

impl PromptName {
    /// The prompt's wire name.
    pub fn as_wire(&self) -> (r: &'static str)
        ensures
            r@ == prompt_wire(*self),
    {
        match self {
            PromptName::Query => "query",
            PromptName::Document => "document",
            PromptName::Passage => "passage",
        }
    }

    /// The prompt with wire name `value`, or `None` for any other string.
    pub fn from_wire(value: &str) -> (r: Option<PromptName>)
        ensures
            r == prompt_from_wire(value@),
    {
        if str_eq(value, "query") {
            Some(PromptName::Query)
        } else if str_eq(value, "document") {
            Some(PromptName::Document)
        } else if str_eq(value, "passage") {
            Some(PromptName::Passage)
        } else {
            None
        }
    }
}

/// How a file is cut into chunks.
#[derive(Clone, Copy, Debug, PartialEq, Eq, Structural)]
pub enum Granularity {
    Line,
    Paragraph,
    Sentence,
    Token,
}

/// When to color the output.
#[derive(Clone, Copy, Debug, PartialEq, Eq, Structural)]
pub enum ColorWhen {
    Never,
    Always,
    Auto,
}

/// The family a model belongs to.
#[derive(Clone, Copy, Debug, PartialEq, Eq, Structural)]
pub enum JinaModelKind {
    TextV5,
    Code,
}

/// A supported model and what it can do.
#[derive(Clone, Debug)]
pub struct JinaModelInfo {
    pub model: String,
    pub repo_id: String,
    pub kind: JinaModelKind,
    pub dimension: usize,
    pub max_seq_len: usize,
    pub supported_tasks: Vec<JinaTask>,
    pub matryoshka_dims: Vec<usize>,
}

/// The mathematical content of a [`JinaModelInfo`].
pub struct ModelInfoView {
    pub model: Seq<char>,
    pub repo_id: Seq<char>,
    pub kind: JinaModelKind,
    pub dimension: nat,
    pub max_seq_len: nat,
    pub supported_tasks: Seq<JinaTask>,
    pub matryoshka_dims: Seq<usize>,
}

impl View for JinaModelInfo {
    type V = ModelInfoView;

    open spec fn view(&self) -> ModelInfoView {
        ModelInfoView {
            model: self.model@,
            repo_id: self.repo_id@,
            kind: self.kind,
            dimension: self.dimension as nat,
            max_seq_len: self.max_seq_len as nat,
            supported_tasks: self.supported_tasks@,
            matryoshka_dims: self.matryoshka_dims@,
        }
    }
}

/// The tasks of the code models.
pub open spec fn code_tasks() -> Seq<JinaTask> {
    seq![
        JinaTask::Nl2Code,
        JinaTask::Qa,
        JinaTask::Code2Code,
        JinaTask::Code2Nl,
        JinaTask::Code2Completion,
    ]
}

/// The tasks of the text models.
pub open spec fn text_tasks() -> Seq<JinaTask> {
    seq![JinaTask::Retrieval, JinaTask::TextMatching, JinaTask::Clustering, JinaTask::Classification]
}

/// The catalogue entry for `name`.
pub open spec fn model_catalog(name: Seq<char>) -> Option<ModelInfoView> {
    if name == "jina-embeddings-v5-small"@ {
        Some(
            ModelInfoView {
                model: name,
                repo_id: "jinaai/jina-embeddings-v5-text-small-mlx"@,
                kind: JinaModelKind::TextV5,
                dimension: 1024,
                max_seq_len: 32768,
                supported_tasks: text_tasks(),
                matryoshka_dims: seq![32usize, 64, 128, 256, 512, 768, 1024],
            },
        )
    } else if name == "jina-code-embeddings-1.5b"@ {
        Some(
            ModelInfoView {
                model: name,
                repo_id: "jinaai/jina-code-embeddings-1.5b-mlx"@,
                kind: JinaModelKind::Code,
                dimension: 1536,
                max_seq_len: 32768,
                supported_tasks: code_tasks(),
                matryoshka_dims: seq![128usize, 256, 512, 1024, 1536],
            },
        )
    } else if name == "jina-embeddings-v5-nano"@ {
        Some(
            ModelInfoView {
                model: name,
                repo_id: "jinaai/jina-embeddings-v5-text-nano-mlx"@,
                kind: JinaModelKind::TextV5,
                dimension: 768,
                max_seq_len: 8192,
                supported_tasks: text_tasks(),
                matryoshka_dims: seq![32usize, 64, 128, 256, 512, 768],
            },
        )
    } else if name == "jina-code-embeddings-0.5b"@ {
        Some(
            ModelInfoView {
                model: name,
                repo_id: "jinaai/jina-code-embeddings-0.5b-mlx"@,
                kind: JinaModelKind::Code,
                dimension: 896,
                max_seq_len: 32768,
                supported_tasks: code_tasks(),
                matryoshka_dims: seq![64usize, 128, 256, 512, 896],
            },
        )
    } else {
        None
    }
}

/// The task a model uses when none is named.
pub open spec fn default_task_of(kind: JinaModelKind) -> JinaTask {
    if kind == JinaModelKind::Code {
        JinaTask::Nl2Code
    } else {
        JinaTask::Retrieval
    }
}

fn code_task_list() -> (v: Vec<JinaTask>)
    ensures
        v@ == code_tasks(),
{
    let v = vec![
        JinaTask::Nl2Code,
        JinaTask::Qa,
        JinaTask::Code2Code,
        JinaTask::Code2Nl,
        JinaTask::Code2Completion,
    ];
    assert(v@ == code_tasks());
    v
}

fn text_task_list() -> (v: Vec<JinaTask>)
    ensures
        v@ == text_tasks(),
{
    let v = vec![
        JinaTask::Retrieval,
        JinaTask::TextMatching,
        JinaTask::Clustering,
        JinaTask::Classification,
    ];
    assert(v@ == text_tasks());
    v
}

impl JinaModelInfo {
    /// The catalogue entry for `model`, or `None` for an unknown name.
    pub fn for_model(model: &str) -> (r: Option<JinaModelInfo>)
        ensures
            r is Some <==> model_catalog(model@) is Some,
            r matches Some(info) ==> model_catalog(model@) == Some(info@),
    {
        if str_eq(model, "jina-embeddings-v5-small") {
            let dims = vec![32usize, 64, 128, 256, 512, 768, 1024];
            assert(dims@ == seq![32usize, 64, 128, 256, 512, 768, 1024]);
            Some(
                JinaModelInfo {
                    model: model.to_owned(),
                    repo_id: "jinaai/jina-embeddings-v5-text-small-mlx".to_owned(),
                    kind: JinaModelKind::TextV5,
                    dimension: 1024,
                    max_seq_len: 32768,
                    supported_tasks: text_task_list(),
                    matryoshka_dims: dims,
                },
            )
        } else if str_eq(model, "jina-code-embeddings-1.5b") {
            let dims = vec![128usize, 256, 512, 1024, 1536];
            assert(dims@ == seq![128usize, 256, 512, 1024, 1536]);
            Some(
                JinaModelInfo {
                    model: model.to_owned(),
                    repo_id: "jinaai/jina-code-embeddings-1.5b-mlx".to_owned(),
                    kind: JinaModelKind::Code,
                    dimension: 1536,
                    max_seq_len: 32768,
                    supported_tasks: code_task_list(),
                    matryoshka_dims: dims,
                },
            )
        } else if str_eq(model, "jina-embeddings-v5-nano") {
            let dims = vec![32usize, 64, 128, 256, 512, 768];
            assert(dims@ == seq![32usize, 64, 128, 256, 512, 768]);
            Some(
                JinaModelInfo {
                    model: model.to_owned(),
                    repo_id: "jinaai/jina-embeddings-v5-text-nano-mlx".to_owned(),
                    kind: JinaModelKind::TextV5,
                    dimension: 768,
                    max_seq_len: 8192,
                    supported_tasks: text_task_list(),
                    matryoshka_dims: dims,
                },
            )
        } else if str_eq(model, "jina-code-embeddings-0.5b") {
            let dims = vec![64usize, 128, 256, 512, 896];
            assert(dims@ == seq![64usize, 128, 256, 512, 896]);
            Some(
                JinaModelInfo {
                    model: model.to_owned(),
                    repo_id: "jinaai/jina-code-embeddings-0.5b-mlx".to_owned(),
                    kind: JinaModelKind::Code,
                    dimension: 896,
                    max_seq_len: 32768,
                    supported_tasks: code_task_list(),
                    matryoshka_dims: dims,
                },
            )
        } else {
            None
        }
    }

    /// Whether this is a code model.
    pub fn is_code_model(&self) -> (r: bool)
        ensures
            r == (self.kind == JinaModelKind::Code),
    {
        self.kind == JinaModelKind::Code
    }

    /// The task used when none is named: `nl2code` for code models,
    /// `retrieval` for text models.
    pub fn default_task(&self) -> (t: JinaTask)
        ensures
            t == default_task_of(self.kind),
    {
        if self.is_code_model() {
            JinaTask::Nl2Code
        } else {
            JinaTask::Retrieval
        }
    }

    /// `Ok` exactly when the model supports `task`; otherwise the error
    /// names the model, the task and the supported tasks.
    pub fn validate_task(&self, task: &JinaTask) -> (r: Result<(), JinaError>)
        ensures
            r is Ok <==> self.supported_tasks@.contains(*task),
            r matches Err(e) ==> e matches JinaError::UnsupportedTask { model, task: t, tasks }
                && model@ == self.model@ && t == *task && tasks@ == self.supported_tasks@,
    {
        let mut i: usize = 0;
        while i < self.supported_tasks.len()
            invariant
                i <= self.supported_tasks.len(),
                forall|j: int| 0 <= j < i ==> self.supported_tasks@[j] != *task,
            decreases self.supported_tasks.len() - i,
        {
            if self.supported_tasks[i] == *task {
                return Ok(());
            }
            i = i + 1;
        }
        Err(
            JinaError::UnsupportedTask {
                model: self.model.clone(),
                task: *task,
                tasks: self.supported_tasks.clone(),
            },
        )
    }

    /// `Ok` when no dimension is asked for or the model offers the asked
    /// one; otherwise the error names the model, the dimension and the
    /// supported dimensions.
    pub fn validate_truncate_dim(&self, truncate_dim: Option<usize>) -> (r: Result<(), JinaError>)
        ensures
            r is Ok <==> (truncate_dim is None || self.matryoshka_dims@.contains(truncate_dim->0)),
            r matches Err(e) ==> e matches JinaError::UnsupportedTruncateDim {
                model,
                dim,
                dims,
            } && model@ == self.model@ && Some(dim) == truncate_dim && dims@
                == self.matryoshka_dims@,
    {
        if let Some(dim) = truncate_dim {
            let mut i: usize = 0;
            while i < self.matryoshka_dims.len()
                invariant
                    i <= self.matryoshka_dims.len(),
                    truncate_dim == Some(dim),
                    forall|j: int| 0 <= j < i ==> self.matryoshka_dims@[j] != dim,
                decreases self.matryoshka_dims.len() - i,
            {
                if self.matryoshka_dims[i] == dim {
                    assert(self.matryoshka_dims@[i as int] == dim);
                    return Ok(());
                }
                i = i + 1;
            }
            Err(
                JinaError::UnsupportedTruncateDim {
                    model: self.model.clone(),
                    dim,
                    dims: self.matryoshka_dims.clone(),
                },
            )
        } else {
            Ok(())
        }
    }
}

/// A piece of a file: the 1-based number of its first line and its text.
#[derive(Clone, Debug)]
pub struct Chunk {
    pub line_number: usize,
    pub text: String,
}

impl View for Chunk {
    type V = (nat, Seq<char>);

    open spec fn view(&self) -> (nat, Seq<char>) {
        (self.line_number as nat, self.text@)
    }
}

/// Where a model's files are: its directory and the three files in it.
#[derive(Clone, Debug)]
pub struct ModelAssets {
    pub model: JinaModelInfo,
    pub root: String,
    pub config_json: String,
    pub tokenizer_json: String,
    pub model_safetensors: String,
}


/// Every task reads back from its wire name, and a wire name read as a
/// task is that task's wire name: the two are inverse.
pub proof fn lemma_task_wire_roundtrip(t: JinaTask, s: Seq<char>)
    ensures
        task_from_wire(task_wire(t)) == Some(t),
        task_from_wire(s) == Some(t) ==> task_wire(t) == s,
{
    reveal_strlit("retrieval");
    reveal_strlit("text-matching");
    reveal_strlit("clustering");
    reveal_strlit("classification");
    reveal_strlit("nl2code");
    reveal_strlit("qa");
    reveal_strlit("code2code");
    reveal_strlit("code2nl");
    reveal_strlit("code2completion");
    assert("retrieval"@.len() == 9 && "retrieval"@[0] == 'r');
    assert("text-matching"@.len() == 13);
    assert("clustering"@.len() == 10);
    assert("classification"@.len() == 14);
    assert("nl2code"@.len() == 7 && "nl2code"@[0] == 'n');
    assert("qa"@.len() == 2);
    assert("code2code"@.len() == 9 && "code2code"@[0] == 'c');
    assert("code2nl"@.len() == 7 && "code2nl"@[0] == 'c');
    assert("code2completion"@.len() == 15);
}

/// Every prompt reads back from its wire name, and the two are inverse.
pub proof fn lemma_prompt_wire_roundtrip(p: PromptName, s: Seq<char>)
    ensures
        prompt_from_wire(prompt_wire(p)) == Some(p),
        prompt_from_wire(s) == Some(p) ==> prompt_wire(p) == s,
{
    reveal_strlit("query");
    reveal_strlit("document");
    reveal_strlit("passage");
    assert("query"@.len() == 5);
    assert("document"@.len() == 8);
    assert("passage"@.len() == 7);
}

/// Each catalogue entry describes the model it is looked up by, offers its
/// own default task, and offers its full dimension and the dimension
/// `--fast` picks (512 for code models, 256 for text models) as
/// truncations.
pub proof fn lemma_catalog_consistent(name: Seq<char>)
    ensures
        model_catalog(name) matches Some(info) ==> {
            &&& info.model == name
            &&& info.supported_tasks.contains(default_task_of(info.kind))
            &&& info.matryoshka_dims.contains(info.dimension as usize)
            &&& info.matryoshka_dims.contains(
                if info.kind == JinaModelKind::Code {
                    512usize
                } else {
                    256usize
                },
            )
            &&& info.dimension <= info.max_seq_len
        },
{
    if let Some(info) = model_catalog(name) {
        assert(info.supported_tasks[0] == default_task_of(info.kind));
        let dims = info.matryoshka_dims;
        assert(dims[dims.len() - 1] == info.dimension as usize);
        if info.kind == JinaModelKind::Code {
            if info.dimension == 1536 {
                assert(dims[2] == 512usize);
            } else {
                assert(dims[3] == 512usize);
            }
        } else {
            assert(dims[3] == 256usize);
        }
    }
}

/// Code models offer exactly the code tasks and text models exactly the
/// text tasks; no task is offered by both kinds.
pub proof fn lemma_tasks_by_kind(name: Seq<char>, t: JinaTask)
    ensures
        model_catalog(name) matches Some(info) ==> (info.supported_tasks.contains(t) <==> (
        info.kind == JinaModelKind::Code) == !(t == JinaTask::Retrieval || t == JinaTask::TextMatching
            || t == JinaTask::Clustering || t == JinaTask::Classification)),
{
    if let Some(info) = model_catalog(name) {
        if info.supported_tasks.contains(t) {
            let i = choose|i: int| 0 <= i < info.supported_tasks.len() && info.supported_tasks[i] == t;
        } else {
            if info.kind == JinaModelKind::Code {
                assert(t != JinaTask::Nl2Code) by { assert(info.supported_tasks[0] == JinaTask::Nl2Code); }
                assert(t != JinaTask::Qa) by { assert(info.supported_tasks[1] == JinaTask::Qa); }
                assert(t != JinaTask::Code2Code) by { assert(info.supported_tasks[2] == JinaTask::Code2Code); }
                assert(t != JinaTask::Code2Nl) by { assert(info.supported_tasks[3] == JinaTask::Code2Nl); }
                assert(t != JinaTask::Code2Completion) by { assert(info.supported_tasks[4] == JinaTask::Code2Completion); }
            } else {
                assert(t != JinaTask::Retrieval) by { assert(info.supported_tasks[0] == JinaTask::Retrieval); }
                assert(t != JinaTask::TextMatching) by { assert(info.supported_tasks[1] == JinaTask::TextMatching); }
                assert(t != JinaTask::Clustering) by { assert(info.supported_tasks[2] == JinaTask::Clustering); }
                assert(t != JinaTask::Classification) by { assert(info.supported_tasks[3] == JinaTask::Classification); }
            }
        }
    }
}

/// Whether `dims` holds `d`, checked one by one.
proof fn lemma_dims_contain(dims: Seq<usize>, d: usize)
    ensures
        dims.contains(d) <==> exists|i: int| 0 <= i < dims.len() && dims[i] == d,
{
}

/// The truncations each catalogued model accepts (what
/// `validate_truncate_dim` lets through): strictly increasing dimensions
/// up to the model's full dimension, which is among them; 128, 256 and 512
/// for every model; 32 and 768 exactly for the text models; 64 exactly for
/// models of dimension at most 1024 and 1024 exactly for models of
/// dimension at least 1024; and nothing else.
pub proof fn lemma_catalog_dims(name: Seq<char>, d: usize)
    ensures
        model_catalog(name) matches Some(info) ==> {
            let dims = info.matryoshka_dims;
            let text = info.kind == JinaModelKind::TextV5;
            &&& forall|i: int, j: int| 0 <= i < j < dims.len() ==> dims[i] < dims[j]
            &&& dims.contains(128usize) && dims.contains(256usize) && dims.contains(512usize)
            &&& dims.contains(info.dimension as usize)
            &&& (dims.contains(32usize) <==> text)
            &&& (dims.contains(768usize) <==> text)
            &&& (dims.contains(64usize) <==> info.dimension <= 1024)
            &&& (dims.contains(1024usize) <==> info.dimension >= 1024)
            &&& (dims.contains(d) ==> d <= info.dimension && (d == info.dimension || d == 32 || d
                == 64 || d == 128 || d == 256 || d == 512 || d == 768 || d == 1024))
        },
{
    if let Some(info) = model_catalog(name) {
        let dims = info.matryoshka_dims;
        lemma_dims_contain(dims, d);
        lemma_dims_contain(dims, 32);
        lemma_dims_contain(dims, 64);
        lemma_dims_contain(dims, 128);
        lemma_dims_contain(dims, 256);
        lemma_dims_contain(dims, 512);
        lemma_dims_contain(dims, 768);
        lemma_dims_contain(dims, 1024);
        lemma_dims_contain(dims, info.dimension as usize);
        if info.dimension == 1024 {
            assert(dims[0] == 32usize && dims[1] == 64usize && dims[2] == 128usize && dims[3] == 256usize
                && dims[4] == 512usize && dims[5] == 768usize && dims[6] == 1024usize);
        } else if info.dimension == 1536 {
            assert(dims[0] == 128usize && dims[1] == 256usize && dims[2] == 512usize && dims[3]
                == 1024usize && dims[4] == 1536usize);
        } else if info.dimension == 768 {
            assert(dims[0] == 32usize && dims[1] == 64usize && dims[2] == 128usize && dims[3] == 256usize
                && dims[4] == 512usize && dims[5] == 768usize);
        } else {
            assert(dims[0] == 64usize && dims[1] == 128usize && dims[2] == 256usize && dims[3] == 512usize
                && dims[4] == 896usize);
        }
    }
}

} // verus!
