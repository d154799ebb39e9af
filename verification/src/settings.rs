//! What the command line decides before any search: the model, task and
//! truncation to use, the context and file-name flags, the mode of the run,
//! the paths and labels it works on, and whether it found anything.

use vstd::prelude::*;
use crate::error::JinaError;
use crate::text::{chars_of, is_blank, is_blank_chars, lines_of, split_lines, string_of, trim, trim_chars, views};
use crate::types::{
    ColorWhen, Granularity, JinaModelInfo, JinaModelKind, JinaTask, ModelInfoView, default_task_of,
    model_catalog,
};

verus! {

/// The command-line flags that settle a search, apart from its score
/// threshold.
pub struct SearchFlags {
    pub recursive: bool,
    pub files_with_matches: bool,
    pub files_without_match: bool,
    pub count: bool,
    pub line_number: bool,
    pub with_filename: bool,
    pub no_filename: bool,
    pub after_context: usize,
    pub before_context: usize,
    pub context: usize,
    pub include_patterns: Vec<String>,
    pub exclude_patterns: Vec<String>,
    pub exclude_dir_patterns: Vec<String>,
    pub color: ColorWhen,
    pub invert_match: bool,
    pub max_count: Option<usize>,
    pub quiet: bool,
    pub top_k: Option<usize>,
    pub model: String,
    pub task: Option<JinaTask>,
    pub truncate_dim: Option<usize>,
    pub fast: bool,
    pub batch_size: usize,
    pub granularity: Granularity,
    pub file_count: usize,
}

/// The settled options of a search, apart from its score threshold.
pub struct SearchSettings {
    pub recursive: bool,
    pub files_with_matches: bool,
    pub files_without_match: bool,
    pub count: bool,
    pub line_number: bool,
    pub with_filename: bool,
    pub after_context: usize,
    pub before_context: usize,
    pub include_patterns: Vec<String>,
    pub exclude_patterns: Vec<String>,
    pub exclude_dir_patterns: Vec<String>,
    pub color: bool,
    pub invert_match: bool,
    pub max_count: Option<usize>,
    pub quiet: bool,
    pub top_k: usize,
    pub model: String,
    pub task: JinaTask,
    pub truncate_dim: Option<usize>,
    pub batch_size: usize,
    pub granularity: Granularity,
}

/// The truncation used: the one asked for; else, with `--fast`, 512 for a
/// code model and 256 for a text model; else none.
pub open spec fn chosen_truncate_dim(kind: JinaModelKind, fast: bool, truncate_dim: Option<usize>) -> Option<usize> {
    if fast && truncate_dim is None {
        Some(
            if kind == JinaModelKind::Code {
                512usize
            } else {
                256usize
            },
        )
    } else {
        truncate_dim
    }
}

/// The task used: the one asked for, else the model's default.
pub open spec fn chosen_task(kind: JinaModelKind, task: Option<JinaTask>) -> JinaTask {
    match task {
        Some(t) => t,
        None => default_task_of(kind),
    }
}

/// Whether the model, task and truncation are usable together: the model
/// is known, offers the task, and offers the truncation if one is used.
pub open spec fn settings_ok(model: Seq<char>, task: Option<JinaTask>, fast: bool, truncate_dim: Option<usize>) -> bool {
    match model_catalog(model) {
        None => false,
        Some(info) => {
            let t = chosen_task(info.kind, task);
            let d = chosen_truncate_dim(info.kind, fast, truncate_dim);
            info.supported_tasks.contains(t) && (d is None || info.matryoshka_dims.contains(d->0))
        },
    }
}

/// The error settings get: an unknown model, else the task the model does
/// not offer, else the truncation it does not offer.
pub open spec fn model_error(
    e: JinaError,
    model: Seq<char>,
    task: Option<JinaTask>,
    fast: bool,
    truncate_dim: Option<usize>,
) -> bool {
    match model_catalog(model) {
        None => e matches JinaError::UnknownModel { model: m } && m@ == model,
        Some(info) => {
            let t = chosen_task(info.kind, task);
            if !info.supported_tasks.contains(t) {
                e matches JinaError::UnsupportedTask { model: m, task: t2, tasks } && m@ == model
                    && t2 == t && tasks@ == info.supported_tasks
            } else {
                e matches JinaError::UnsupportedTruncateDim { model: m, dim, dims } && m@ == model
                    && Some(dim) == chosen_truncate_dim(info.kind, fast, truncate_dim) && dims@
                    == info.matryoshka_dims
            }
        },
    }
}

/// The model, task and truncation of a search, checked against the
/// catalogue: an unknown model, a task the model does not offer, and a
/// truncation it does not offer are errors, in that order.
pub fn resolve_model(
    model: &str,
    task: Option<JinaTask>,
    fast: bool,
    truncate_dim: Option<usize>,
) -> (r: Result<(JinaModelInfo, JinaTask, Option<usize>), JinaError>)
    ensures
        r is Ok <==> settings_ok(model@, task, fast, truncate_dim),
        r matches Ok((info, t, d)) ==> model_catalog(model@) == Some(info@) && t == chosen_task(
            info.kind,
            task,
        ) && d == chosen_truncate_dim(info.kind, fast, truncate_dim),
        r matches Err(e) ==> model_error(e, model@, task, fast, truncate_dim),
{
    let info = match JinaModelInfo::for_model(model) {
        Some(info) => info,
        None => {
            return Err(JinaError::UnknownModel { model: model.to_owned() });
        },
    };
    let t = match task {
        Some(t) => t,
        None => info.default_task(),
    };
    let d = if fast && truncate_dim.is_none() {
        Some(if info.is_code_model() { 512usize } else { 256usize })
    } else {
        truncate_dim
    };
    match info.validate_task(&t) {
        Ok(()) => {},
        Err(e) => {
            return Err(e);
        },
    }
    match info.validate_truncate_dim(d) {
        Ok(()) => {},
        Err(e) => {
            return Err(e);
        },
    }
    Ok((info, t, d))
}

/// Whether output is colored: always, never, or when standard output is a
/// terminal.
pub fn color_enabled(when: ColorWhen, stdout_is_terminal: bool) -> (r: bool)
    ensures
        r == (when == ColorWhen::Always || (when == ColorWhen::Auto && stdout_is_terminal)),
{
    match when {
        ColorWhen::Never => false,
        ColorWhen::Always => true,
        ColorWhen::Auto => stdout_is_terminal,
    }
}

/// The lines of context after and before a match: `-C` when it is set,
/// else `-A` and `-B`.
pub open spec fn context_pair(context: usize, after: usize, before: usize) -> (usize, usize) {
    if context > 0 {
        (context, context)
    } else {
        (after, before)
    }
}

/// Whether file names are printed: not with `--no-filename`; otherwise with
/// `-H`, with more than one path, or when recursing.
pub open spec fn shows_filename(no_filename: bool, with_filename: bool, file_count: usize, recursive: bool) -> bool {
    !no_filename && (with_filename || file_count > 1 || recursive)
}

/// Settles the options of a search from its flags.
pub fn build_settings(flags: SearchFlags, stdout_is_terminal: bool) -> (r: Result<SearchSettings, JinaError>)
    ensures
        r is Ok <==> settings_ok(flags.model@, flags.task, flags.fast, flags.truncate_dim),
        r matches Ok(s) ==> ({
            let info = model_catalog(flags.model@)->0;
            &&& s.model@ == flags.model@
            &&& s.task == chosen_task(info.kind, flags.task)
            &&& s.truncate_dim == chosen_truncate_dim(info.kind, flags.fast, flags.truncate_dim)
            &&& (s.after_context, s.before_context) == context_pair(
                flags.context,
                flags.after_context,
                flags.before_context,
            )
            &&& s.with_filename == shows_filename(
                flags.no_filename,
                flags.with_filename,
                flags.file_count,
                flags.recursive,
            )
            &&& s.color == (flags.color == ColorWhen::Always || (flags.color == ColorWhen::Auto
                && stdout_is_terminal))
            &&& s.top_k == (match flags.top_k {
                Some(k) => k,
                None => 10,
            })
            &&& s.batch_size == (if flags.batch_size >= 1 {
                flags.batch_size
            } else {
                1
            })
            &&& s.recursive == flags.recursive && s.files_with_matches == flags.files_with_matches
            &&& s.files_without_match == flags.files_without_match && s.count == flags.count
            &&& s.line_number == flags.line_number && s.invert_match == flags.invert_match
            &&& s.max_count == flags.max_count && s.quiet == flags.quiet
            &&& s.granularity == flags.granularity
            &&& s.include_patterns@ == flags.include_patterns@
            &&& s.exclude_patterns@ == flags.exclude_patterns@
            &&& s.exclude_dir_patterns@ == flags.exclude_dir_patterns@
        }),
        r matches Err(e) ==> model_error(e, flags.model@, flags.task, flags.fast, flags.truncate_dim),
{
    let (info, task, truncate_dim) = match resolve_model(
        flags.model.as_str(),
        flags.task,
        flags.fast,
        flags.truncate_dim,
    ) {
        Ok(x) => x,
        Err(e) => {
            return Err(e);
        },
    };
    let (after_context, before_context) = if flags.context > 0 {
        (flags.context, flags.context)
    } else {
        (flags.after_context, flags.before_context)
    };
    let with_filename = !flags.no_filename && (flags.with_filename || flags.file_count > 1
        || flags.recursive);
    Ok(
        SearchSettings {
            recursive: flags.recursive,
            files_with_matches: flags.files_with_matches,
            files_without_match: flags.files_without_match,
            count: flags.count,
            line_number: flags.line_number,
            with_filename,
            after_context,
            before_context,
            include_patterns: flags.include_patterns,
            exclude_patterns: flags.exclude_patterns,
            exclude_dir_patterns: flags.exclude_dir_patterns,
            color: color_enabled(flags.color, stdout_is_terminal),
            invert_match: flags.invert_match,
            max_count: flags.max_count,
            quiet: flags.quiet,
            top_k: match flags.top_k {
                Some(k) => k,
                None => 10,
            },
            model: flags.model,
            task,
            truncate_dim,
            batch_size: if flags.batch_size >= 1 {
                flags.batch_size
            } else {
                1
            },
            granularity: flags.granularity,
        },
    )
}


/// Whether labels put the run in classification mode: `--classify`, a
/// label, or a label file.
pub fn is_classification_mode(classify: bool, label_count: usize, has_label_file: bool) -> (r: bool)
    ensures
        r == (classify || label_count > 0 || has_label_file),
{
    classify || label_count > 0 || has_label_file
}

/// The kind of run.
#[derive(Clone, Copy, Debug, PartialEq, Eq, Structural)]
pub enum SearchMode {
    Classify,
    Workspace,
    Pipe,
    Grep,
}

/// The name of a mode in JSON output.
pub open spec fn mode_name(m: SearchMode) -> Seq<char> {
    match m {
        SearchMode::Classify => "classify"@,
        SearchMode::Workspace => "workspace"@,
        SearchMode::Pipe => "pipe"@,
        SearchMode::Grep => "grep"@,
    }
}

impl SearchMode {
    /// The name of the mode in JSON output.
    pub fn as_str(&self) -> (r: &'static str)
        ensures
            r@ == mode_name(*self),
    {
        match self {
            SearchMode::Classify => "classify",
            SearchMode::Workspace => "workspace",
            SearchMode::Pipe => "pipe",
            SearchMode::Grep => "grep",
        }
    }
}

/// The kind of run: classification when labels are involved; else a
/// workspace search when a workspace is named; else reranking piped input
/// when no files are named and standard input is not a terminal; else a
/// grep over files.
pub open spec fn mode_of(classification: bool, workspace: bool, no_files: bool, stdin_is_terminal: bool) -> SearchMode {
    if classification {
        SearchMode::Classify
    } else if workspace {
        SearchMode::Workspace
    } else if no_files && !stdin_is_terminal {
        SearchMode::Pipe
    } else {
        SearchMode::Grep
    }
}

/// The kind of run.
pub fn select_mode(classification: bool, workspace: bool, no_files: bool, stdin_is_terminal: bool) -> (m: SearchMode)
    ensures
        m == mode_of(classification, workspace, no_files, stdin_is_terminal),
{
    if classification {
        SearchMode::Classify
    } else if workspace {
        SearchMode::Workspace
    } else if no_files && !stdin_is_terminal {
        SearchMode::Pipe
    } else {
        SearchMode::Grep
    }
}

/// The views of a sequence of strings.
pub open spec fn string_seq(s: Seq<String>) -> Seq<Seq<char>> {
    s.map_values(|x: String| x@)
}

/// The labels of a label file: its lines, trimmed, the blank ones left out.
pub open spec fn file_labels(lines: Seq<Seq<char>>) -> Seq<Seq<char>>
    decreases lines.len(),
{
    if lines.len() == 0 {
        Seq::empty()
    } else {
        let prev = file_labels(lines.drop_last());
        if is_blank(lines.last()) {
            prev
        } else {
            prev.push(trim(lines.last()))
        }
    }
}

/// The labels of a classification: those given one by one, then those of
/// the label file's text (when there is one); at least one is needed.
pub fn collect_labels(labels: Vec<String>, label_file_text: Option<&str>) -> (r: Result<Vec<String>, JinaError>)
    ensures
        ({
            let all = string_seq(labels@) + match label_file_text {
                Some(t) => file_labels(lines_of(t@)),
                None => Seq::<Seq<char>>::empty(),
            };
            &&& r is Ok <==> all.len() > 0
            &&& r matches Ok(v) ==> string_seq(v@) == all
            &&& r matches Err(e) ==> e == JinaError::MissingLabels
        }),
{
    let mut out = labels;
    let ghost given = string_seq(out@);
    if let Some(text) = label_file_text {
        let chars = chars_of(text);
        let lines = split_lines(&chars);
        let mut i: usize = 0;
        while i < lines.len()
            invariant
                i <= lines.len(),
                string_seq(out@) == given + file_labels(views(lines@).take(i as int)),
            decreases lines.len() - i,
        {
            proof {
                let t = views(lines@).take(i as int + 1);
                assert(t.drop_last() == views(lines@).take(i as int));
                assert(t.last() == lines@[i as int]@);
            }
            if !is_blank_chars(&lines[i]) {
                let label = string_of(&trim_chars(&lines[i]));
                let ghost before = out@;
                out.push(label);
                assert(string_seq(out@) =~= string_seq(before).push(label@));
            }
            i = i + 1;
        }
        assert(views(lines@).take(lines.len() as int) == views(lines@));
    } else {
        assert(given + Seq::<Seq<char>>::empty() == given);
    }
    if out.len() == 0 {
        return Err(JinaError::MissingLabels);
    }
    Ok(out)
}

/// The paths searched: those named, else the current directory.
pub fn collect_paths(files: Vec<String>) -> (r: Vec<String>)
    ensures
        files.len() == 0 ==> string_seq(r@) == seq!["."@],
        files.len() > 0 ==> r@ == files@,
{
    if files.len() == 0 {
        let mut r: Vec<String> = Vec::new();
        r.push(".".to_owned());
        assert(string_seq(r@) =~= seq!["."@]);
        r
    } else {
        files
    }
}

/// The paths classified: those named; else the pattern, which in
/// classification mode names a path; else the current directory.
pub fn collect_paths_for_classification(files: Vec<String>, pattern: Option<String>) -> (r: Vec<String>)
    ensures
        files.len() > 0 ==> r@ == files@,
        files.len() == 0 && pattern is Some ==> string_seq(r@) == seq![pattern->0@],
        files.len() == 0 && pattern is None ==> string_seq(r@) == seq!["."@],
{
    if files.len() > 0 {
        return files;
    }
    let mut r: Vec<String> = Vec::new();
    match pattern {
        Some(p) => {
            r.push(p);
        },
        None => {
            r.push(".".to_owned());
        },
    }
    assert(string_seq(r@) =~= seq![r@[0]@]);
    r
}

/// The search pattern, which every mode but classification needs.
pub fn required_pattern(pattern: Option<String>) -> (r: Result<String, JinaError>)
    ensures
        pattern matches Some(p) ==> r == Ok::<String, JinaError>(p),
        pattern is None ==> r == Err::<String, JinaError>(JinaError::MissingPattern),
{
    match pattern {
        Some(p) => Ok(p),
        None => Err(JinaError::MissingPattern),
    }
}

/// Whether a run counts as having found something: always when listing
/// files without matches, else when there is a result.
pub fn has_results(files_without_match: bool, result_count: usize) -> (r: bool)
    ensures
        r == (files_without_match || result_count > 0),
{
    files_without_match || result_count > 0
}


/// A catalogued model with its default task never fails the settings
/// check, with or without `--fast`, when no truncation is asked for; nor
/// with its full dimension asked for.
pub proof fn lemma_default_settings_ok(model: Seq<char>, fast: bool)
    requires
        model_catalog(model) is Some,
    ensures
        settings_ok(model, None, fast, None),
        settings_ok(model, None, fast, Some(model_catalog(model)->0.dimension as usize)),
{
    crate::types::lemma_catalog_consistent(model);
}

/// When results carry their file name: never with `--no-filename`;
/// otherwise always with `-H`, with more than one path named, and in a
/// recursive search; and not for a single path searched without `-H` or
/// recursion.
pub proof fn lemma_filename_shown(no_filename: bool, with_filename: bool, file_count: usize, recursive: bool)
    ensures
        no_filename ==> !shows_filename(no_filename, with_filename, file_count, recursive),
        !no_filename && recursive ==> shows_filename(no_filename, with_filename, file_count, recursive),
        !no_filename && with_filename ==> shows_filename(no_filename, with_filename, file_count, recursive),
        !no_filename && file_count >= 2 ==> shows_filename(no_filename, with_filename, file_count, recursive),
        !with_filename && file_count <= 1 && !recursive ==> !shows_filename(
            no_filename,
            with_filename,
            file_count,
            recursive,
        ),
{
}

} // verus!
