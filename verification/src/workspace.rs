//! Workspace profiles: the identity of an index (model, task, dimension and
//! preprocessing version), where it is stored, which records a sync keeps,
//! and whether an index suits a query.

use vstd::prelude::*;
use crate::error::JinaError;
use crate::runtime::{join, join_path};
use crate::text::{chars_of, decimal, decimal_chars, push_char, str_eq, string_of};
use crate::types::{JinaModelInfo, JinaTask, model_catalog, task_wire};

verus! {

/// The version of the chunking that an index was built with.
pub const PREPROCESSING_VERSION: u32 = 1;

/// What an index was built with.
#[derive(Debug, Clone)]
pub struct JinaProfile {
    pub id: String,
    pub backend: String,
    pub model: String,
    pub task: String,
    pub dimension: usize,
    pub truncate_dim: Option<usize>,
    pub preprocessing_version: u32,
}

/// What a sync did.
#[derive(Debug, Clone)]
pub struct JinaSyncOutput {
    pub workspace: String,
    pub profile: String,
    pub files_indexed: usize,
    pub chunks_indexed: usize,
    pub index_path: String,
}

/// The characters kept in a profile id: ASCII letters and digits, `-` and
/// `_`.
pub open spec fn id_char(c: char) -> bool {
    ('a' <= c <= 'z') || ('A' <= c <= 'Z') || ('0' <= c <= '9') || c == '-' || c == '_'
}

/// `value` with every other character replaced by `_`.
pub open spec fn sanitized(value: Seq<char>) -> Seq<char> {
    value.map_values(|c: char| if id_char(c) { c } else { '_' })
}

/// `value` with every character but ASCII letters, digits, `-` and `_`
/// replaced by `_`.
pub fn sanitize_profile_id(value: &str) -> (r: String)
    ensures
        r@ == sanitized(value@),
{
    let v = chars_of(value);
    let mut r = String::new();
    let mut i: usize = 0;
    while i < v.len()
        invariant
            i <= v.len(),
            r@ == sanitized(v@.take(i as int)),
        decreases v.len() - i,
    {
        let c = v[i];
        let keep = ('a' <= c && c <= 'z') || ('A' <= c && c <= 'Z') || ('0' <= c && c <= '9') || c
            == '-' || c == '_';
        push_char(&mut r, if keep { c } else { '_' });
        i = i + 1;
        assert(r@ =~= sanitized(v@.take(i as int)));
    }
    assert(v@.take(v.len() as int) == v@);
    r
}

/// The dimension an index holds: the truncation asked for, else the
/// model's full dimension, else 0 for an unknown model.
pub open spec fn profile_dimension(model: Seq<char>, truncate_dim: Option<usize>) -> nat {
    match truncate_dim {
        Some(d) => d as nat,
        None => match model_catalog(model) {
            Some(info) => info.dimension,
            None => 0,
        },
    }
}

/// The dimension an index holds.
fn dimension_for(model: &str, truncate_dim: Option<usize>) -> (d: usize)
    ensures
        d as nat == profile_dimension(model@, truncate_dim),
{
    match truncate_dim {
        Some(d) => d,
        None => match JinaModelInfo::for_model(model) {
            Some(info) => info.dimension,
            None => 0,
        },
    }
}

/// The profile id used when none is given:
/// `jina-local__{model}__{task}__{dimension}__v1`, sanitized.
pub open spec fn default_profile_spec(model: Seq<char>, task: JinaTask, truncate_dim: Option<usize>) -> Seq<char> {
    sanitized(
        "jina-local__"@ + model + "__"@ + task_wire(task) + "__"@ + decimal(
            profile_dimension(model, truncate_dim),
        ) + "__v"@ + decimal(PREPROCESSING_VERSION as nat),
    )
}

/// The profile id derived from the model, task and dimension.
pub fn default_profile_id(model: &str, task: JinaTask, truncate_dim: Option<usize>) -> (r: String)
    ensures
        r@ == default_profile_spec(model@, task, truncate_dim),
{
    let dim = dimension_for(model, truncate_dim);
    let mut s = "jina-local__".to_owned();
    s.append(model);
    s.append("__");
    s.append(task.as_wire());
    s.append("__");
    let d = string_of(&decimal_chars(dim));
    s.append(d.as_str());
    s.append("__v");
    let v = string_of(&decimal_chars(PREPROCESSING_VERSION as usize));
    s.append(v.as_str());
    sanitize_profile_id(s.as_str())
}

/// The profile recorded for an index built with these settings.
pub fn profile_for(profile_id: &str, model: &str, task: JinaTask, truncate_dim: Option<usize>) -> (p: JinaProfile)
    ensures
        p.id@ == profile_id@,
        p.backend@ == "rust-native-candle"@,
        p.model@ == model@,
        p.task@ == task_wire(task),
        p.dimension as nat == profile_dimension(model@, truncate_dim),
        p.truncate_dim == truncate_dim,
        p.preprocessing_version == PREPROCESSING_VERSION,
{
    JinaProfile {
        id: profile_id.to_owned(),
        backend: "rust-native-candle".to_owned(),
        model: model.to_owned(),
        task: task.as_wire().to_owned(),
        dimension: dimension_for(model, truncate_dim),
        truncate_dim,
        preprocessing_version: PREPROCESSING_VERSION,
    }
}

/// Where a profile's index is stored: `jina_profiles/{id}.json` under the
/// workspace root.
pub open spec fn index_path_spec(workspace_root: Seq<char>, profile_id: Seq<char>) -> Seq<char> {
    join_path(join_path(workspace_root, "jina_profiles"@), profile_id + ".json"@)
}

/// Where a profile's index is stored.
pub fn profile_index_path(workspace_root: &str, profile_id: &str) -> (r: String)
    ensures
        r@ == index_path_spec(workspace_root@, profile_id@),
{
    let dir = join(workspace_root, "jina_profiles");
    let mut file = profile_id.to_owned();
    file.append(".json");
    join(dir.as_str(), file.as_str())
}

/// Whether a sync keeps an indexed record: its file is not among those
/// being indexed again, and it still exists.
pub fn keep_record(record_path: &str, synced_files: &Vec<String>, exists: bool) -> (keep: bool)
    ensures
        keep == (exists && !synced_files@.map_values(|f: String| f@).contains(record_path@)),
{
    let ghost views = synced_files@.map_values(|f: String| f@);
    let mut i: usize = 0;
    while i < synced_files.len()
        invariant
            i <= synced_files.len(),
            views == synced_files@.map_values(|f: String| f@),
            forall|j: int| 0 <= j < i ==> views[j] != record_path@,
        decreases synced_files.len() - i,
    {
        if str_eq(synced_files[i].as_str(), record_path) {
            assert(views[i as int] == record_path@);
            return false;
        }
        i = i + 1;
    }
    exists
}

/// `Ok` when the index was built with the model and task the query asks
/// for; otherwise an error naming both.
pub fn check_profile(index: &JinaProfile, profile_id: &str, model: &str, task: JinaTask) -> (r: Result<(), JinaError>)
    ensures
        r is Ok <==> (index.model@ == model@ && index.task@ == task_wire(task)),
        r matches Err(e) ==> (e matches JinaError::ProfileMismatch {
            profile,
            index_model,
            index_task,
            model: m,
            task: t,
        } && profile@ == profile_id@ && index_model@ == index.model@ && index_task@ == index.task@
            && m@ == model@ && t == task),
{
    if str_eq(index.model.as_str(), model) && str_eq(index.task.as_str(), task.as_wire()) {
        Ok(())
    } else {
        Err(
            JinaError::ProfileMismatch {
                profile: profile_id.to_owned(),
                index_model: index.model.clone(),
                index_task: index.task.clone(),
                model: model.to_owned(),
                task,
            },
        )
    }
}


/// A profile id holds only ASCII letters and digits, `-` and `_`.
pub open spec fn valid_profile_id(id: Seq<char>) -> bool {
    forall|i: int| 0 <= i < id.len() ==> id_char(#[trigger] id[i])
}

/// Sanitizing keeps the length and position of every character, yields a
/// valid id, leaves a valid id unchanged, and so changes nothing when
/// applied twice; the derived profile id is therefore always valid.
pub proof fn lemma_sanitize_laws(value: Seq<char>, model: Seq<char>, task: JinaTask, truncate_dim: Option<usize>)
    ensures
        sanitized(value).len() == value.len(),
        valid_profile_id(sanitized(value)),
        valid_profile_id(value) ==> sanitized(value) == value,
        sanitized(sanitized(value)) == sanitized(value),
        forall|i: int| 0 <= i < value.len() && id_char(value[i]) ==> #[trigger] sanitized(value)[i]
            == value[i],
        valid_profile_id(default_profile_spec(model, task, truncate_dim)),
{
    assert(valid_profile_id(sanitized(value)));
    if valid_profile_id(value) {
        assert(sanitized(value) =~= value);
    }
    assert(sanitized(sanitized(value)) =~= sanitized(value));
    let raw = "jina-local__"@ + model + "__"@ + task_wire(task) + "__"@ + decimal(
        profile_dimension(model, truncate_dim),
    ) + "__v"@ + decimal(PREPROCESSING_VERSION as nat);
    assert(valid_profile_id(sanitized(raw)));
}

/// The index of a profile, which must have been built already.
pub fn require_index<T>(index: Option<T>, profile_id: &str) -> (r: Result<T, JinaError>)
    ensures
        index matches Some(x) ==> r == Ok::<T, JinaError>(x),
        index is None ==> (r matches Err(JinaError::ProfileNotIndexed { profile }) && profile@
            == profile_id@),
{
    match index {
        Some(x) => Ok(x),
        None => Err(JinaError::ProfileNotIndexed { profile: profile_id.to_owned() }),
    }
}

} // verus!
