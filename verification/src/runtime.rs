//! Where a model's files are and whether they are all there: the local
//! embedder's configuration, asset resolution and model status.

use vstd::prelude::*;
use crate::daemon::DaemonJinaClient;
use crate::error::JinaError;
use crate::text::{chars_of, string_of};
use crate::types::{JinaModelInfo, JinaTask, ModelAssets, ModelInfoView, model_catalog};

verus! {

/// `base` joined with `name` as `Path::join` joins them on Unix: an
/// absolute `name` replaces `base`; otherwise a `'/'` goes between them
/// unless `base` is empty or already ends with one.
pub open spec fn join_path(base: Seq<char>, name: Seq<char>) -> Seq<char> {
    if name.len() > 0 && name[0] == '/' {
        name
    } else if base.len() > 0 && base.last() != '/' {
        base + seq!['/'] + name
    } else {
        base + name
    }
}

/// `base` joined with `name` (`Path::join`, then `display().to_string()`).
pub fn join(base: &str, name: &str) -> (r: String)
    ensures
        r@ == join_path(base@, name@),
{
    let n = chars_of(name);
    if n.len() > 0 && n[0] == '/' {
        return name.to_owned();
    }
    let b = chars_of(base);
    let mut r = base.to_owned();
    if b.len() > 0 && b[b.len() - 1] != '/' {
        r.append("/");
        proof {
            reveal_strlit("/");
        }
    }
    r.append(name);
    r
}

/// The files a model directory must hold.
pub open spec fn asset_names() -> Seq<Seq<char>> {
    seq!["config.json"@, "tokenizer.json"@, "model.safetensors"@]
}

/// The names of the files reported absent, in the order of
/// [`asset_names`].
pub open spec fn missing_names(present: (bool, bool, bool)) -> Seq<Seq<char>> {
    let a = if present.0 {
        Seq::<Seq<char>>::empty()
    } else {
        seq!["config.json"@]
    };
    let b = if present.1 {
        a
    } else {
        a.push("tokenizer.json"@)
    };
    if present.2 {
        b
    } else {
        b.push("model.safetensors"@)
    }
}

/// The views of a sequence of strings.
pub open spec fn strs(s: Seq<String>) -> Seq<Seq<char>> {
    s.map_values(|x: String| x@)
}

/// The names of the model files absent from a directory, given whether
/// `config.json`, `tokenizer.json` and `model.safetensors` are there.
pub fn missing_asset_files(present: (bool, bool, bool)) -> (r: Vec<String>)
    ensures
        strs(r@) == missing_names(present),
{
    let mut r: Vec<String> = Vec::new();
    if !present.0 {
        r.push("config.json".to_owned());
    }
    if !present.1 {
        r.push("tokenizer.json".to_owned());
    }
    if !present.2 {
        r.push("model.safetensors".to_owned());
    }
    assert(strs(r@) =~= missing_names(present));
    r
}

/// The mathematical content of a [`ModelAssets`].
pub struct AssetsView {
    pub model: ModelInfoView,
    pub root: Seq<char>,
    pub config_json: Seq<char>,
    pub tokenizer_json: Seq<char>,
    pub model_safetensors: Seq<char>,
}

impl View for ModelAssets {
    type V = AssetsView;

    open spec fn view(&self) -> AssetsView {
        AssetsView {
            model: self.model@,
            root: self.root@,
            config_json: self.config_json@,
            tokenizer_json: self.tokenizer_json@,
            model_safetensors: self.model_safetensors@,
        }
    }
}

/// The files of a model in directory `root`.
pub open spec fn assets_at(info: ModelInfoView, root: Seq<char>) -> AssetsView {
    AssetsView {
        model: info,
        root,
        config_json: join_path(root, "config.json"@),
        tokenizer_json: join_path(root, "tokenizer.json"@),
        model_safetensors: join_path(root, "model.safetensors"@),
    }
}

/// The files of a model in directory `root`.
pub fn model_assets(info: JinaModelInfo, root: String) -> (a: ModelAssets)
    ensures
        a@ == assets_at(info@, root@),
{
    let config_json = join(root.as_str(), "config.json");
    let tokenizer_json = join(root.as_str(), "tokenizer.json");
    let model_safetensors = join(root.as_str(), "model.safetensors");
    ModelAssets { model: info, root, config_json, tokenizer_json, model_safetensors }
}

/// The outcome of looking for a model's files in `root`, given whether the
/// three files are there: the assets when all are, else the error naming
/// the missing ones.
pub open spec fn assets_outcome_ok(present: (bool, bool, bool)) -> bool {
    present == (true, true, true)
}

/// The model's files in `root`, given whether `config.json`,
/// `tokenizer.json` and `model.safetensors` are there: the assets when all
/// three are, else the error naming the model, the directory and the
/// missing files in that order.
pub fn assets_result(info: JinaModelInfo, root: String, present: (bool, bool, bool)) -> (r: Result<ModelAssets, JinaError>)
    ensures
        assets_outcome_ok(present) ==> (r matches Ok(a) && a@ == assets_at(info@, root@)),
        !assets_outcome_ok(present) ==> (r matches Err(JinaError::IncompleteAssets { model, root: d, missing })
            && model@ == info@.model && d@ == root@ && strs(missing@) == missing_names(present)),
{
    let missing = missing_asset_files(present);
    if missing.len() > 0 {
        return Err(JinaError::IncompleteAssets { model: info.model, root, missing });
    }
    assert(present == (true, true, true)) by {
        if !present.0 {
            assert(missing_names(present).len() > 0);
        }
        if present.0 && !present.1 {
            assert(missing_names(present).len() > 0);
        }
    }
    Ok(model_assets(info, root))
}

/// A model's availability on this machine.
#[derive(Debug)]
pub struct ModelStatus {
    pub model: String,
    pub repo_id: String,
    pub dimension: usize,
    pub available: bool,
    pub path: Option<String>,
    pub missing_files: Vec<String>,
}

/// An optional string's view.
pub open spec fn opt_view(s: Option<String>) -> Option<Seq<char>> {
    match s {
        Some(x) => Some(x@),
        None => None,
    }
}

/// The status of a model given the directory that holds it, if any, and
/// the files missing from there: available when there is a directory and
/// nothing is missing.
pub open spec fn status_of(
    info: ModelInfoView,
    root: Option<Seq<char>>,
    missing: Seq<Seq<char>>,
) -> (Seq<char>, Seq<char>, nat, bool, Option<Seq<char>>, Seq<Seq<char>>) {
    (info.model, info.repo_id, info.dimension, root is Some && missing.len() == 0, root, missing)
}

/// The view of a [`ModelStatus`].
pub open spec fn status_view(s: ModelStatus) -> (
    Seq<char>,
    Seq<char>,
    nat,
    bool,
    Option<Seq<char>>,
    Seq<Seq<char>>,
) {
    (s.model@, s.repo_id@, s.dimension as nat, s.available, opt_view(s.path), strs(s.missing_files@))
}

/// A model is reported available exactly when the directory that would
/// hold it is known and no file is missing from it.
pub proof fn lemma_status_available(info: ModelInfoView, root: Option<Seq<char>>, missing: Seq<Seq<char>>)
    ensures
        status_of(info, root, missing).3 <==> (status_of(info, root, missing).4 is Some
            && status_of(info, root, missing).5.len() == 0),
{
}

/// The status of a model found in `root` (if anywhere) with `missing`
/// files absent.
pub fn status_for(info: JinaModelInfo, root: Option<String>, missing: Vec<String>) -> (s: ModelStatus)
    ensures
        status_view(s) == status_of(info@, opt_view(root), strs(missing@)),
{
    let available = root.is_some() && missing.len() == 0;
    ModelStatus {
        model: info.model,
        repo_id: info.repo_id,
        dimension: info.dimension,
        available,
        path: root,
        missing_files: missing,
    }
}

/// The embedder that runs the models on this machine.
#[derive(Clone, Debug)]
pub struct NativeJinaEmbedder {
    model_dir: Option<String>,
    batch_size: usize,
}

impl View for NativeJinaEmbedder {
    type V = (Option<Seq<char>>, nat);

    closed spec fn view(&self) -> (Option<Seq<char>>, nat) {
        (opt_view(self.model_dir), self.batch_size as nat)
    }
}

/// The directory the model is read from: the configured one, else the
/// cached snapshot.
pub open spec fn root_of(model_dir: Option<Seq<char>>, snapshot: Option<Seq<char>>) -> Option<Seq<char>> {
    match model_dir {
        Some(d) => Some(d),
        None => snapshot,
    }
}

impl NativeJinaEmbedder {
    /// An embedder reading from `model_dir` (when given), batching 256
    /// inputs at a time.
    pub fn new(model_dir: Option<String>) -> (e: NativeJinaEmbedder)
        ensures
            e@ == (opt_view(model_dir), 256nat),
    {
        Self::new_with_batch_size(model_dir, 256)
    }

    /// An embedder reading from `model_dir` (when given), batching
    /// `batch_size` inputs at a time, and at least one.
    pub fn new_with_batch_size(model_dir: Option<String>, batch_size: usize) -> (e: NativeJinaEmbedder)
        ensures
            e@ == (opt_view(model_dir), if batch_size >= 1 {
                batch_size as nat
            } else {
                1nat
            }),
    {
        NativeJinaEmbedder { model_dir, batch_size: if batch_size >= 1 { batch_size } else { 1 } }
    }

    /// The configured model directory.
    pub fn model_dir(&self) -> (r: Option<String>)
        ensures
            opt_view(r) == self@.0,
    {
        self.model_dir.clone()
    }

    /// The number of inputs embedded together.
    pub fn batch_size(&self) -> (r: usize)
        ensures
            r == self@.1,
    {
        self.batch_size
    }

    /// The directory a model is read from: the configured one, else
    /// `snapshot` (the newest cached download of the model, which the
    /// caller looks up when no directory is configured).
    pub fn asset_root(&self, snapshot: Option<String>) -> (r: Option<String>)
        ensures
            opt_view(r) == root_of(self@.0, opt_view(snapshot)),
    {
        match self.model_dir.clone() {
            Some(d) => Some(d),
            None => snapshot,
        }
    }

    /// The files of `model`, read from [`asset_root`](Self::asset_root);
    /// `present` tells whether `config.json`, `tokenizer.json` and
    /// `model.safetensors` are in that directory. Fails for a model not in
    /// the catalogue, when there is no directory, and when a file is
    /// missing; succeeds otherwise.
    pub fn resolve_assets(&self, model: &str, snapshot: Option<String>, present: (bool, bool, bool)) -> (r: Result<ModelAssets, JinaError>)
        ensures
            r is Ok <==> resolves(model@, root_of(self@.0, opt_view(snapshot)), present),
            model_catalog(model@) is None ==> (r matches Err(JinaError::UnsupportedAssetModel {
                model: m,
            }) && m@ == model@),
            model_catalog(model@) is Some && root_of(self@.0, opt_view(snapshot)) is None ==> (
            r matches Err(JinaError::MissingModel { model: m, repo_id }) && m@ == model_catalog(
                model@,
            )->0.model && repo_id@ == model_catalog(model@)->0.repo_id),
            r matches Ok(a) ==> a@ == assets_at(
                model_catalog(model@)->0,
                root_of(self@.0, opt_view(snapshot))->0,
            ),
            model_catalog(model@) is Some && root_of(self@.0, opt_view(snapshot)) is Some
                && !assets_outcome_ok(present) ==> (r matches Err(JinaError::IncompleteAssets {
                model: m,
                root,
                missing,
            }) && m@ == model@ && root@ == root_of(self@.0, opt_view(snapshot))->0 && strs(
                missing@,
            ) == missing_names(present)),
    {
        let info = match JinaModelInfo::for_model(model) {
            Some(info) => info,
            None => {
                return Err(JinaError::UnsupportedAssetModel { model: model.to_owned() });
            },
        };
        let root = match self.asset_root(snapshot) {
            Some(r) => r,
            None => {
                return Err(JinaError::MissingModel { model: info.model, repo_id: info.repo_id });
            },
        };
        assets_result(info, root, present)
    }

    /// The status of `model`: its catalogue facts, the directory it would
    /// be read from ([`asset_root`](Self::asset_root)) and the files
    /// missing there, as `present` tells (all three when there is no
    /// directory). Fails only for a model not in the catalogue.
    pub fn model_status(&self, model: &str, snapshot: Option<String>, present: (bool, bool, bool)) -> (r: Result<ModelStatus, JinaError>)
        ensures
            r is Ok <==> model_catalog(model@) is Some,
            r matches Err(e) ==> e matches JinaError::UnknownStatusModel { model: m } && m@ == model@,
            r matches Ok(s) ==> status_view(s) == status_of(
                model_catalog(model@)->0,
                root_of(self@.0, opt_view(snapshot)),
                missing_at(root_of(self@.0, opt_view(snapshot)), present),
            ),
    {
        let info = match JinaModelInfo::for_model(model) {
            Some(info) => info,
            None => {
                return Err(JinaError::UnknownStatusModel { model: model.to_owned() });
            },
        };
        let root = self.asset_root(snapshot);
        let missing = match root {
            Some(_) => missing_asset_files(present),
            None => missing_asset_files((false, false, false)),
        };
        Ok(status_for(info, root, missing))
    }
}

/// The files missing where a model would be read from: as `present` tells
/// in a directory, and all three when there is none.
pub open spec fn missing_at(root: Option<Seq<char>>, present: (bool, bool, bool)) -> Seq<Seq<char>> {
    match root {
        Some(_) => missing_names(present),
        None => asset_names(),
    }
}

/// Whether a model's files resolve: it is in the catalogue, there is a
/// directory to read it from, and the three files are there.
pub open spec fn resolves(model: Seq<char>, root: Option<Seq<char>>, present: (bool, bool, bool)) -> bool {
    model_catalog(model) is Some && root is Some && assets_outcome_ok(present)
}

/// Under one answer of the file system, a catalogued model is reported
/// available exactly when its files resolve.
pub proof fn lemma_status_matches_assets(model: Seq<char>, root: Option<Seq<char>>, present: (bool, bool, bool))
    requires
        model_catalog(model) is Some,
    ensures
        status_of(model_catalog(model)->0, root, missing_at(root, present)).3 <==> resolves(
            model,
            root,
            present,
        ),
{
    if root is Some && !assets_outcome_ok(present) {
        if !present.0 {
            assert(missing_names(present).len() > 0);
        }
        if present.0 && !present.1 {
            assert(missing_names(present).len() > 0);
        }
    }
}

/// `s` with each `'/'` written as `"--"`.
pub open spec fn slashes_to_dashes(s: Seq<char>) -> Seq<char>
    decreases s.len(),
{
    if s.len() == 0 {
        Seq::empty()
    } else if s.last() == '/' {
        slashes_to_dashes(s.drop_last()) + "--"@
    } else {
        slashes_to_dashes(s.drop_last()).push(s.last())
    }
}

/// Where the Hugging Face cache under `home` keeps the snapshots of a
/// repository: `~/.cache/huggingface/hub/models--<org>--<name>/snapshots`.
pub open spec fn snapshots_dir_spec(home: Seq<char>, repo_id: Seq<char>) -> Seq<char> {
    join_path(
        join_path(join_path(home, ".cache/huggingface/hub"@), "models--"@ + slashes_to_dashes(repo_id)),
        "snapshots"@,
    )
}

/// The directory holding the cached snapshots of `repo_id` under `home`.
pub fn hf_snapshots_dir(home: &str, repo_id: &str) -> (r: String)
    ensures
        r@ == snapshots_dir_spec(home@, repo_id@),
{
    let cache_root = join(home, ".cache/huggingface/hub");
    let id = chars_of(repo_id);
    let mut name = "models--".to_owned();
    let ghost prefix = name@;
    proof {
        reveal_strlit("models--");
        reveal_strlit("--");
    }
    let mut i: usize = 0;
    while i < id.len()
        invariant
            i <= id.len(),
            prefix == "models--"@,
            name@ == prefix + slashes_to_dashes(id@.take(i as int)),
        decreases id.len() - i,
    {
        let ghost before = name@;
        proof {
            let t = id@.take(i as int + 1);
            assert(t.drop_last() == id@.take(i as int));
            assert(t.last() == id@[i as int]);
        }
        if id[i] == '/' {
            name.append("--");
            assert(name@ =~= prefix + slashes_to_dashes(id@.take(i as int + 1)));
        } else {
            crate::text::push_char(&mut name, id[i]);
            assert(name@ =~= prefix + slashes_to_dashes(id@.take(i as int + 1)));
        }
        i = i + 1;
    }
    assert(id@.take(id.len() as int) == id@);
    let repo_dir = join(cache_root.as_str(), name.as_str());
    join(repo_dir.as_str(), "snapshots")
}

/// The order of modification times, an unknown time first.
pub open spec fn time_le(a: Option<i128>, b: Option<i128>) -> bool {
    match (a, b) {
        (None, _) => true,
        (Some(_), None) => false,
        (Some(x), Some(y)) => x <= y,
    }
}

/// The newest of the snapshots with these modification times: the latest
/// one, and of equally late ones the last listed; none when there are no
/// snapshots.
pub fn newest_entry(times: &Vec<Option<i128>>) -> (r: Option<usize>)
    ensures
        r is None <==> times.len() == 0,
        r matches Some(i) ==> i < times.len() && (forall|j: int|
            0 <= j < times.len() ==> time_le(#[trigger] times@[j], times@[i as int])) && (forall|j: int|
            i < j < times.len() ==> !time_le(times@[i as int], #[trigger] times@[j])),
{
    if times.len() == 0 {
        return None;
    }
    let mut best: usize = 0;
    let mut j: usize = 1;
    while j < times.len()
        invariant
            1 <= j <= times.len(),
            best < j,
            forall|k: int| 0 <= k < j ==> time_le(#[trigger] times@[k], times@[best as int]),
            forall|k: int| best < k < j ==> !time_le(times@[best as int], #[trigger] times@[k]),
        decreases times.len() - j,
    {
        let later = match (times[best], times[j]) {
            (None, _) => true,
            (Some(_), None) => false,
            (Some(x), Some(y)) => x <= y,
        };
        if later {
            best = j;
        }
        j = j + 1;
    }
    Some(best)
}

/// The embedder a run uses: the local runtime, or the daemon.
pub enum RuntimeBackend {
    Local(NativeJinaEmbedder),
    Daemon(DaemonJinaClient),
}

impl RuntimeBackend {
    /// The daemon's client when the daemon is asked for, else the local
    /// embedder; either one reads models from `model_dir` (when given) and
    /// embeds `batch_size` inputs at a time, and at least one.
    pub fn new(use_daemon: bool, model_dir: Option<String>, batch_size: usize) -> (b: RuntimeBackend)
        ensures
            ({
                let config = (opt_view(model_dir), if batch_size >= 1 {
                    batch_size as nat
                } else {
                    1nat
                });
                &&& use_daemon ==> (b matches RuntimeBackend::Daemon(c) && c@ == config)
                &&& !use_daemon ==> (b matches RuntimeBackend::Local(e) && e@ == config)
            }),
    {
        if use_daemon {
            RuntimeBackend::Daemon(DaemonJinaClient::new(model_dir, batch_size))
        } else {
            RuntimeBackend::Local(NativeJinaEmbedder::new_with_batch_size(model_dir, batch_size))
        }
    }
}

} // verus!
