//! Which files and directories a search visits: include and exclude glob
//! sets matched against a path or its file name, and the directories that
//! are always skipped.

use vstd::prelude::*;
use globset::{GlobSet, GlobSetBuilder};
use crate::text::str_eq;

verus! {

#[verifier::external_type_specification]
#[verifier::external_body]
pub struct ExGlobSet(GlobSet);

#[verifier::external_type_specification]
#[verifier::external_body]
pub struct ExGlobSetBuilder(GlobSetBuilder);

#[verifier::external_type_specification]
#[verifier::external_body]
pub struct ExGlobError(globset::Error);

/// The glob patterns a set was built from, in order.
pub uninterp spec fn globset_patterns(set: GlobSet) -> Seq<Seq<char>>;

/// The glob patterns added to a builder so far, in order.
pub uninterp spec fn builder_patterns(builder: GlobSetBuilder) -> Seq<Seq<char>>;

/// Whether `globset::Glob::new(pattern)` accepts the pattern.
pub uninterp spec fn glob_parses(pattern: Seq<char>) -> bool;

/// Whether `GlobSetBuilder::build` succeeds on a builder holding these
/// patterns (each parsed with `Glob::new`).
pub uninterp spec fn globset_builds(patterns: Seq<Seq<char>>) -> bool;

/// Whether the glob `pattern` (default options) matches `path`.
pub uninterp spec fn glob_matches(pattern: Seq<char>, path: Seq<char>) -> bool;

/// `path` without its trailing `'/'`s.
pub open spec fn trim_slashes(path: Seq<char>) -> Seq<char>
    decreases path.len(),
{
    if path.len() > 0 && path.last() == '/' {
        trim_slashes(path.drop_last())
    } else {
        path
    }
}

/// What follows the last `'/'` of `p` (all of `p` when it has none).
pub open spec fn after_last_slash(p: Seq<char>) -> Seq<char>
    decreases p.len(),
{
    if p.len() == 0 || p.last() == '/' {
        Seq::empty()
    } else {
        after_last_slash(p.drop_last()).push(p.last())
    }
}

/// What comes before the last `'/'` of `p` (nothing when it has none).
pub open spec fn before_last_slash(p: Seq<char>) -> Seq<char>
    decreases p.len(),
{
    if p.len() == 0 {
        Seq::empty()
    } else if p.last() == '/' {
        p.drop_last()
    } else {
        before_last_slash(p.drop_last())
    }
}

/// Trimming slashes never lengthens a path.
pub proof fn lemma_trim_slashes_len(path: Seq<char>)
    ensures
        trim_slashes(path).len() <= path.len(),
    decreases path.len(),
{
    if path.len() > 0 && path.last() == '/' {
        lemma_trim_slashes_len(path.drop_last());
    }
}

/// What comes before the last slash of a non-empty path is shorter than it.
pub proof fn lemma_before_last_slash_len(p: Seq<char>)
    ensures
        before_last_slash(p).len() <= p.len(),
        p.len() > 0 ==> before_last_slash(p).len() < p.len(),
    decreases p.len(),
{
    if p.len() > 0 && p.last() != '/' {
        lemma_before_last_slash_len(p.drop_last());
    }
}

/// The final component of a Unix path (`Path::file_name`): trailing `'/'`s
/// and `.` components are passed over; there is none for the root, for the
/// empty path, and when the final component is `..`.
pub open spec fn path_file_name(path: Seq<char>) -> Option<Seq<char>>
    decreases path.len(),
{
    let t = trim_slashes(path);
    if t.len() == 0 {
        None
    } else if after_last_slash(t) == "."@ {
        proof {
            lemma_trim_slashes_len(path);
            lemma_before_last_slash_len(t);
        }
        path_file_name(before_last_slash(t))
    } else if after_last_slash(t) == ".."@ {
        None
    } else {
        Some(after_last_slash(t))
    }
}

/// An empty builder (`GlobSetBuilder::new`): it holds no pattern.
#[verifier::external_body]
fn builder_new() -> (b: GlobSetBuilder)
    ensures
        builder_patterns(b) == Seq::<Seq<char>>::empty(),
{
    GlobSetBuilder::new()
}

/// Parses `pattern` (`Glob::new`) and adds it to the builder
/// (`GlobSetBuilder::add`). Claimed: it succeeds exactly when the pattern
/// parses; the builder then holds the pattern after the earlier ones, and
/// is left as it was otherwise.
#[verifier::external_body]
fn builder_add(b: &mut GlobSetBuilder, pattern: &str) -> (r: Result<(), globset::Error>)
    ensures
        r is Ok <==> glob_parses(pattern@),
        r is Ok ==> builder_patterns(*final(b)) == builder_patterns(*old(b)).push(pattern@),
        r is Err ==> builder_patterns(*final(b)) == builder_patterns(*old(b)),
{
    match globset::Glob::new(pattern) {
        Ok(g) => {
            b.add(g);
            Ok(())
        },
        Err(e) => Err(e),
    }
}

/// Builds the set of the builder's patterns (`GlobSetBuilder::build`).
/// Claimed: it succeeds exactly when the named build of the builder's
/// patterns succeeds (the build reads nothing but the patterns), and a set
/// it returns holds the builder's patterns.
#[verifier::external_body]
fn builder_build(b: &GlobSetBuilder) -> (r: Result<GlobSet, globset::Error>)
    ensures
        r is Ok <==> globset_builds(builder_patterns(*b)),
        r matches Ok(s) ==> globset_patterns(s) == builder_patterns(*b),
{
    b.build()
}

/// Whether any glob of the set matches `path` (`GlobSet::is_match`), as the
/// globset documentation states.
#[verifier::external_body]
fn set_is_match(set: &GlobSet, path: &str) -> (r: bool)
    ensures
        r == (exists|i: int|
            0 <= i < globset_patterns(*set).len() && glob_matches(
                #[trigger] globset_patterns(*set)[i],
                path@,
            )),
{
    set.is_match(path)
}

/// The final component of `path` (`Path::file_name`, read back as a
/// string). Claimed: it is [`path_file_name`], as the standard library
/// documents `Path::file_name` and `Path::components` on Unix.
#[verifier::external_body]
fn file_name(path: &str) -> (r: Option<String>)
    ensures
        r is Some <==> path_file_name(path@) is Some,
        r matches Some(n) ==> path_file_name(path@) == Some(n@),
{
    std::path::Path::new(path).file_name().map(|n| n.to_string_lossy().into_owned())
}

/// Whether any of the patterns matches `path`.
pub open spec fn set_matches(patterns: Seq<Seq<char>>, path: Seq<char>) -> bool {
    exists|i: int| 0 <= i < patterns.len() && glob_matches(#[trigger] patterns[i], path)
}

/// The views of a sequence of strings.
pub open spec fn pattern_views(s: Seq<String>) -> Seq<Seq<char>> {
    s.map_values(|x: String| x@)
}

/// Whether every pattern parses.
pub open spec fn all_parse(patterns: Seq<Seq<char>>) -> bool {
    forall|i: int| 0 <= i < patterns.len() ==> glob_parses(#[trigger] patterns[i])
}

/// The set of `patterns`: none for no patterns; else the set of all of
/// them, unless one does not parse or the set cannot be built, which is an
/// error.
pub fn build_globset(patterns: &Vec<String>) -> (r: Result<Option<GlobSet>, globset::Error>)
    ensures
        patterns.len() == 0 <==> r matches Ok(None),
        patterns.len() > 0 && all_parse(pattern_views(patterns@)) && globset_builds(
            pattern_views(patterns@),
        ) ==> r matches Ok(Some(_)),
        r is Err <==> patterns.len() > 0 && !(all_parse(pattern_views(patterns@)) && globset_builds(
            pattern_views(patterns@),
        )),
        r matches Ok(Some(s)) ==> globset_patterns(s) == pattern_views(patterns@),
{
    if patterns.len() == 0 {
        return Ok(None);
    }
    let mut b = builder_new();
    let mut i: usize = 0;
    while i < patterns.len()
        invariant
            i <= patterns.len(),
            builder_patterns(b) == pattern_views(patterns@).take(i as int),
            forall|j: int| 0 <= j < i ==> glob_parses(#[trigger] patterns@[j]@),
        decreases patterns.len() - i,
    {
        match builder_add(&mut b, patterns[i].as_str()) {
            Ok(()) => {},
            Err(e) => {
                assert(pattern_views(patterns@)[i as int] == patterns@[i as int]@);
                return Err(e);
            },
        }
        assert(pattern_views(patterns@).take(i as int + 1) =~= pattern_views(patterns@).take(
            i as int,
        ).push(patterns@[i as int]@));
        i = i + 1;
    }
    assert(pattern_views(patterns@).take(patterns.len() as int) == pattern_views(patterns@));
    assert forall|j: int| 0 <= j < patterns.len() implies glob_parses(
        #[trigger] pattern_views(patterns@)[j],
    ) by {
        assert(pattern_views(patterns@)[j] == patterns@[j]@);
    }
    match builder_build(&b) {
        Ok(s) => Ok(Some(s)),
        Err(e) => Err(e),
    }
}

/// A set matches a path when it matches the path or the path's file name.
pub open spec fn matches_path_or_name(patterns: Seq<Seq<char>>, path: Seq<char>) -> bool {
    set_matches(patterns, path) || (path_file_name(path) matches Some(n) && set_matches(patterns, n))
}

/// Whether a file is searched: it must match the set of wanted files (when there
/// is one) and must not match the exclude set (when there is one), a set
/// matching when it matches the path or the file name.
pub open spec fn include_spec(
    path: Seq<char>,
    wanted: Option<Seq<Seq<char>>>,
    exclude: Option<Seq<Seq<char>>>,
) -> bool {
    (wanted matches Some(i) ==> matches_path_or_name(i, path)) && (exclude matches Some(e)
        ==> !matches_path_or_name(e, path))
}

/// A set's patterns, if there is a set.
pub open spec fn opt_patterns(set: Option<&GlobSet>) -> Option<Seq<Seq<char>>> {
    match set {
        Some(s) => Some(globset_patterns(*s)),
        None => None,
    }
}

fn matches_either(set: &GlobSet, path: &str) -> (r: bool)
    ensures
        r == matches_path_or_name(globset_patterns(*set), path@),
{
    if set_is_match(set, path) {
        return true;
    }
    match file_name(path) {
        Some(n) => set_is_match(set, n.as_str()),
        None => false,
    }
}

/// Whether a file is searched.
pub fn should_include_file(path: &str, wanted: Option<&GlobSet>, exclude: Option<&GlobSet>) -> (r: bool)
    ensures
        r == include_spec(path@, opt_patterns(wanted), opt_patterns(exclude)),
{
    if let Some(i) = wanted {
        if !matches_either(i, path) {
            return false;
        }
    }
    if let Some(e) = exclude {
        if matches_either(e, path) {
            return false;
        }
    }
    true
}

/// The directories a recursive search always skips.
pub open spec fn default_excluded(name: Seq<char>) -> bool {
    name == ".git"@ || name == ".svn"@ || name == ".hg"@ || name == "__pycache__"@ || name
        == "node_modules"@ || name == ".venv"@ || name == "venv"@
}

/// Whether a recursive search skips an entry and all below it: a
/// directory that is always skipped, or one whose path or name matches the
/// exclude set (when there is one). Files are never skipped here; the
/// include and exclude sets decide on them.
pub open spec fn exclude_dir_spec(
    is_dir: bool,
    name: Seq<char>,
    path: Seq<char>,
    exclude_dirs: Option<Seq<Seq<char>>>,
) -> bool {
    is_dir && (default_excluded(name) || (exclude_dirs matches Some(e) && (set_matches(e, path)
        || set_matches(e, name))))
}

/// Whether a recursive search skips the entry with this kind, file name
/// and path.
pub fn should_exclude_dir(is_dir: bool, name: &str, path: &str, exclude_dirs: Option<&GlobSet>) -> (r: bool)
    ensures
        r == exclude_dir_spec(is_dir, name@, path@, opt_patterns(exclude_dirs)),
{
    if !is_dir {
        return false;
    }
    if str_eq(name, ".git") || str_eq(name, ".svn") || str_eq(name, ".hg") || str_eq(
        name,
        "__pycache__",
    ) || str_eq(name, "node_modules") || str_eq(name, ".venv") || str_eq(name, "venv") {
        return true;
    }
    match exclude_dirs {
        Some(e) => set_is_match(e, path) || set_is_match(e, name),
        None => false,
    }
}

} // verus!
