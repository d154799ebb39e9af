//! The text of the results: the `path:line:` prefix, a result with its
//! context and score, and the listings of matching, non-matching and
//! counted files.

use vstd::prelude::*;
use crate::text::{decimal, decimal_chars, join_sep, join_strings, push_char, str_eq, str_views, string_of};

verus! {

/// The `path` and `line` parts shown before a result, as asked for.
pub open spec fn prefix_parts(
    path: Option<Seq<char>>,
    line_number: Option<nat>,
    with_filename: bool,
    show_line_number: bool,
) -> Seq<Seq<char>> {
    let a = if with_filename && path is Some {
        seq![path->0]
    } else {
        Seq::<Seq<char>>::empty()
    };
    if show_line_number && line_number is Some {
        a.push(decimal(line_number->0))
    } else {
        a
    }
}

/// The prefix of a result line: its parts joined and ended with the
/// separator (`:` for the match, `-` for context), or nothing.
pub open spec fn prefix_spec(
    path: Option<Seq<char>>,
    line_number: Option<nat>,
    with_filename: bool,
    show_line_number: bool,
    separator: char,
) -> Seq<char> {
    let parts = prefix_parts(path, line_number, with_filename, show_line_number);
    if parts.len() == 0 {
        Seq::empty()
    } else {
        join_sep(parts, seq![separator]).push(separator)
    }
}

/// An optional string's view.
pub open spec fn opt_str(s: Option<String>) -> Option<Seq<char>> {
    match s {
        Some(x) => Some(x@),
        None => None,
    }
}

/// An optional number's view.
pub open spec fn opt_nat(n: Option<usize>) -> Option<nat> {
    match n {
        Some(x) => Some(x as nat),
        None => None,
    }
}

/// The prefix of a result line.
pub fn format_prefix(
    path: &Option<String>,
    line_number: Option<usize>,
    with_filename: bool,
    show_line_number: bool,
    separator: char,
) -> (r: String)
    ensures
        r@ == prefix_spec(opt_str(*path), opt_nat(line_number), with_filename, show_line_number, separator),
{
    let mut parts: Vec<String> = Vec::new();
    if with_filename {
        if let Some(p) = path {
            parts.push(p.clone());
        }
    }
    if show_line_number {
        if let Some(n) = line_number {
            parts.push(string_of(&decimal_chars(n)));
        }
    }
    assert(str_views(parts@) =~= prefix_parts(opt_str(*path), opt_nat(line_number), with_filename, show_line_number));
    if parts.len() == 0 {
        return String::new();
    }
    let mut sep = String::new();
    push_char(&mut sep, separator);
    assert(sep@ =~= seq![separator]);
    let mut r = join_strings(&parts, sep.as_str());
    push_char(&mut r, separator);
    r
}

/// A search result ready to print: its score and label scores already
/// written out.
pub struct ResultText {
    pub path: Option<String>,
    pub line_number: Option<usize>,
    pub text: String,
    pub score: String,
    pub context_before: Vec<String>,
    pub context_after: Vec<String>,
    pub original_line: Option<String>,
    pub label: Option<String>,
    pub label_scores: String,
}

/// Each line with a prefix in front.
pub open spec fn prefixed(prefix: Seq<char>, lines: Seq<Seq<char>>) -> Seq<Seq<char>> {
    lines.map_values(|l: Seq<char>| prefix + l)
}

/// How a result is printed. A piped line is printed as it came, followed
/// by its score. Otherwise: the context before it, the matching text after
/// the `:` prefix with either its label and all label scores or its score,
/// and the context after it, context lines carrying the `-` prefix; one per
/// line.
pub open spec fn result_spec(r: ResultText, with_filename: bool, show_line_number: bool) -> Seq<char> {
    match r.original_line {
        Some(o) => o@ + "  ["@ + r.score@ + "]"@,
        None => {
            let p = prefix_spec(opt_str(r.path), opt_nat(r.line_number), with_filename, show_line_number, ':');
            let cp = prefix_spec(opt_str(r.path), opt_nat(r.line_number), with_filename, show_line_number, '-');
            let body = match r.label {
                Some(l) => r.text@ + "  ["@ + l@ + "] ["@ + r.label_scores@ + "]"@,
                None => r.text@ + "  ["@ + r.score@ + "]"@,
            };
            join_sep(
                prefixed(cp, str_views(r.context_before@)) + seq![p + body] + prefixed(
                    cp,
                    str_views(r.context_after@),
                ),
                "\n"@,
            )
        },
    }
}

fn push_prefixed(out: &mut Vec<String>, prefix: &String, lines: &Vec<String>)
    ensures
        str_views(final(out)@) == str_views(old(out)@) + prefixed(prefix@, str_views(lines@)),
{
    let ghost start = str_views(out@);
    let mut i: usize = 0;
    while i < lines.len()
        invariant
            i <= lines.len(),
            str_views(out@) == start + prefixed(prefix@, str_views(lines@).take(i as int)),
        decreases lines.len() - i,
    {
        let mut l = prefix.clone();
        l.append(lines[i].as_str());
        let ghost before = out@;
        out.push(l);
        proof {
            assert(str_views(out@) =~= str_views(before).push(l@));
            assert(prefixed(prefix@, str_views(lines@).take(i + 1)) =~= prefixed(
                prefix@,
                str_views(lines@).take(i as int),
            ).push(prefix@ + lines@[i as int]@));
        }
        i = i + 1;
    }
    assert(str_views(lines@).take(lines.len() as int) == str_views(lines@));
}

/// The text printed for a result.
pub fn format_result(r: &ResultText, with_filename: bool, show_line_number: bool) -> (s: String)
    ensures
        s@ == result_spec(*r, with_filename, show_line_number),
{
    if let Some(o) = &r.original_line {
        let mut s = o.clone();
        s.append("  [");
        s.append(r.score.as_str());
        s.append("]");
        return s;
    }
    let p = format_prefix(&r.path, r.line_number, with_filename, show_line_number, ':');
    let cp = format_prefix(&r.path, r.line_number, with_filename, show_line_number, '-');
    let mut lines: Vec<String> = Vec::new();
    push_prefixed(&mut lines, &cp, &r.context_before);
    let mut body = r.text.clone();
    match &r.label {
        Some(l) => {
            body.append("  [");
            body.append(l.as_str());
            body.append("] [");
            body.append(r.label_scores.as_str());
            body.append("]");
        },
        None => {
            body.append("  [");
            body.append(r.score.as_str());
            body.append("]");
        },
    }
    let mut main = p.clone();
    main.append(body.as_str());
    let ghost before = lines@;
    lines.push(main);
    assert(str_views(lines@) =~= str_views(before).push(main@));
    push_prefixed(&mut lines, &cp, &r.context_after);
    assert(str_views(lines@) =~= prefixed(cp@, str_views(r.context_before@)) + seq![main@] + prefixed(cp@, str_views(r.context_after@)));
    join_strings(&lines, "\n")
}

/// The distinct paths of the results, in the order they first appear.
pub open spec fn matched_spec(paths: Seq<Option<Seq<char>>>) -> Seq<Seq<char>>
    decreases paths.len(),
{
    if paths.len() == 0 {
        Seq::empty()
    } else {
        let prev = matched_spec(paths.drop_last());
        match paths.last() {
            Some(p) => if prev.contains(p) {
                prev
            } else {
                prev.push(p)
            },
            None => prev,
        }
    }
}

/// The views of optional strings.
pub open spec fn opt_views(s: Seq<Option<String>>) -> Seq<Option<Seq<char>>> {
    s.map_values(|x: Option<String>| opt_str(x))
}

fn contains_str(v: &Vec<String>, s: &str) -> (r: bool)
    ensures
        r == str_views(v@).contains(s@),
{
    let mut i: usize = 0;
    while i < v.len()
        invariant
            i <= v.len(),
            forall|j: int| 0 <= j < i ==> str_views(v@)[j] != s@,
        decreases v.len() - i,
    {
        if str_eq(v[i].as_str(), s) {
            assert(str_views(v@)[i as int] == s@);
            return true;
        }
        i = i + 1;
    }
    false
}

/// The files that have results (`-l`): each result's path once, in order
/// of first appearance.
pub fn matched_files(result_paths: &Vec<Option<String>>) -> (r: Vec<String>)
    ensures
        str_views(r@) == matched_spec(opt_views(result_paths@)),
{
    let mut out: Vec<String> = Vec::new();
    let mut i: usize = 0;
    while i < result_paths.len()
        invariant
            i <= result_paths.len(),
            str_views(out@) == matched_spec(opt_views(result_paths@).take(i as int)),
        decreases result_paths.len() - i,
    {
        proof {
            let t = opt_views(result_paths@).take(i as int + 1);
            assert(t.drop_last() == opt_views(result_paths@).take(i as int));
            assert(t.last() == opt_str(result_paths@[i as int]));
        }
        if let Some(p) = &result_paths[i] {
            if !contains_str(&out, p.as_str()) {
                let ghost before = out@;
                out.push(p.clone());
                assert(str_views(out@) =~= str_views(before).push(p@));
            }
        }
        i = i + 1;
    }
    assert(opt_views(result_paths@).take(result_paths.len() as int) == opt_views(result_paths@));
    out
}

/// The paths of the results.
pub open spec fn result_path_set(paths: Seq<Option<Seq<char>>>, p: Seq<char>) -> bool {
    paths.contains(Some(p))
}

fn has_result_path(result_paths: &Vec<Option<String>>, s: &str) -> (r: bool)
    ensures
        r == opt_views(result_paths@).contains(Some(s@)),
{
    let mut i: usize = 0;
    while i < result_paths.len()
        invariant
            i <= result_paths.len(),
            forall|j: int| 0 <= j < i ==> opt_views(result_paths@)[j] != Some(s@),
        decreases result_paths.len() - i,
    {
        if let Some(p) = &result_paths[i] {
            if str_eq(p.as_str(), s) {
                assert(opt_views(result_paths@)[i as int] == Some(s@));
                return true;
            }
        }
        i = i + 1;
    }
    false
}

/// The searched files that have no result (`-L`), in search order.
pub open spec fn unmatched_spec(files: Seq<Seq<char>>, paths: Seq<Option<Seq<char>>>) -> Seq<Seq<char>> {
    files.filter(|f: Seq<char>| !paths.contains(Some(f)))
}

/// The searched files that have no result (`-L`), in search order.
pub fn unmatched_files(files: &Vec<String>, result_paths: &Vec<Option<String>>) -> (r: Vec<String>)
    ensures
        str_views(r@) == unmatched_spec(str_views(files@), opt_views(result_paths@)),
{
    let ghost paths = opt_views(result_paths@);
    let mut out: Vec<String> = Vec::new();
    let mut i: usize = 0;
    while i < files.len()
        invariant
            i <= files.len(),
            paths == opt_views(result_paths@),
            str_views(out@) == unmatched_spec(str_views(files@).take(i as int), paths),
        decreases files.len() - i,
    {
        let f = &files[i];
        proof {
            let t = str_views(files@).take(i as int + 1);
            assert(t.drop_last() == str_views(files@).take(i as int));
            assert(t.last() == f@);
            reveal_with_fuel(Seq::filter, 1);
        }
        if !has_result_path(result_paths, f.as_str()) {
            let ghost before = out@;
            out.push(f.clone());
            assert(str_views(out@) =~= str_views(before).push(f@));
        }
        i = i + 1;
    }
    assert(str_views(files@).take(files.len() as int) == str_views(files@));
    out
}

/// How many results are in file `p`.
pub open spec fn count_in(paths: Seq<Option<Seq<char>>>, p: Seq<char>) -> nat
    decreases paths.len(),
{
    if paths.len() == 0 {
        0
    } else {
        count_in(paths.drop_last(), p) + if paths.last() == Some(p) {
            1nat
        } else {
            0nat
        }
    }
}

fn count_path(result_paths: &Vec<Option<String>>, s: &str) -> (n: usize)
    ensures
        n as nat == count_in(opt_views(result_paths@), s@),
{
    let mut n: usize = 0;
    let mut i: usize = 0;
    while i < result_paths.len()
        invariant
            i <= result_paths.len(),
            n <= i,
            n as nat == count_in(opt_views(result_paths@).take(i as int), s@),
        decreases result_paths.len() - i,
    {
        proof {
            let t = opt_views(result_paths@).take(i as int + 1);
            assert(t.drop_last() == opt_views(result_paths@).take(i as int));
            assert(t.last() == opt_str(result_paths@[i as int]));
        }
        if let Some(p) = &result_paths[i] {
            if str_eq(p.as_str(), s) {
                n = n + 1;
            }
        }
        i = i + 1;
    }
    assert(opt_views(result_paths@).take(result_paths.len() as int) == opt_views(result_paths@));
    n
}

/// The number of results in each file that has any (`count_by_file`):
/// each result path once, in order of first appearance, with its count.
pub fn count_by_file(result_paths: &Vec<Option<String>>) -> (r: Vec<(String, usize)>)
    ensures
        r@.map_values(|e: (String, usize)| e.0@) == matched_spec(opt_views(result_paths@)),
        forall|i: int| 0 <= i < r.len() ==> (#[trigger] r@[i]).1 as nat == count_in(
            opt_views(result_paths@),
            r@[i].0@,
        ),
{
    let files = matched_files(result_paths);
    let mut r: Vec<(String, usize)> = Vec::new();
    let mut i: usize = 0;
    while i < files.len()
        invariant
            i <= files.len(),
            r@.map_values(|e: (String, usize)| e.0@) == str_views(files@).take(i as int),
            forall|k: int| 0 <= k < r.len() ==> (#[trigger] r@[k]).1 as nat == count_in(
                opt_views(result_paths@),
                r@[k].0@,
            ),
        decreases files.len() - i,
    {
        let n = count_path(result_paths, files[i].as_str());
        let ghost before = r@;
        r.push((files[i].clone(), n));
        assert(r@.map_values(|e: (String, usize)| e.0@) =~= before.map_values(
            |e: (String, usize)| e.0@,
        ).push(files@[i as int]@));
        assert(str_views(files@).take(i as int + 1) =~= str_views(files@).take(i as int).push(
            files@[i as int]@,
        ));
        i = i + 1;
    }
    assert(str_views(files@).take(files.len() as int) == str_views(files@));
    r
}

proof fn lemma_count_absent(paths: Seq<Option<Seq<char>>>, p: Seq<char>)
    requires
        !paths.contains(Some(p)),
    ensures
        count_in(paths, p) == 0,
    decreases paths.len(),
{
    if paths.len() > 0 {
        let d = paths.drop_last();
        if d.contains(Some(p)) {
            let k = choose|k: int| 0 <= k < d.len() && d[k] == Some(p);
            assert(paths[k] == Some(p));
        }
        assert(paths[paths.len() - 1] == paths.last());
        lemma_count_absent(d, p);
    }
}

/// The count of file `f` in the counts of [`count_by_file`]: its entry, or
/// 0 when it has none.
fn count_of(counts: &Vec<(String, usize)>, f: &str, Ghost(paths): Ghost<Seq<Option<Seq<char>>>>) -> (n: usize)
    requires
        counts@.map_values(|e: (String, usize)| e.0@) == matched_spec(paths),
        forall|i: int| 0 <= i < counts.len() ==> (#[trigger] counts@[i]).1 as nat == count_in(
            paths,
            counts@[i].0@,
        ),
    ensures
        n as nat == count_in(paths, f@),
{
    let ghost names = counts@.map_values(|e: (String, usize)| e.0@);
    let mut i: usize = 0;
    while i < counts.len()
        invariant
            i <= counts.len(),
            names == counts@.map_values(|e: (String, usize)| e.0@),
            forall|k: int| 0 <= k < counts.len() ==> (#[trigger] counts@[k]).1 as nat == count_in(
                paths,
                counts@[k].0@,
            ),
            forall|k: int| 0 <= k < i ==> names[k] != f@,
        decreases counts.len() - i,
    {
        if str_eq(counts[i].0.as_str(), f) {
            assert(counts@[i as int].1 as nat == count_in(paths, counts@[i as int].0@));
            return counts[i].1;
        }
        assert(names[i as int] == counts@[i as int].0@);
        i = i + 1;
    }
    proof {
        lemma_matched_distinct(paths, f@);
        if names.contains(f@) {
            let k = choose|k: int| 0 <= k < names.len() && names[k] == f@;
        }
        lemma_count_absent(paths, f@);
    }
    0
}

/// The count line of a file (`-c`): `path:count`, or the count alone
/// without file names.
pub open spec fn count_line(f: Seq<char>, paths: Seq<Option<Seq<char>>>, with_filename: bool) -> Seq<char> {
    if with_filename {
        f + ":"@ + decimal(count_in(paths, f))
    } else {
        decimal(count_in(paths, f))
    }
}

/// The count lines of the searched files (`-c`), in search order.
pub fn count_lines(files: &Vec<String>, result_paths: &Vec<Option<String>>, with_filename: bool) -> (r: Vec<String>)
    ensures
        r.len() == files.len(),
        forall|i: int| 0 <= i < files.len() ==> #[trigger] r@[i]@ == count_line(
            files@[i]@,
            opt_views(result_paths@),
            with_filename,
        ),
{
    let counts = count_by_file(result_paths);
    let mut out: Vec<String> = Vec::new();
    let mut i: usize = 0;
    while i < files.len()
        invariant
            i <= files.len(),
            out.len() == i,
            counts@.map_values(|e: (String, usize)| e.0@) == matched_spec(opt_views(result_paths@)),
            forall|k: int| 0 <= k < counts.len() ==> (#[trigger] counts@[k]).1 as nat == count_in(
                opt_views(result_paths@),
                counts@[k].0@,
            ),
            forall|k: int| 0 <= k < i ==> #[trigger] out@[k]@ == count_line(
                files@[k]@,
                opt_views(result_paths@),
                with_filename,
            ),
        decreases files.len() - i,
    {
        let n = count_of(&counts, files[i].as_str(), Ghost(opt_views(result_paths@)));
        let digits = string_of(&decimal_chars(n));
        let line = if with_filename {
            let mut l = files[i].clone();
            l.append(":");
            l.append(digits.as_str());
            l
        } else {
            digits
        };
        out.push(line);
        i = i + 1;
    }
    out
}


/// `-l` lists each path once, and exactly the paths of the results.
pub proof fn lemma_matched_distinct(paths: Seq<Option<Seq<char>>>, p: Seq<char>)
    ensures
        matched_spec(paths).no_duplicates(),
        matched_spec(paths).contains(p) <==> paths.contains(Some(p)),
    decreases paths.len(),
{
    if paths.len() > 0 {
        let d = paths.drop_last();
        lemma_matched_distinct(d, p);
        let prev = matched_spec(d);
        let m = matched_spec(paths);
        if let Some(q) = paths.last() {
            if !prev.contains(q) {
                assert forall|i: int, j: int| 0 <= i < j < prev.push(q).len() implies prev.push(q)[i]
                    != prev.push(q)[j] by {
                    if j == prev.len() {
                        assert(prev.push(q)[i] == prev[i]);
                    }
                }
            }
        }
        if paths.contains(Some(p)) {
            let i = choose|i: int| 0 <= i < paths.len() && paths[i] == Some(p);
            if i < paths.len() - 1 {
                assert(d[i] == Some(p));
            }
        }
        if d.contains(Some(p)) {
            let i = choose|i: int| 0 <= i < d.len() && d[i] == Some(p);
            assert(paths[i] == Some(p));
        }
        if paths.last() == Some(p) {
            assert(paths[paths.len() - 1] == Some(p));
        }
        if prev.contains(p) {
            let k = choose|k: int| 0 <= k < prev.len() && prev[k] == p;
            assert(m[k] == p);
        }
        if m.contains(p) && !prev.contains(p) {
            let k = choose|k: int| 0 <= k < m.len() && m[k] == p;
            if k < prev.len() {
                assert(m[k] == prev[k]);
            }
            assert(paths.last() == Some(p));
        }
        if paths.last() == Some(p) && !prev.contains(p) {
            assert(m.last() == p);
        }
    }
}

} // verus!
