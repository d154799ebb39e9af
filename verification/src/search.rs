//! Reading grep-style candidate lines, removing terminal colors, and the
//! context lines shown around a match.

use vstd::prelude::*;
use crate::text::{
    decimal, lemma_decimal_digits, lemma_first_index, lemma_parse_decimal,
    chars_of, first_index, find_char, is_blank, is_blank_chars, parse_usize, parse_usize_spec,
    slice_chars, string_of,
};

verus! {

/// A candidate line, split as `path:line:text` where it has that shape.
#[derive(Debug, PartialEq, Eq)]
pub struct ParsedGrepLine {
    pub path: Option<String>,
    pub line_number: Option<usize>,
    pub content: String,
    pub raw_line: String,
}

/// The mathematical content of a [`ParsedGrepLine`].
pub struct ParsedView {
    pub path: Option<Seq<char>>,
    pub line_number: Option<nat>,
    pub content: Seq<char>,
    pub raw_line: Seq<char>,
}

impl View for ParsedGrepLine {
    type V = ParsedView;

    open spec fn view(&self) -> ParsedView {
        ParsedView {
            path: match self.path {
                Some(p) => Some(p@),
                None => None,
            },
            line_number: match self.line_number {
                Some(n) => Some(n as nat),
                None => None,
            },
            content: self.content@,
            raw_line: self.raw_line@,
        }
    }
}

/// A non-empty path, or none.
pub open spec fn nonempty_path(p: Seq<char>) -> Option<Seq<char>> {
    if p.len() == 0 {
        None
    } else {
        Some(p)
    }
}

/// How a candidate line reads. With two colons and a number between them it
/// is `path:line:text`; with one colon, `path:text`; otherwise, and when the
/// part between the colons is not a number, the whole line is the text. An
/// empty path is no path.
pub open spec fn parse_grep_spec(line: Seq<char>) -> ParsedView {
    let whole = ParsedView { path: None, line_number: None, content: line, raw_line: line };
    match first_index(line, ':') {
        None => whole,
        Some(i) => {
            let path = nonempty_path(line.take(i as int));
            let rest = line.skip(i + 1int);
            match first_index(rest, ':') {
                None => ParsedView { path, line_number: None, content: rest, raw_line: line },
                Some(j) => match parse_usize_spec(rest.take(j as int)) {
                    Some(n) => ParsedView {
                        path,
                        line_number: Some(n),
                        content: rest.skip(j + 1int),
                        raw_line: line,
                    },
                    None => whole,
                },
            }
        },
    }
}

fn path_of(v: &Vec<char>, end: usize) -> (r: Option<String>)
    requires
        end <= v.len(),
    ensures
        r matches Some(p) ==> nonempty_path(v@.take(end as int)) == Some(p@),
        r is None ==> nonempty_path(v@.take(end as int)) is None,
{
    if end == 0 {
        None
    } else {
        let p = slice_chars(v, 0, end);
        assert(p@ == v@.take(end as int));
        Some(string_of(&p))
    }
}

/// Splits a grep-style candidate line into path, line number and text.
pub fn parse_grep_line(line: &str) -> (r: ParsedGrepLine)
    ensures
        r@ == parse_grep_spec(line@),
{
    let v = chars_of(line);
    let raw = line.to_owned();
    match find_char(&v, ':') {
        None => ParsedGrepLine { path: None, line_number: None, content: line.to_owned(), raw_line: raw },
        Some(i) => {
            let path = path_of(&v, i);
            let rest = slice_chars(&v, i + 1, v.len());
            assert(rest@ == v@.skip(i + 1));
            match find_char(&rest, ':') {
                None => ParsedGrepLine {
                    path,
                    line_number: None,
                    content: string_of(&rest),
                    raw_line: raw,
                },
                Some(j) => {
                    let num = slice_chars(&rest, 0, j);
                    assert(num@ == rest@.take(j as int));
                    match parse_usize(&num) {
                        Some(n) => {
                            let content = slice_chars(&rest, j + 1, rest.len());
                            assert(content@ == rest@.skip(j + 1));
                            ParsedGrepLine {
                                path,
                                line_number: Some(n),
                                content: string_of(&content),
                                raw_line: raw,
                            }
                        },
                        None => ParsedGrepLine {
                            path: None,
                            line_number: None,
                            content: line.to_owned(),
                            raw_line: raw,
                        },
                    }
                },
            }
        },
    }
}


/// Whether `regex::Regex::new(pattern)` succeeds.
pub uninterp spec fn regex_compiles(pattern: Seq<char>) -> bool;

/// What `Regex::replace_all` returns on `haystack` for the regex compiled
/// from `pattern`, with `replacement` put in place of each match.
pub uninterp spec fn regex_replace_all(
    pattern: Seq<char>,
    haystack: Seq<char>,
    replacement: Seq<char>,
) -> Seq<char>;

/// Whether `c` may stand between the `[` and the `m` of a terminal color
/// sequence: a digit or `;`.
pub open spec fn color_param(c: char) -> bool {
    ('0' <= c <= '9') || c == ';'
}

/// The length of the run of color parameters that `s` starts with.
pub open spec fn param_run(s: Seq<char>) -> nat
    decreases s.len(),
{
    if s.len() > 0 && color_param(s[0]) {
        1 + param_run(s.drop_first())
    } else {
        0
    }
}

/// The length of the color sequence (ESC, `[`, digits and `;`, `m`) that
/// `s` starts with, if it starts with one.
pub open spec fn color_code_len(s: Seq<char>) -> Option<nat> {
    let k: int = 2 + param_run(s.skip(2)) as int;
    if s.len() >= 2 && s[0] == '\x1b' && s[1] == '[' && k < s.len() && s[k] == 'm' {
        Some((k + 1) as nat)
    } else {
        None
    }
}

/// `s` with its color sequences removed, from left to right.
pub open spec fn color_free(s: Seq<char>) -> Seq<char>
    decreases s.len(),
{
    if s.len() == 0 {
        s
    } else {
        match color_code_len(s) {
            Some(k) => color_free(s.skip(k as int)),
            None => seq![s[0]] + color_free(s.drop_first()),
        }
    }
}

/// The pattern of a terminal color sequence: ESC, `[`, digits and `;`, `m`.
pub open spec fn ansi_pattern() -> Seq<char> {
    "\x1b\\[[0-9;]*m"@
}

/// Compiles `pattern` with `regex::Regex::new` and, when it compiles,
/// replaces every match in `haystack` with `replacement`
/// (`Regex::replace_all`). Claimed: the result is present exactly when the
/// pattern compiles, and is then the named replacement result, a function
/// of the three strings alone. For the color pattern and an empty
/// replacement it is stated: the pattern compiles, it matches exactly ESC,
/// `[`, a run of digits and `;`, and `m`, and the matches are removed from
/// left to right without overlap.
#[verifier::external_body]
fn regex_replace(pattern: &str, haystack: &str, replacement: &str) -> (r: Option<String>)
    ensures
        r is Some <==> regex_compiles(pattern@),
        r matches Some(s) ==> s@ == regex_replace_all(pattern@, haystack@, replacement@),
        pattern@ == ansi_pattern() && replacement@ == ""@ ==> r is Some && r->0@ == color_free(haystack@),
{
    match regex::Regex::new(pattern) {
        Ok(re) => Some(re.replace_all(haystack, replacement).into_owned()),
        Err(_) => None,
    }
}

/// The text with its terminal color sequences removed.
pub fn strip_ansi(text: &str) -> (r: String)
    ensures
        r@ == color_free(text@),
{
    let pattern = "\x1b\\[[0-9;]*m";
    proof {
        reveal_strlit("\x1b\\[[0-9;]*m");
        reveal_strlit("");
    }
    match regex_replace(pattern, text, "") {
        Some(s) => s,
        None => text.to_owned(),
    }
}

/// The candidates of piped input worth scoring: for each line whose text,
/// once colors are removed, is not blank, its position and that text.
pub open spec fn pipe_candidates_spec(lines: Seq<Seq<char>>) -> Seq<(nat, Seq<char>)>
    decreases lines.len(),
{
    if lines.len() == 0 {
        Seq::empty()
    } else {
        let prev = pipe_candidates_spec(lines.drop_last());
        let text = color_free(parse_grep_spec(lines.last()).content);
        if is_blank(text) {
            prev
        } else {
            prev.push(((lines.len() - 1) as nat, text))
        }
    }
}

/// The views of a sequence of strings.
pub open spec fn string_views(s: Seq<String>) -> Seq<Seq<char>> {
    s.map_values(|x: String| x@)
}

/// Reads piped candidate lines: each line parsed, and the positions and
/// color-free texts of those whose text is not blank.
pub fn pipe_candidates(stdin_lines: &Vec<String>) -> (r: (Vec<ParsedGrepLine>, Vec<(usize, String)>))
    ensures
        r.0.len() == stdin_lines.len(),
        forall|i: int| 0 <= i < stdin_lines.len() ==> #[trigger] r.0@[i]@ == parse_grep_spec(
            stdin_lines@[i]@,
        ),
        r.1@.map_values(|c: (usize, String)| (c.0 as nat, c.1@)) == pipe_candidates_spec(
            string_views(stdin_lines@),
        ),
{
    let mut parsed: Vec<ParsedGrepLine> = Vec::new();
    let mut valid: Vec<(usize, String)> = Vec::new();
    let mut i: usize = 0;
    while i < stdin_lines.len()
        invariant
            i <= stdin_lines.len(),
            parsed.len() == i,
            forall|k: int| 0 <= k < i ==> #[trigger] parsed@[k]@ == parse_grep_spec(
                stdin_lines@[k]@,
            ),
            valid@.map_values(|c: (usize, String)| (c.0 as nat, c.1@)) == pipe_candidates_spec(
                string_views(stdin_lines@).take(i as int),
            ),
        decreases stdin_lines.len() - i,
    {
        let p = parse_grep_line(stdin_lines[i].as_str());
        let text = strip_ansi(p.content.as_str());
        let chars = chars_of(text.as_str());
        proof {
            let t = string_views(stdin_lines@).take(i as int + 1);
            assert(t.drop_last() == string_views(stdin_lines@).take(i as int));
            assert(t.last() == stdin_lines@[i as int]@);
        }
        let ghost before = valid@;
        if !is_blank_chars(&chars) {
            valid.push((i, text));
            assert(valid@.map_values(|c: (usize, String)| (c.0 as nat, c.1@)) =~= before.map_values(
                |c: (usize, String)| (c.0 as nat, c.1@),
            ).push((i as nat, chars@)));
        }
        parsed.push(p);
        i = i + 1;
    }
    proof {
        assert(string_views(stdin_lines@).take(stdin_lines.len() as int) == string_views(
            stdin_lines@,
        ));
    }
    (parsed, valid)
}

/// The lines shown around a match on line `line_number` (1-based): up to
/// `before` lines before it and up to `after` lines after it.
pub open spec fn context_spec(
    lines: Seq<Seq<char>>,
    line_number: nat,
    before: nat,
    after: nat,
) -> (Seq<Seq<char>>, Seq<Seq<char>>) {
    let idx: int = if line_number >= 1 { line_number - 1 } else { 0 };
    let bstart: int = if idx >= before { idx - before } else { 0 };
    let bend: int = if idx <= lines.len() { idx } else { lines.len() as int };
    let astart: int = if line_number <= lines.len() { line_number as int } else { lines.len() as int };
    let aend: int = if astart + after <= lines.len() { astart + after } else { lines.len() as int };
    (lines.subrange(bstart, bend), lines.subrange(astart, aend))
}

fn copy_strings(lines: &Vec<String>, start: usize, end: usize) -> (r: Vec<String>)
    requires
        start <= end <= lines.len(),
    ensures
        string_views(r@) == string_views(lines@).subrange(start as int, end as int),
{
    let mut r: Vec<String> = Vec::new();
    let mut i = start;
    while i < end
        invariant
            start <= i <= end,
            end <= lines.len(),
            string_views(r@) == string_views(lines@).subrange(start as int, i as int),
        decreases end - i,
    {
        let s = lines[i].clone();
        let ghost before = r@;
        r.push(s);
        assert(string_views(r@) =~= string_views(before).push(s@));
        i = i + 1;
        assert(string_views(lines@).subrange(start as int, i as int) =~= string_views(lines@).subrange(start as int, i - 1).push(lines@[i - 1]@));
    }
    r
}

/// The lines before and after a match on line `line_number` (1-based).
/// The line must not lie past the end of the text by more than `before`
/// lines, and the end of the after-context must fit in `usize`.
pub fn context_lines(
    lines: &Vec<String>,
    line_number: usize,
    before: usize,
    after: usize,
) -> (r: (Vec<String>, Vec<String>))
    requires
        (if line_number >= 1 { line_number - 1 } else { 0int }) - before <= lines.len(),
        (if line_number <= lines.len() { line_number as int } else { lines.len() as int }) + after
            <= usize::MAX,
    ensures
        (string_views(r.0@), string_views(r.1@)) == context_spec(
            string_views(lines@),
            line_number as nat,
            before as nat,
            after as nat,
        ),
{
    let idx = if line_number >= 1 { line_number - 1 } else { 0 };
    let bstart = if idx >= before { idx - before } else { 0 };
    let bend = if idx <= lines.len() { idx } else { lines.len() };
    let astart = if line_number <= lines.len() { line_number } else { lines.len() };
    let aend = if astart + after <= lines.len() { astart + after } else { lines.len() };
    (copy_strings(lines, bstart, bend), copy_strings(lines, astart, aend))
}


/// The context of a match on line `n` of the text (1 <= n <= its number of
/// lines): the after-context is the lines right after it, `min(after,
/// len - n)` of them, cut at the end of the text rather than dropped; the
/// before-context is the lines right before it, `min(before, n - 1)` of
/// them, ending just above the match.
pub proof fn lemma_context_window(lines: Seq<Seq<char>>, n: nat, before: nat, after: nat)
    requires
        1 <= n <= lines.len(),
    ensures
        ({
            let (b, a) = context_spec(lines, n, before, after);
            &&& a.len() == (if after <= lines.len() - n { after as int } else { lines.len() - n })
            &&& forall|i: int| 0 <= i < a.len() ==> #[trigger] a[i] == lines[n + i]
            &&& b.len() == (if before <= n - 1 { before as int } else { n - 1 })
            &&& forall|i: int| 0 <= i < b.len() ==> #[trigger] b[i] == lines[n - 1 - b.len() + i]
        }),
{
}

proof fn lemma_first_index_after(a: Seq<char>, b: Seq<char>, c: char)
    requires
        forall|i: int| 0 <= i < a.len() ==> a[i] != c,
    ensures
        first_index(a + seq![c] + b, c) == Some(a.len() as nat),
{
    let s = a + seq![c] + b;
    let k: int = a.len() + 1int;
    assert(s.take(k) == a.push(c));
    lemma_first_index(a, c);
    assert(a.push(c).drop_last() == a);
    crate::text::lemma_first_index_prefix(s, c, k);
}

/// Every parse keeps the line it read; a line without a colon is all
/// text; and a line written as `path:line:text`, with a path that holds no
/// colon, reads back as that path, that line number and that text (which
/// may hold colons).
pub proof fn lemma_parse_grep_laws(line: Seq<char>, path: Seq<char>, n: usize, text: Seq<char>)
    ensures
        parse_grep_spec(line).raw_line == line,
        first_index(line, ':') is None ==> parse_grep_spec(line) == (ParsedView {
            path: None,
            line_number: None,
            content: line,
            raw_line: line,
        }),
        path.len() > 0 && (forall|i: int| 0 <= i < path.len() ==> path[i] != ':') ==> parse_grep_spec(
            path + ":"@ + decimal(n as nat) + ":"@ + text,
        ) == (ParsedView {
            path: Some(path),
            line_number: Some(n as nat),
            content: text,
            raw_line: path + ":"@ + decimal(n as nat) + ":"@ + text,
        }),
{
    reveal_strlit(":");
    if path.len() > 0 && (forall|i: int| 0 <= i < path.len() ==> path[i] != ':') {
        let d = decimal(n as nat);
        let l = path + ":"@ + d + ":"@ + text;
        let rest0 = d + ":"@ + text;
        assert(":"@ == seq![':']);
        assert(l == path + seq![':'] + rest0);
        lemma_first_index_after(path, rest0, ':');
        assert(l.take(path.len() as int) == path);
        assert(l.skip(path.len() + 1int) == rest0);
        lemma_decimal_digits(n as nat);
        assert(rest0 == d + seq![':'] + text);
        lemma_first_index_after(d, text, ':');
        assert(rest0.take(d.len() as int) == d);
        assert(rest0.skip(d.len() + 1int) == text);
        lemma_parse_decimal(n);
    }
}

} // verus!
