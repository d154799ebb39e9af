//! Cutting a file's text into chunks: by line, by paragraph, by sentence or
//! by windows of estimated tokens; and decoding a file's bytes into text.

use vstd::prelude::*;
use crate::text::{
    is_ws, trim_start,
    chars_of, lines_of, split_lines,
    is_blank, is_blank_chars, join_lines, join_lines_chars, string_of, trim, trim_chars, trim_end,
    trim_end_chars, views,
};
use crate::types::{Chunk, Granularity};
use vstd::utf8::{decode_utf8, encode_scalar, encode_utf8, valid_utf8};

verus! {

/// The views of a sequence of chunks.
pub open spec fn chunk_views(cs: Seq<Chunk>) -> Seq<(nat, Seq<char>)> {
    cs.map_values(|c: Chunk| c@)
}

/// One chunk per non-blank line: its 1-based number and the line without
/// trailing whitespace.
pub open spec fn line_chunks(lines: Seq<Seq<char>>) -> Seq<(nat, Seq<char>)>
    decreases lines.len(),
{
    if lines.len() == 0 {
        Seq::empty()
    } else {
        let prev = line_chunks(lines.drop_last());
        let l = lines.last();
        if is_blank(l) {
            prev
        } else {
            prev.push((lines.len() as nat, trim_end(l)))
        }
    }
}

/// Grouping lines into runs of non-blank lines: the finished chunks, the
/// lines of the run in progress and the number of its first line.
pub open spec fn paragraph_fold(lines: Seq<Seq<char>>) -> (Seq<(nat, Seq<char>)>, Seq<Seq<char>>, nat)
    decreases lines.len(),
{
    if lines.len() == 0 {
        (Seq::empty(), Seq::empty(), 1)
    } else {
        let (done, cur, start) = paragraph_fold(lines.drop_last());
        let l = lines.last();
        if is_blank(l) {
            if cur.len() > 0 {
                (done.push((start, join_lines(cur))), Seq::empty(), start)
            } else {
                (done, cur, start)
            }
        } else {
            let start2 = if cur.len() == 0 {
                lines.len() as nat
            } else {
                start
            };
            (done, cur.push(l), start2)
        }
    }
}

/// The finished chunks, with the run in progress closed.
pub open spec fn close_run(
    done: Seq<(nat, Seq<char>)>,
    cur: Seq<Seq<char>>,
    start: nat,
) -> Seq<(nat, Seq<char>)> {
    if cur.len() > 0 {
        done.push((start, join_lines(cur)))
    } else {
        done
    }
}

/// One chunk per maximal run of non-blank lines: the number of its first
/// line and its lines joined with `'\n'`.
pub open spec fn paragraph_chunks(lines: Seq<Seq<char>>) -> Seq<(nat, Seq<char>)> {
    let (done, cur, start) = paragraph_fold(lines);
    close_run(done, cur, start)
}

fn chunk_of(line_number: usize, text: &Vec<char>) -> (c: Chunk)
    ensures
        c@ == (line_number as nat, text@),
{
    Chunk { line_number, text: string_of(text) }
}

proof fn lemma_push_views(cs: Seq<Chunk>, c: Chunk)
    ensures
        chunk_views(cs.push(c)) == chunk_views(cs).push(c@),
{
    assert(chunk_views(cs.push(c)) =~= chunk_views(cs).push(c@));
}

proof fn lemma_push_lines(xs: Seq<Vec<char>>, x: Vec<char>)
    ensures
        views(xs.push(x)) == views(xs).push(x@),
{
    assert(views(xs.push(x)) =~= views(xs).push(x@));
}

/// One chunk per non-blank line.
fn split_line_chunks(lines: &Vec<Vec<char>>) -> (r: Vec<Chunk>)
    ensures
        chunk_views(r@) == line_chunks(views(lines@)),
{
    let mut out: Vec<Chunk> = Vec::new();
    let mut i: usize = 0;
    while i < lines.len()
        invariant
            i <= lines.len(),
            chunk_views(out@) == line_chunks(views(lines@).take(i as int)),
        decreases lines.len() - i,
    {
        let line = &lines[i];
        proof {
            let t = views(lines@).take(i as int + 1);
            assert(t.drop_last() == views(lines@).take(i as int));
            assert(t.last() == line@);
        }
        if !is_blank_chars(line) {
            let text = trim_end_chars(line);
            let c = chunk_of(i + 1, &text);
            proof {
                lemma_push_views(out@, c);
            }
            out.push(c);
        }
        i = i + 1;
    }
    proof {
        assert(views(lines@).take(lines.len() as int) == views(lines@));
    }
    out
}

/// One chunk per maximal run of non-blank lines.
fn split_paragraph_chunks(lines: &Vec<Vec<char>>) -> (r: Vec<Chunk>)
    ensures
        chunk_views(r@) == paragraph_chunks(views(lines@)),
{
    let mut out: Vec<Chunk> = Vec::new();
    let mut cur: Vec<Vec<char>> = Vec::new();
    let mut start: usize = 1;
    let mut i: usize = 0;
    while i < lines.len()
        invariant
            i <= lines.len(),
            1 <= start <= i + 1,
            paragraph_fold(views(lines@).take(i as int)) == (chunk_views(out@), views(cur@), start as nat),
        decreases lines.len() - i,
    {
        let line = &lines[i];
        proof {
            let t = views(lines@).take(i as int + 1);
            assert(t.drop_last() == views(lines@).take(i as int));
            assert(t.last() == line@);
        }
        if is_blank_chars(line) {
            if cur.len() > 0 {
                let text = join_lines_chars(&cur);
                let c = chunk_of(start, &text);
                proof {
                    lemma_push_views(out@, c);
                }
                out.push(c);
                cur = Vec::new();
                assert(views(cur@) =~= Seq::<Seq<char>>::empty());
            }
        } else {
            if cur.len() == 0 {
                start = i + 1;
            }
            let copy = line.clone();
            proof {
                lemma_push_lines(cur@, copy);
            }
            cur.push(copy);
        }
        i = i + 1;
    }
    proof {
        assert(views(lines@).take(lines.len() as int) == views(lines@));
    }
    if cur.len() > 0 {
        let text = join_lines_chars(&cur);
        let c = chunk_of(start, &text);
        proof {
            lemma_push_views(out@, c);
        }
        out.push(c);
    }
    out
}


/// Characters that end a sentence.
pub open spec fn is_terminator(c: char) -> bool {
    c == '.' || c == '!' || c == '?' || c == '\u{3002}' || c == '\u{FF01}' || c == '\u{FF1F}'
}

/// Cutting a line after each sentence terminator: the trimmed non-blank
/// sentences so far and the text since the last terminator.
pub open spec fn sentence_fold(line: Seq<char>) -> (Seq<Seq<char>>, Seq<char>)
    decreases line.len(),
{
    if line.len() == 0 {
        (Seq::empty(), Seq::empty())
    } else {
        let (segs, cur) = sentence_fold(line.drop_last());
        let cur2 = cur.push(line.last());
        if is_terminator(line.last()) {
            if is_blank(cur2) {
                (segs, Seq::empty())
            } else {
                (segs.push(trim(cur2)), Seq::empty())
            }
        } else {
            (segs, cur2)
        }
    }
}

/// The sentences of a line: the pieces that end at a terminator (kept with
/// it) or at the end of the line, trimmed, the blank ones left out.
pub open spec fn sentence_segments(line: Seq<char>) -> Seq<Seq<char>> {
    let (segs, cur) = sentence_fold(line);
    if is_blank(cur) {
        segs
    } else {
        segs.push(trim(cur))
    }
}

/// The chunks of one line: each of its sentences, numbered with the line.
pub open spec fn numbered(n: nat, segs: Seq<Seq<char>>) -> Seq<(nat, Seq<char>)> {
    segs.map_values(|s: Seq<char>| (n, s))
}

/// One chunk per sentence of each non-blank line, numbered with its line.
pub open spec fn sentence_chunks(lines: Seq<Seq<char>>) -> Seq<(nat, Seq<char>)>
    decreases lines.len(),
{
    if lines.len() == 0 {
        Seq::empty()
    } else {
        let prev = sentence_chunks(lines.drop_last());
        let l = lines.last();
        if is_blank(l) {
            prev
        } else {
            prev + numbered(lines.len() as nat, sentence_segments(l))
        }
    }
}

fn is_terminator_char(c: char) -> (b: bool)
    ensures
        b == is_terminator(c),
{
    c == '.' || c == '!' || c == '?' || c == '\u{3002}' || c == '\u{FF01}' || c == '\u{FF1F}'
}

/// The sentences of a line.
fn line_sentences(line: &Vec<char>) -> (r: Vec<Vec<char>>)
    ensures
        views(r@) == sentence_segments(line@),
{
    let mut segs: Vec<Vec<char>> = Vec::new();
    let mut cur: Vec<char> = Vec::new();
    let mut i: usize = 0;
    while i < line.len()
        invariant
            i <= line.len(),
            sentence_fold(line@.take(i as int)) == (views(segs@), cur@),
        decreases line.len() - i,
    {
        let c = line[i];
        proof {
            let t = line@.take(i as int + 1);
            assert(t.drop_last() == line@.take(i as int));
            assert(t.last() == c);
        }
        cur.push(c);
        if is_terminator_char(c) {
            if !is_blank_chars(&cur) {
                let t = trim_chars(&cur);
                proof {
                    lemma_push_lines(segs@, t);
                }
                segs.push(t);
            }
            cur = Vec::new();
        }
        i = i + 1;
    }
    proof {
        assert(line@.take(line.len() as int) == line@);
    }
    if !is_blank_chars(&cur) {
        let t = trim_chars(&cur);
        proof {
            lemma_push_lines(segs@, t);
        }
        segs.push(t);
    }
    segs
}

/// One chunk per sentence of each non-blank line.
fn split_sentence_chunks(lines: &Vec<Vec<char>>) -> (r: Vec<Chunk>)
    ensures
        chunk_views(r@) == sentence_chunks(views(lines@)),
{
    let mut out: Vec<Chunk> = Vec::new();
    let mut i: usize = 0;
    while i < lines.len()
        invariant
            i <= lines.len(),
            chunk_views(out@) == sentence_chunks(views(lines@).take(i as int)),
        decreases lines.len() - i,
    {
        let line = &lines[i];
        proof {
            let t = views(lines@).take(i as int + 1);
            assert(t.drop_last() == views(lines@).take(i as int));
            assert(t.last() == line@);
        }
        if !is_blank_chars(line) {
            let segs = line_sentences(line);
            let ghost base = chunk_views(out@);
            let mut j: usize = 0;
            while j < segs.len()
                invariant
                    j <= segs.len(),
                    i < lines.len(),
                    chunk_views(out@) == base + numbered((i + 1) as nat, views(segs@).take(j as int)),
                decreases segs.len() - j,
            {
                let c = chunk_of(i + 1, &segs[j]);
                proof {
                    lemma_push_views(out@, c);
                    let n = (i + 1) as nat;
                    assert(numbered(n, views(segs@).take(j as int + 1)) =~= numbered(
                        n,
                        views(segs@).take(j as int),
                    ).push((n, segs@[j as int]@)));
                }
                out.push(c);
                j = j + 1;
            }
            proof {
                assert(views(segs@).take(segs.len() as int) == views(segs@));
            }
        }
        i = i + 1;
    }
    proof {
        assert(views(lines@).take(lines.len() as int) == views(lines@));
    }
    out
}


/// The length of `s` in UTF-8 bytes (`str::len`).
pub open spec fn utf8_len(s: Seq<char>) -> nat {
    encode_utf8(s).len()
}

/// A line's estimated number of tokens: a third of its byte length, and at
/// least one.
pub open spec fn estimate_tokens(line: Seq<char>) -> nat {
    let t = utf8_len(line) / 3;
    if t >= 1 {
        t
    } else {
        1
    }
}

/// Packing non-blank lines into windows: the finished chunks, the lines of
/// the window in progress, its estimated tokens and its first line number.
/// A line opens a new window when the current one is not empty and would
/// exceed `max_tokens` with it.
pub open spec fn token_fold(lines: Seq<Seq<char>>, max_tokens: nat) -> (
    Seq<(nat, Seq<char>)>,
    Seq<Seq<char>>,
    nat,
    nat,
)
    decreases lines.len(),
{
    if lines.len() == 0 {
        (Seq::empty(), Seq::empty(), 0, 1)
    } else {
        let (done, cur, tokens, start) = token_fold(lines.drop_last(), max_tokens);
        let l = lines.last();
        if is_blank(l) {
            (done, cur, tokens, start)
        } else {
            let lt = estimate_tokens(l);
            let full = cur.len() > 0 && tokens + lt > max_tokens;
            let done2 = if full {
                done.push((start, join_lines(cur)))
            } else {
                done
            };
            let cur2 = if full {
                Seq::empty()
            } else {
                cur
            };
            let tokens2 = if full {
                0
            } else {
                tokens
            };
            let start2 = if cur2.len() == 0 {
                lines.len() as nat
            } else {
                start
            };
            (done2, cur2.push(l), tokens2 + lt, start2)
        }
    }
}

/// Windows of consecutive non-blank lines of at most `max_tokens`
/// estimated tokens (a single longer line makes a window of its own), each
/// numbered with its first line and joined with `'\n'`.
pub open spec fn token_chunks(lines: Seq<Seq<char>>, max_tokens: nat) -> Seq<(nat, Seq<char>)> {
    let (done, cur, tokens, start) = token_fold(lines, max_tokens);
    close_run(done, cur, start)
}

proof fn lemma_encode_push(a: Seq<char>, c: char)
    ensures
        encode_utf8(a.push(c)) == encode_utf8(a) + encode_scalar(c as u32),
    decreases a.len(),
{
    if a.len() == 0 {
        assert(a.push(c).drop_first() == Seq::<char>::empty());
        assert(encode_utf8(a.push(c)) == encode_scalar(c as u32) + encode_utf8(Seq::<char>::empty()));
        assert(encode_utf8(a) == Seq::<u8>::empty());
        assert(encode_scalar(c as u32) + Seq::<u8>::empty() == encode_scalar(c as u32));
        assert(Seq::<u8>::empty() + encode_scalar(c as u32) == encode_scalar(c as u32));
    } else {
        lemma_encode_push(a.drop_first(), c);
        assert(a.push(c).drop_first() == a.drop_first().push(c));
        assert(a.push(c)[0] == a[0]);
        let e0 = encode_scalar(a[0] as u32);
        assert(encode_utf8(a.push(c)) == e0 + encode_utf8(a.drop_first().push(c)));
        assert(encode_utf8(a) == e0 + encode_utf8(a.drop_first()));
        assert(e0 + (encode_utf8(a.drop_first()) + encode_scalar(c as u32)) == (e0 + encode_utf8(
            a.drop_first(),
        )) + encode_scalar(c as u32));
    }
}

/// The number of UTF-8 bytes of `c`.
fn utf8_width(c: char) -> (w: u128)
    ensures
        w == encode_scalar(c as u32).len(),
{
    broadcast use vstd::utf8::char_is_scalar;
    let u = c as u32;
    if u < 0x80 {
        1
    } else if u < 0x800 {
        2
    } else if u < 0x10000 {
        3
    } else {
        4
    }
}

/// The estimated tokens of a line.
fn line_tokens(line: &Vec<char>) -> (t: u128)
    ensures
        t == estimate_tokens(line@),
        t <= 4 * line@.len() + 1,
{
    let mut bytes: u128 = 0;
    let mut i: usize = 0;
    while i < line.len()
        invariant
            i <= line.len(),
            bytes == utf8_len(line@.take(i as int)),
            bytes <= 4 * i,
        decreases line.len() - i,
    {
        proof {
            assert(line@.take(i as int + 1) == line@.take(i as int).push(line@[i as int]));
            lemma_encode_push(line@.take(i as int), line@[i as int]);
        }
        bytes = bytes + utf8_width(line[i]);
        i = i + 1;
    }
    proof {
        assert(line@.take(line.len() as int) == line@);
    }
    let t = bytes / 3;
    if t >= 1 {
        t
    } else {
        1
    }
}

/// Windows of consecutive non-blank lines of at most `max_tokens`
/// estimated tokens each.
fn split_token_chunks(lines: &Vec<Vec<char>>, max_tokens: usize) -> (r: Vec<Chunk>)
    ensures
        chunk_views(r@) == token_chunks(views(lines@), max_tokens as nat),
{
    let mut out: Vec<Chunk> = Vec::new();
    let mut cur: Vec<Vec<char>> = Vec::new();
    let mut tokens: u128 = 0;
    let mut start: usize = 1;
    let mut i: usize = 0;
    while i < lines.len()
        invariant
            i <= lines.len(),
            1 <= start <= i + 1,
            tokens <= max_tokens + 4 * (usize::MAX as u128) + 1,
            cur@.len() == 0 ==> tokens == 0,
            token_fold(views(lines@).take(i as int), max_tokens as nat) == (
                chunk_views(out@),
                views(cur@),
                tokens as nat,
                start as nat,
            ),
        decreases lines.len() - i,
    {
        let line = &lines[i];
        proof {
            let t = views(lines@).take(i as int + 1);
            assert(t.drop_last() == views(lines@).take(i as int));
            assert(t.last() == line@);
        }
        if !is_blank_chars(line) {
            let lt = line_tokens(line);
            assert(line@.len() == line.len());
            if cur.len() > 0 && tokens + lt > max_tokens as u128 {
                let text = join_lines_chars(&cur);
                let c = chunk_of(start, &text);
                proof {
                    lemma_push_views(out@, c);
                }
                out.push(c);
                cur = Vec::new();
                tokens = 0;
                assert(views(cur@) =~= Seq::<Seq<char>>::empty());
            }
            if cur.len() == 0 {
                start = i + 1;
            }
            let copy = line.clone();
            proof {
                lemma_push_lines(cur@, copy);
            }
            cur.push(copy);
            tokens = tokens + lt;
        }
        i = i + 1;
    }
    proof {
        assert(views(lines@).take(lines.len() as int) == views(lines@));
    }
    if cur.len() > 0 {
        let text = join_lines_chars(&cur);
        let c = chunk_of(start, &text);
        proof {
            lemma_push_views(out@, c);
        }
        out.push(c);
    }
    out
}


/// The token budget of a window at token granularity.
pub const WINDOW_TOKENS: usize = 512;

/// The chunks of a text at a granularity.
pub open spec fn chunks_of(content: Seq<char>, granularity: Granularity) -> Seq<(nat, Seq<char>)> {
    let lines = lines_of(content);
    match granularity {
        Granularity::Line => line_chunks(lines),
        Granularity::Paragraph => paragraph_chunks(lines),
        Granularity::Sentence => sentence_chunks(lines),
        Granularity::Token => token_chunks(lines, WINDOW_TOKENS as nat),
    }
}

/// Cuts `content` into chunks at `granularity`: non-blank lines, runs of
/// non-blank lines, sentences, or windows of 512 estimated tokens.
pub fn split_into_chunks(content: &str, granularity: Granularity) -> (r: Vec<Chunk>)
    ensures
        chunk_views(r@) == chunks_of(content@, granularity),
{
    let text = chars_of(content);
    let lines = split_lines(&text);
    match granularity {
        Granularity::Line => split_line_chunks(&lines),
        Granularity::Paragraph => split_paragraph_chunks(&lines),
        Granularity::Sentence => split_sentence_chunks(&lines),
        Granularity::Token => split_token_chunks(&lines, WINDOW_TOKENS),
    }
}

/// Cuts `content` into windows of consecutive non-blank lines of at most
/// `chunk_tokens` estimated tokens each.
pub fn split_token_windows(content: &str, chunk_tokens: usize) -> (r: Vec<Chunk>)
    ensures
        chunk_views(r@) == token_chunks(lines_of(content@), chunk_tokens as nat),
{
    let text = chars_of(content);
    let lines = split_lines(&text);
    split_token_chunks(&lines, chunk_tokens)
}


/// Decodes bytes as UTF-8 (`std::str::from_utf8`, then an owned copy):
/// `Some` exactly when the bytes are valid UTF-8, holding the characters
/// they encode.
#[verifier::external_body]
fn utf8_text(bytes: &[u8]) -> (r: Option<String>)
    ensures
        r is Some <==> valid_utf8(bytes@),
        r matches Some(s) ==> s@ == decode_utf8(bytes@),
{
    match std::str::from_utf8(bytes) {
        Ok(s) => Some(s.to_owned()),
        Err(_) => None,
    }
}

/// Each byte read as the character of the same number (Latin-1).
pub open spec fn latin1(bytes: Seq<u8>) -> Seq<char> {
    bytes.map_values(|b: u8| (b as u32) as char)
}

/// The text of a file's bytes: none for a binary file (one holding a zero
/// byte); the decoded text of valid UTF-8; otherwise each byte as the
/// character of the same number.
pub open spec fn file_text(bytes: Seq<u8>) -> Option<Seq<char>> {
    if bytes.contains(0u8) {
        None
    } else if valid_utf8(bytes) {
        Some(decode_utf8(bytes))
    } else {
        Some(latin1(bytes))
    }
}

/// The text of a file's bytes, or `None` for a binary file.
pub fn decode_file_text(bytes: &Vec<u8>) -> (r: Option<String>)
    ensures
        r matches Some(s) ==> file_text(bytes@) == Some(s@),
        r is None ==> file_text(bytes@) is None,
{
    let mut i: usize = 0;
    while i < bytes.len()
        invariant
            i <= bytes.len(),
            forall|j: int| 0 <= j < i ==> bytes@[j] != 0u8,
        decreases bytes.len() - i,
    {
        if bytes[i] == 0 {
            assert(bytes@[i as int] == 0u8);
            return None;
        }
        i = i + 1;
    }
    match utf8_text(bytes.as_slice()) {
        Some(s) => Some(s),
        None => {
            let mut s = String::new();
            let mut k: usize = 0;
            while k < bytes.len()
                invariant
                    k <= bytes.len(),
                    s@ == latin1(bytes@.take(k as int)),
                decreases bytes.len() - k,
            {
                let c = bytes[k] as char;
                crate::text::push_char(&mut s, c);
                k = k + 1;
                assert(s@ =~= latin1(bytes@.take(k as int)));
            }
            assert(bytes@.take(bytes.len() as int) == bytes@);
            Some(s)
        },
    }
}


/// Every chunk's text has a non-whitespace character.
pub open spec fn texts_nonblank(cs: Seq<(nat, Seq<char>)>) -> bool {
    forall|i: int| 0 <= i < cs.len() ==> !is_blank(#[trigger] cs[i].1)
}

/// Every chunk is numbered with a line of the text: from 1 to `n`.
pub open spec fn numbered_within(cs: Seq<(nat, Seq<char>)>, n: nat) -> bool {
    forall|i: int| 0 <= i < cs.len() ==> 1 <= #[trigger] cs[i].0 <= n
}

/// Line numbers strictly increase from chunk to chunk.
pub open spec fn strictly_ascending(cs: Seq<(nat, Seq<char>)>) -> bool {
    forall|i: int, j: int| 0 <= i < j < cs.len() ==> #[trigger] cs[i].0 < #[trigger] cs[j].0
}

/// Line numbers never decrease from chunk to chunk.
pub open spec fn ascending(cs: Seq<(nat, Seq<char>)>) -> bool {
    forall|i: int, j: int| 0 <= i < j < cs.len() ==> #[trigger] cs[i].0 <= #[trigger] cs[j].0
}

proof fn lemma_blank_suffix(a: Seq<char>, b: Seq<char>)
    requires
        is_blank(a + b),
    ensures
        is_blank(b),
{
    assert forall|i: int| 0 <= i < b.len() implies is_ws(#[trigger] b[i]) by {
        assert((a + b)[a.len() + i] == b[i]);
    }
}

proof fn lemma_join_nonblank(xs: Seq<Seq<char>>)
    requires
        xs.len() > 0,
        !is_blank(xs.last()),
    ensures
        !is_blank(join_lines(xs)),
{
    if xs.len() > 1 {
        if is_blank(join_lines(xs)) {
            lemma_blank_suffix(join_lines(xs.drop_last()) + seq!['\n'], xs.last());
        }
    }
}

proof fn lemma_trim_start_first(s: Seq<char>)
    ensures
        trim_start(s).len() > 0 ==> !is_ws(trim_start(s)[0]),
        trim_start(s).len() <= s.len(),
    decreases s.len(),
{
    if s.len() > 0 && is_ws(s[0]) {
        lemma_trim_start_first(s.drop_first());
    }
}

proof fn lemma_trim_nonblank(s: Seq<char>)
    requires
        !is_blank(s),
    ensures
        !is_blank(trim(s)),
{
    crate::text::lemma_trim_blank(s);
    lemma_trim_start_first(trim_end(s));
    assert(!is_ws(trim(s)[0]));
}

proof fn lemma_line_chunks_laws(lines: Seq<Seq<char>>)
    ensures
        texts_nonblank(line_chunks(lines)),
        numbered_within(line_chunks(lines), lines.len()),
        strictly_ascending(line_chunks(lines)),
    decreases lines.len(),
{
    if lines.len() > 0 {
        lemma_line_chunks_laws(lines.drop_last());
        if !is_blank(lines.last()) {
            crate::text::lemma_trim_blank(lines.last());
        }
    }
}

/// What holds of the paragraph fold's state after some lines.
pub open spec fn run_state_ok(
    done: Seq<(nat, Seq<char>)>,
    cur: Seq<Seq<char>>,
    start: nat,
    n: nat,
) -> bool {
    &&& texts_nonblank(done)
    &&& numbered_within(done, n)
    &&& strictly_ascending(done)
    &&& forall|i: int| 0 <= i < cur.len() ==> !is_blank(#[trigger] cur[i])
    &&& cur.len() > 0 ==> 1 <= start <= n && forall|i: int|
        0 <= i < done.len() ==> #[trigger] done[i].0 < start
}

proof fn lemma_close_run(done: Seq<(nat, Seq<char>)>, cur: Seq<Seq<char>>, start: nat, n: nat)
    requires
        run_state_ok(done, cur, start, n),
    ensures
        texts_nonblank(close_run(done, cur, start)),
        numbered_within(close_run(done, cur, start), n),
        strictly_ascending(close_run(done, cur, start)),
{
    if cur.len() > 0 {
        lemma_join_nonblank(cur);
    }
}

proof fn lemma_paragraph_fold_laws(lines: Seq<Seq<char>>)
    ensures
        ({
            let (done, cur, start) = paragraph_fold(lines);
            run_state_ok(done, cur, start, lines.len())
        }),
    decreases lines.len(),
{
    if lines.len() > 0 {
        lemma_paragraph_fold_laws(lines.drop_last());
        let (done, cur, start) = paragraph_fold(lines.drop_last());
        if is_blank(lines.last()) {
            if cur.len() > 0 {
                lemma_close_run(done, cur, start, (lines.len() - 1) as nat);
            }
        }
    }
}

proof fn lemma_token_fold_laws(lines: Seq<Seq<char>>, max_tokens: nat)
    ensures
        ({
            let (done, cur, tokens, start) = token_fold(lines, max_tokens);
            run_state_ok(done, cur, start, lines.len())
        }),
    decreases lines.len(),
{
    if lines.len() > 0 {
        lemma_token_fold_laws(lines.drop_last(), max_tokens);
        let (done, cur, tokens, start) = token_fold(lines.drop_last(), max_tokens);
        if !is_blank(lines.last()) && cur.len() > 0 && tokens + estimate_tokens(lines.last()) > max_tokens {
            lemma_close_run(done, cur, start, (lines.len() - 1) as nat);
        }
    }
}

proof fn lemma_sentence_fold_nonblank(line: Seq<char>)
    ensures
        forall|i: int| 0 <= i < sentence_fold(line).0.len() ==> !is_blank(
            #[trigger] sentence_fold(line).0[i],
        ),
    decreases line.len(),
{
    if line.len() > 0 {
        lemma_sentence_fold_nonblank(line.drop_last());
        let (segs, cur) = sentence_fold(line.drop_last());
        let cur2 = cur.push(line.last());
        if is_terminator(line.last()) && !is_blank(cur2) {
            lemma_trim_nonblank(cur2);
        }
    }
}

proof fn lemma_sentence_chunks_laws(lines: Seq<Seq<char>>)
    ensures
        texts_nonblank(sentence_chunks(lines)),
        numbered_within(sentence_chunks(lines), lines.len()),
        ascending(sentence_chunks(lines)),
    decreases lines.len(),
{
    if lines.len() > 0 {
        lemma_sentence_chunks_laws(lines.drop_last());
        let l = lines.last();
        if !is_blank(l) {
            let prev = sentence_chunks(lines.drop_last());
            let segs = sentence_segments(l);
            lemma_sentence_fold_nonblank(l);
            let (fs, cur) = sentence_fold(l);
            if !is_blank(cur) {
                lemma_trim_nonblank(cur);
            }
            assert forall|i: int| 0 <= i < segs.len() implies !is_blank(#[trigger] segs[i]) by {
                if i < fs.len() {
                    assert(segs[i] == fs[i]);
                }
            }
            let n = numbered(lines.len() as nat, segs);
            let all = prev + n;
            assert forall|i: int| 0 <= i < all.len() implies !is_blank(#[trigger] all[i].1) by {
                if i >= prev.len() {
                    assert(all[i] == n[i - prev.len()]);
                }
            }
            assert forall|i: int| 0 <= i < all.len() implies 1 <= #[trigger] all[i].0 <= lines.len() by {
                if i >= prev.len() {
                    assert(all[i] == n[i - prev.len()]);
                }
            }
            assert forall|i: int, j: int| 0 <= i < j < all.len() implies #[trigger] all[i].0
                <= #[trigger] all[j].0 by {
                if j >= prev.len() {
                    assert(all[j] == n[j - prev.len()]);
                    if i >= prev.len() {
                        assert(all[i] == n[i - prev.len()]);
                    }
                }
            }
        }
    }
}

/// Every chunk, at every granularity, holds a non-whitespace character and
/// is numbered with a line of the text (from 1 to the number of lines);
/// the numbers strictly increase from chunk to chunk, except that the
/// sentences of one line share its number.
pub proof fn lemma_chunks_well_formed(content: Seq<char>, granularity: Granularity)
    ensures
        texts_nonblank(chunks_of(content, granularity)),
        numbered_within(chunks_of(content, granularity), lines_of(content).len()),
        ascending(chunks_of(content, granularity)),
        granularity != Granularity::Sentence ==> strictly_ascending(chunks_of(content, granularity)),
{
    let lines = lines_of(content);
    match granularity {
        Granularity::Line => {
            lemma_line_chunks_laws(lines);
        },
        Granularity::Paragraph => {
            lemma_paragraph_fold_laws(lines);
            let (done, cur, start) = paragraph_fold(lines);
            lemma_close_run(done, cur, start, lines.len());
        },
        Granularity::Sentence => {
            lemma_sentence_chunks_laws(lines);
        },
        Granularity::Token => {
            lemma_token_fold_laws(lines, WINDOW_TOKENS as nat);
            let (done, cur, tokens, start) = token_fold(lines, WINDOW_TOKENS as nat);
            lemma_close_run(done, cur, start, lines.len());
        },
    }
}

/// The estimated tokens of a window's lines.
pub open spec fn sum_tokens(lines: Seq<Seq<char>>) -> nat
    decreases lines.len(),
{
    if lines.len() == 0 {
        0
    } else {
        sum_tokens(lines.drop_last()) + estimate_tokens(lines.last())
    }
}

/// The non-blank lines of a text, in order.
pub open spec fn nonblank_lines(lines: Seq<Seq<char>>) -> Seq<Seq<char>>
    decreases lines.len(),
{
    if lines.len() == 0 {
        Seq::empty()
    } else if is_blank(lines.last()) {
        nonblank_lines(lines.drop_last())
    } else {
        nonblank_lines(lines.drop_last()).push(lines.last())
    }
}

/// The lines of the windows, one window after another.
pub open spec fn window_lines(ws: Seq<(nat, Seq<Seq<char>>)>) -> Seq<Seq<char>>
    decreases ws.len(),
{
    if ws.len() == 0 {
        Seq::empty()
    } else {
        window_lines(ws.drop_last()) + ws.last().1
    }
}

/// The packing of [`token_fold`], keeping each finished window as its
/// first line number and its lines.
pub open spec fn window_fold(lines: Seq<Seq<char>>, max_tokens: nat) -> (
    Seq<(nat, Seq<Seq<char>>)>,
    Seq<Seq<char>>,
    nat,
    nat,
)
    decreases lines.len(),
{
    if lines.len() == 0 {
        (Seq::empty(), Seq::empty(), 0, 1)
    } else {
        let (done, cur, tokens, start) = window_fold(lines.drop_last(), max_tokens);
        let l = lines.last();
        if is_blank(l) {
            (done, cur, tokens, start)
        } else {
            let lt = estimate_tokens(l);
            let full = cur.len() > 0 && tokens + lt > max_tokens;
            let done2 = if full {
                done.push((start, cur))
            } else {
                done
            };
            let cur2 = if full {
                Seq::empty()
            } else {
                cur
            };
            let tokens2 = if full {
                0
            } else {
                tokens
            };
            let start2 = if cur2.len() == 0 {
                lines.len() as nat
            } else {
                start
            };
            (done2, cur2.push(l), tokens2 + lt, start2)
        }
    }
}

/// The token windows of a text: each with its first line number and its
/// lines.
pub open spec fn token_windows(lines: Seq<Seq<char>>, max_tokens: nat) -> Seq<(nat, Seq<Seq<char>>)> {
    let (done, cur, tokens, start) = window_fold(lines, max_tokens);
    if cur.len() > 0 {
        done.push((start, cur))
    } else {
        done
    }
}

/// A window's text: its lines joined with `'\n'`.
pub open spec fn window_text(w: (nat, Seq<Seq<char>>)) -> (nat, Seq<char>) {
    (w.0, join_lines(w.1))
}

/// A window is numbered with the line of the text it starts with.
pub open spec fn starts_at_its_line(w: (nat, Seq<Seq<char>>), lines: Seq<Seq<char>>) -> bool {
    1 <= w.0 <= lines.len() && w.1.len() >= 1 && w.1[0] == lines[w.0 - 1]
}

/// A window holds at least one line, and its estimated tokens stay within
/// the budget unless it is a single line.
pub open spec fn within_budget(w: (nat, Seq<Seq<char>>), max_tokens: nat) -> bool {
    w.1.len() >= 1 && (w.1.len() == 1 || sum_tokens(w.1) <= max_tokens)
}

proof fn lemma_window_fold(lines: Seq<Seq<char>>, max_tokens: nat)
    ensures
        ({
            let (done, cur, tokens, start) = window_fold(lines, max_tokens);
            &&& token_fold(lines, max_tokens) == (
                done.map_values(|w: (nat, Seq<Seq<char>>)| window_text(w)),
                cur,
                tokens,
                start,
            )
            &&& tokens == sum_tokens(cur)
            &&& (cur.len() == 0 || within_budget((start, cur), max_tokens))
            &&& forall|i: int| 0 <= i < done.len() ==> within_budget(#[trigger] done[i], max_tokens)
            &&& window_lines(done) + cur == nonblank_lines(lines)
            &&& (cur.len() == 0 || starts_at_its_line((start, cur), lines))
            &&& forall|i: int| 0 <= i < done.len() ==> starts_at_its_line(#[trigger] done[i], lines)
        }),
    decreases lines.len(),
{
    if lines.len() > 0 {
        lemma_window_fold(lines.drop_last(), max_tokens);
        let (done, cur, tokens, start) = window_fold(lines.drop_last(), max_tokens);
        let l = lines.last();
        assert forall|k: int| 0 <= k < lines.len() - 1 implies lines.drop_last()[k] == lines[k] by {}
        assert forall|i: int| 0 <= i < done.len() implies starts_at_its_line(#[trigger] done[i], lines) by {
            assert(starts_at_its_line(done[i], lines.drop_last()));
        }
        if cur.len() > 0 {
            assert(starts_at_its_line((start, cur), lines.drop_last()));
            assert(starts_at_its_line((start, cur), lines));
        }
        if !is_blank(l) {
            let lt = estimate_tokens(l);
            let full = cur.len() > 0 && tokens + lt > max_tokens;
            let f = |w: (nat, Seq<Seq<char>>)| window_text(w);
            if full {
                let d2 = done.push((start, cur));
                assert(d2.map_values(f) =~= done.map_values(f).push((start, join_lines(cur))));
                assert(d2.drop_last() == done);
                assert(window_lines(d2) == window_lines(done) + cur);
                assert(Seq::<Seq<char>>::empty().push(l) =~= seq![l]);
                assert(seq![l].drop_last() =~= Seq::<Seq<char>>::empty());
                assert(sum_tokens(Seq::<Seq<char>>::empty()) == 0);
                assert(Seq::<Seq<char>>::empty().push(l).drop_last() =~= Seq::<Seq<char>>::empty());
                assert(Seq::<Seq<char>>::empty().push(l).last() == l);
                assert(sum_tokens(Seq::<Seq<char>>::empty().push(l)) == lt);
                assert(window_lines(d2) + seq![l] =~= (window_lines(done) + cur).push(l));
                assert forall|i: int| 0 <= i < d2.len() implies within_budget(#[trigger] d2[i], max_tokens) by {
                    if i < done.len() {
                        assert(d2[i] == done[i]);
                    }
                }
            } else {
                assert(cur.push(l).drop_last() == cur);
                assert(sum_tokens(cur.push(l)) == sum_tokens(cur) + lt);
                assert(window_lines(done) + cur.push(l) =~= (window_lines(done) + cur).push(l));
            }
        }
    }
}

/// The token windows of a text: every non-blank line lands in exactly one
/// window, in order; the chunks are the windows' lines joined with `'\n'`
/// and numbered with the line of the text they start with; and a window's
/// estimated tokens stay within the budget unless it is a single line.
pub proof fn lemma_token_windows(content: Seq<char>, max_tokens: nat)
    ensures
        ({
            let lines = lines_of(content);
            let ws = token_windows(lines, max_tokens);
            &&& token_chunks(lines, max_tokens) == ws.map_values(
                |w: (nat, Seq<Seq<char>>)| window_text(w),
            )
            &&& window_lines(ws) == nonblank_lines(lines)
            &&& forall|i: int| 0 <= i < ws.len() ==> within_budget(#[trigger] ws[i], max_tokens)
            &&& forall|i: int| 0 <= i < ws.len() ==> starts_at_its_line(#[trigger] ws[i], lines)
        }),
{
    let lines = lines_of(content);
    lemma_window_fold(lines, max_tokens);
    let (done, cur, tokens, start) = window_fold(lines, max_tokens);
    let ws = token_windows(lines, max_tokens);
    let f = |w: (nat, Seq<Seq<char>>)| window_text(w);
    if cur.len() > 0 {
        assert(ws.map_values(f) =~= done.map_values(f).push((start, join_lines(cur))));
        assert(ws.drop_last() == done);
        assert forall|i: int| 0 <= i < ws.len() implies within_budget(#[trigger] ws[i], max_tokens) by {
            if i < done.len() {
                assert(ws[i] == done[i]);
            }
        }
        assert forall|i: int| 0 <= i < ws.len() implies starts_at_its_line(#[trigger] ws[i], lines) by {
            if i < done.len() {
                assert(ws[i] == done[i]);
            }
        }
    } else {
        assert(window_lines(done) + cur =~= window_lines(done));
    }
}

/// The grouping of [`paragraph_fold`], keeping each finished run as the
/// number of its first line and its lines.
pub open spec fn run_fold(lines: Seq<Seq<char>>) -> (Seq<(nat, Seq<Seq<char>>)>, Seq<Seq<char>>, nat)
    decreases lines.len(),
{
    if lines.len() == 0 {
        (Seq::empty(), Seq::empty(), 1)
    } else {
        let (done, cur, start) = run_fold(lines.drop_last());
        let l = lines.last();
        if is_blank(l) {
            if cur.len() > 0 {
                (done.push((start, cur)), Seq::empty(), start)
            } else {
                (done, cur, start)
            }
        } else {
            let start2 = if cur.len() == 0 {
                lines.len() as nat
            } else {
                start
            };
            (done, cur.push(l), start2)
        }
    }
}

/// The paragraphs of a text: each with the number of its first line and
/// its lines.
pub open spec fn paragraph_runs(lines: Seq<Seq<char>>) -> Seq<(nat, Seq<Seq<char>>)> {
    let (done, cur, start) = run_fold(lines);
    if cur.len() > 0 {
        done.push((start, cur))
    } else {
        done
    }
}

/// A paragraph of the text: the consecutive lines from its numbered line
/// on, none of them blank, with a blank line or the edge of the text on
/// either side.
pub open spec fn is_maximal_run(w: (nat, Seq<Seq<char>>), lines: Seq<Seq<char>>) -> bool {
    let b = w.0 - 1;
    let e = b + w.1.len();
    &&& 1 <= w.0
    &&& w.1.len() >= 1
    &&& e <= lines.len()
    &&& w.1 == lines.subrange(b, e)
    &&& forall|i: int| 0 <= i < w.1.len() ==> !is_blank(#[trigger] w.1[i])
    &&& (b == 0 || is_blank(lines[b - 1]))
    &&& (e == lines.len() || is_blank(lines[e]))
}

/// A finished run of the fold: maximal, and closed by a blank line.
pub open spec fn closed_run(w: (nat, Seq<Seq<char>>), lines: Seq<Seq<char>>) -> bool {
    is_maximal_run(w, lines) && w.0 - 1 + w.1.len() < lines.len()
}

/// The run in progress: consecutive non-blank lines up to the end of the
/// text so far, after a blank line or the start of the text.
pub open spec fn open_run(start: nat, cur: Seq<Seq<char>>, lines: Seq<Seq<char>>) -> bool {
    let b = start - 1;
    &&& 1 <= start
    &&& b + cur.len() == lines.len()
    &&& cur == lines.subrange(b, lines.len() as int)
    &&& forall|i: int| 0 <= i < cur.len() ==> !is_blank(#[trigger] cur[i])
    &&& (b == 0 || is_blank(lines[b - 1]))
}

proof fn lemma_run_fold(lines: Seq<Seq<char>>)
    ensures
        ({
            let (done, cur, start) = run_fold(lines);
            &&& paragraph_fold(lines) == (
                done.map_values(|w: (nat, Seq<Seq<char>>)| window_text(w)),
                cur,
                start,
            )
            &&& forall|i: int| 0 <= i < done.len() ==> closed_run(#[trigger] done[i], lines)
            &&& cur.len() > 0 ==> open_run(start, cur, lines)
            &&& cur.len() == 0 ==> (lines.len() == 0 || is_blank(lines.last()))
            &&& window_lines(done) + cur == nonblank_lines(lines)
        }),
    decreases lines.len(),
{
    if lines.len() > 0 {
        let prev = lines.drop_last();
        lemma_run_fold(prev);
        let (done, cur, start) = run_fold(prev);
        let l = lines.last();
        let n = prev.len();
        let f = |w: (nat, Seq<Seq<char>>)| window_text(w);
        assert forall|k: int| 0 <= k < n implies prev[k] == lines[k] by {}
        // Runs closed earlier stay closed in the longer text.
        assert forall|i: int| 0 <= i < done.len() implies closed_run(#[trigger] done[i], lines) by {
            let w = done[i];
            assert(closed_run(w, prev));
            let b = w.0 - 1;
            let e = b + w.1.len();
            assert(lines.subrange(b, e) =~= prev.subrange(b, e));
        }
        if is_blank(l) {
            if cur.len() > 0 {
                let d2 = done.push((start, cur));
                assert(d2.map_values(f) =~= done.map_values(f).push((start, join_lines(cur))));
                assert(d2.drop_last() == done);
                assert(window_lines(d2) == window_lines(done) + cur);
                assert(window_lines(d2) + Seq::<Seq<char>>::empty() =~= window_lines(d2));
                assert(open_run(start, cur, prev));
                assert(lines.subrange(start - 1, n as int) =~= prev.subrange(start - 1, n as int));
                assert(closed_run((start, cur), lines));
                assert forall|i: int| 0 <= i < d2.len() implies closed_run(#[trigger] d2[i], lines) by {
                    if i < done.len() {
                        assert(d2[i] == done[i]);
                    }
                }
            }
        } else {
            assert(cur.push(l).drop_last() == cur);
            assert(window_lines(done) + cur.push(l) =~= (window_lines(done) + cur).push(l));
            if cur.len() == 0 {
                let one = Seq::<Seq<char>>::empty().push(l);
                assert(one =~= lines.subrange(n as int, lines.len() as int));
                assert(open_run(lines.len() as nat, one, lines));
                assert(cur.push(l) =~= one);
            } else {
                assert(open_run(start, cur, prev));
                assert(cur.push(l) =~= lines.subrange(start - 1, lines.len() as int));
                assert(open_run(start, cur.push(l), lines));
            }
        }
    }
}

/// The paragraphs of a text are exactly its maximal runs of consecutive
/// non-blank lines: every non-blank line lands in exactly one paragraph, in
/// order; each paragraph is numbered with its first line, holds the lines
/// from there on and has a blank line or the edge of the text on either
/// side; and its chunk is those lines joined with `'\n'`.
pub proof fn lemma_paragraph_runs(content: Seq<char>)
    ensures
        ({
            let lines = lines_of(content);
            let rs = paragraph_runs(lines);
            &&& paragraph_chunks(lines) == rs.map_values(|w: (nat, Seq<Seq<char>>)| window_text(w))
            &&& window_lines(rs) == nonblank_lines(lines)
            &&& forall|i: int| 0 <= i < rs.len() ==> is_maximal_run(#[trigger] rs[i], lines)
        }),
{
    let lines = lines_of(content);
    lemma_run_fold(lines);
    let (done, cur, start) = run_fold(lines);
    let rs = paragraph_runs(lines);
    let f = |w: (nat, Seq<Seq<char>>)| window_text(w);
    if cur.len() > 0 {
        assert(rs.map_values(f) =~= done.map_values(f).push((start, join_lines(cur))));
        assert(rs.drop_last() == done);
        assert(open_run(start, cur, lines));
        assert forall|i: int| 0 <= i < rs.len() implies is_maximal_run(#[trigger] rs[i], lines) by {
            if i < done.len() {
                assert(rs[i] == done[i]);
                assert(closed_run(done[i], lines));
            }
        }
    } else {
        assert(window_lines(done) + cur =~= window_lines(done));
        assert forall|i: int| 0 <= i < rs.len() implies is_maximal_run(#[trigger] rs[i], lines) by {
            assert(closed_run(done[i], lines));
        }
    }
}

proof fn lemma_trim_start_skip(s: Seq<char>) -> (b: int)
    ensures
        0 <= b <= s.len(),
        trim_start(s) == s.skip(b),
    decreases s.len(),
{
    if s.len() > 0 && is_ws(s[0]) {
        let b0 = lemma_trim_start_skip(s.drop_first());
        assert(s.drop_first().skip(b0) =~= s.skip(b0 + 1));
        b0 + 1
    } else {
        assert(s.skip(0) =~= s);
        0
    }
}

proof fn lemma_trim_end_take(s: Seq<char>) -> (e: int)
    ensures
        0 <= e <= s.len(),
        trim_end(s) == s.take(e),
    decreases s.len(),
{
    if s.len() > 0 && is_ws(s.last()) {
        let e0 = lemma_trim_end_take(s.drop_last());
        assert(s.drop_last().take(e0) =~= s.take(e0));
        e0
    } else {
        assert(s.take(s.len() as int) =~= s);
        s.len() as int
    }
}

/// A character that ends a sentence is never whitespace.
proof fn lemma_terminator_not_ws(c: char)
    requires
        is_terminator(c),
    ensures
        !is_ws(c),
{
}

proof fn lemma_sentence_fold_marks(line: Seq<char>)
    ensures
        ({
            let (segs, cur) = sentence_fold(line);
            &&& forall|k: int| 0 <= k < cur.len() ==> !is_terminator(#[trigger] cur[k])
            &&& forall|i: int|
                0 <= i < segs.len() ==> (#[trigger] segs[i]).len() > 0 && is_terminator(
                    segs[i].last(),
                ) && forall|k: int| 0 <= k < segs[i].len() - 1 ==> !is_terminator(#[trigger] segs[i][k])
        }),
    decreases line.len(),
{
    if line.len() > 0 {
        lemma_sentence_fold_marks(line.drop_last());
        let (segs, cur) = sentence_fold(line.drop_last());
        let c = line.last();
        let cur2 = cur.push(c);
        if is_terminator(c) && !is_blank(cur2) {
            lemma_terminator_not_ws(c);
            assert(trim_end(cur2) == cur2);
            lemma_trim_nonblank(cur2);
            let b = lemma_trim_start_skip(cur2);
            let t = trim(cur2);
            assert(t == cur2.skip(b));
            assert(t.len() > 0);
            assert(t.last() == c);
            assert forall|k: int| 0 <= k < t.len() - 1 implies !is_terminator(#[trigger] t[k]) by {
                assert(t[k] == cur2[b + k]);
                assert(cur2[b + k] == cur[b + k]);
            }
            let segs2 = segs.push(t);
            assert forall|i: int| 0 <= i < segs2.len() implies (#[trigger] segs2[i]).len() > 0
                && is_terminator(segs2[i].last()) && forall|k: int|
                0 <= k < segs2[i].len() - 1 ==> !is_terminator(#[trigger] segs2[i][k]) by {
                if i < segs.len() {
                    assert(segs2[i] == segs[i]);
                }
            }
        } else if !is_terminator(c) {
            assert forall|k: int| 0 <= k < cur2.len() implies !is_terminator(#[trigger] cur2[k]) by {
                if k < cur.len() {
                    assert(cur2[k] == cur[k]);
                }
            }
        }
    }
}

proof fn lemma_sentence_segments_marks(line: Seq<char>)
    ensures
        ({
            let segs = sentence_segments(line);
            forall|i: int|
                0 <= i < segs.len() ==> (forall|k: int|
                    0 <= k < (#[trigger] segs[i]).len() - 1 ==> !is_terminator(#[trigger] segs[i][k]))
                    && (i < segs.len() - 1 ==> segs[i].len() > 0 && is_terminator(segs[i].last()))
        }),
{
    lemma_sentence_fold_marks(line);
    let (fs, cur) = sentence_fold(line);
    let segs = sentence_segments(line);
    if !is_blank(cur) {
        let e = lemma_trim_end_take(cur);
        let b = lemma_trim_start_skip(trim_end(cur));
        let t = trim(cur);
        assert(t == cur.take(e).skip(b));
        assert forall|k: int| 0 <= k < t.len() implies !is_terminator(#[trigger] t[k]) by {
            assert(t[k] == cur[b + k]);
        }
        assert forall|i: int| 0 <= i < segs.len() implies (forall|k: int|
            0 <= k < (#[trigger] segs[i]).len() - 1 ==> !is_terminator(#[trigger] segs[i][k])) && (i
            < segs.len() - 1 ==> segs[i].len() > 0 && is_terminator(segs[i].last())) by {
            if i < fs.len() {
                assert(segs[i] == fs[i]);
            } else {
                assert(segs[i] == t);
            }
        }
    }
}

proof fn lemma_sentence_chunks_marks(lines: Seq<Seq<char>>)
    ensures
        ({
            let cs = sentence_chunks(lines);
            &&& forall|i: int, k: int|
                0 <= i < cs.len() && 0 <= k < cs[i].1.len() - 1 ==> !is_terminator(
                    #[trigger] cs[i].1[k],
                )
            &&& forall|i: int|
                #![trigger cs[i]]
                0 <= i < cs.len() - 1 && cs[i].0 == cs[i + 1].0 ==> cs[i].1.len() > 0
                    && is_terminator(cs[i].1.last())
        }),
    decreases lines.len(),
{
    if lines.len() > 0 {
        lemma_sentence_chunks_marks(lines.drop_last());
        lemma_sentence_chunks_laws(lines.drop_last());
        let prev = sentence_chunks(lines.drop_last());
        let l = lines.last();
        if !is_blank(l) {
            let segs = sentence_segments(l);
            lemma_sentence_segments_marks(l);
            let n = numbered(lines.len() as nat, segs);
            let cs = prev + n;
            assert forall|i: int, k: int|
                0 <= i < cs.len() && 0 <= k < cs[i].1.len() - 1 implies !is_terminator(
                #[trigger] cs[i].1[k],
            ) by {
                if i >= prev.len() {
                    assert(cs[i] == n[i - prev.len()]);
                    assert(n[i - prev.len()].1 == segs[i - prev.len()]);
                    assert(segs[i - prev.len()][k] == cs[i].1[k]);
                } else {
                    assert(cs[i] == prev[i]);
                }
            }
            assert forall|i: int|
                #![trigger cs[i]]
                0 <= i < cs.len() - 1 && cs[i].0 == cs[i + 1].0 implies cs[i].1.len() > 0
                && is_terminator(cs[i].1.last()) by {
                if i + 1 < prev.len() {
                    assert(cs[i] == prev[i]);
                    assert(cs[i + 1] == prev[i + 1]);
                } else if i < prev.len() {
                    assert(cs[i] == prev[i]);
                    assert(cs[i + 1] == n[0]);
                    assert(1 <= prev[i].0 <= lines.len() - 1);
                } else {
                    let j = i - prev.len();
                    assert(cs[i] == n[j]);
                    assert(n[j].1 == segs[j]);
                    assert(j < segs.len() - 1);
                }
            }
        }
    }
}

/// At sentence granularity each of `.`, `!`, `?`, `。`, `！` and `？` ends a
/// sentence: no sentence chunk holds one of them except as its last
/// character, and a chunk followed by another chunk of the same line ends
/// with one of them.
pub proof fn lemma_sentences_end_at_marks(content: Seq<char>)
    ensures
        ({
            let cs = chunks_of(content, Granularity::Sentence);
            &&& forall|i: int, k: int|
                0 <= i < cs.len() && 0 <= k < cs[i].1.len() - 1 ==> {
                    let c = #[trigger] cs[i].1[k];
                    c != '.' && c != '!' && c != '?' && c != '\u{3002}' && c != '\u{FF01}' && c
                        != '\u{FF1F}'
                }
            &&& forall|i: int|
                #![trigger cs[i]]
                0 <= i < cs.len() - 1 && cs[i].0 == cs[i + 1].0 ==> cs[i].1.len() > 0 && {
                    let c = cs[i].1.last();
                    c == '.' || c == '!' || c == '?' || c == '\u{3002}' || c == '\u{FF01}' || c
                        == '\u{FF1F}'
                }
        }),
{
    lemma_sentence_chunks_marks(lines_of(content));
}

} // verus!
