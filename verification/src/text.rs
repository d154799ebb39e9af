//! Character-level text primitives: whitespace, trimming, line splitting,
//! joining and decimal numbers, each with the meaning std gives it.

use vstd::prelude::*;

verus! {

/// Appends one character to a string (`String::push`).
#[verifier::external_body]
pub(crate) fn push_char(s: &mut String, c: char)
    ensures
        final(s)@ == old(s)@.push(c),
{
    s.push(c);
}

/// The characters of a string slice, in order.
pub fn chars_of(s: &str) -> (v: Vec<char>)
    ensures
        v@ == s@,
{
    let mut v: Vec<char> = Vec::new();
    for c in it: s.chars()
        invariant
            v@ == it.seq().take(it.index() as int),
            it.seq() == s@,
    {
        v.push(c);
        assert(it.seq().take(it.index() as int + 1) == v@);
    }
    v
}


/// The characters of `v` as a string.
pub fn string_of(v: &Vec<char>) -> (s: String)
    ensures
        s@ == v@,
{
    let mut s = String::new();
    let mut i: usize = 0;
    while i < v.len()
        invariant
            i <= v.len(),
            s@ == v@.take(i as int),
        decreases v.len() - i,
    {
        push_char(&mut s, v[i]);
        i = i + 1;
        assert(s@ == v@.take(i as int));
    }
    assert(v@.take(v.len() as int) == v@);
    s
}

/// Unicode `White_Space`, the property that `char::is_whitespace` tests.
pub open spec fn is_ws(c: char) -> bool {
    let u = c as u32;
    ||| 0x09 <= u <= 0x0D
    ||| u == 0x20
    ||| u == 0x85
    ||| u == 0xA0
    ||| u == 0x1680
    ||| 0x2000 <= u <= 0x200A
    ||| u == 0x2028
    ||| u == 0x2029
    ||| u == 0x202F
    ||| u == 0x205F
    ||| u == 0x3000
}

/// Whether `c` is Unicode whitespace.
pub fn is_whitespace(c: char) -> (b: bool)
    ensures
        b == is_ws(c),
{
    let u = c as u32;
    (0x09 <= u && u <= 0x0D) || u == 0x20 || u == 0x85 || u == 0xA0 || u == 0x1680 || (0x2000
        <= u && u <= 0x200A) || u == 0x2028 || u == 0x2029 || u == 0x202F || u == 0x205F || u
        == 0x3000
}

/// Every character of `s` is whitespace (so `s.trim()` is empty).
pub open spec fn is_blank(s: Seq<char>) -> bool {
    forall|i: int| 0 <= i < s.len() ==> is_ws(#[trigger] s[i])
}

/// `s` without its trailing whitespace (`str::trim_end`).
pub open spec fn trim_end(s: Seq<char>) -> Seq<char>
    decreases s.len(),
{
    if s.len() > 0 && is_ws(s.last()) {
        trim_end(s.drop_last())
    } else {
        s
    }
}

/// `s` without its leading whitespace (`str::trim_start`).
pub open spec fn trim_start(s: Seq<char>) -> Seq<char>
    decreases s.len(),
{
    if s.len() > 0 && is_ws(s[0]) {
        trim_start(s.drop_first())
    } else {
        s
    }
}

/// `s` without leading and trailing whitespace (`str::trim`).
pub open spec fn trim(s: Seq<char>) -> Seq<char> {
    trim_start(trim_end(s))
}

/// `trim_end(s)` is the prefix of `s` up to the end of its last
/// non-whitespace character.
pub proof fn lemma_trim_end_prefix(s: Seq<char>, e: int)
    requires
        0 <= e <= s.len(),
        forall|i: int| e <= i < s.len() ==> is_ws(#[trigger] s[i]),
        e == 0 || !is_ws(s[e - 1]),
    ensures
        trim_end(s) == s.take(e),
    decreases s.len(),
{
    if s.len() > e {
        assert(is_ws(s[s.len() - 1]));
        lemma_trim_end_prefix(s.drop_last(), e);
        assert(s.drop_last().take(e) == s.take(e));
    } else {
        assert(s.take(e) == s);
        if s.len() > 0 {
            assert(!is_ws(s.last()));
        }
    }
}

/// `trim_start(s)` is the suffix of `s` from its first non-whitespace
/// character.
pub proof fn lemma_trim_start_suffix(s: Seq<char>, b: int)
    requires
        0 <= b <= s.len(),
        forall|i: int| 0 <= i < b ==> is_ws(#[trigger] s[i]),
        b == s.len() || !is_ws(s[b]),
    ensures
        trim_start(s) == s.skip(b),
    decreases s.len(),
{
    if b > 0 {
        assert(is_ws(s[0]));
        assert forall|i: int| 0 <= i < b - 1 implies is_ws(#[trigger] s.drop_first()[i]) by {
            assert(s.drop_first()[i] == s[i + 1]);
        }
        lemma_trim_start_suffix(s.drop_first(), b - 1);
        assert(s.drop_first().skip(b - 1) == s.skip(b));
    } else {
        assert(s.skip(0) == s);
    }
}

/// A blank sequence trims to nothing from either side; a trimmed sequence
/// is empty exactly when the sequence itself is blank.
pub proof fn lemma_trim_blank(s: Seq<char>)
    ensures
        is_blank(s) <==> trim(s).len() == 0,
        is_blank(s) <==> trim_end(s).len() == 0,
        is_blank(trim_end(s)) <==> is_blank(s),
    decreases s.len(),
{
    if s.len() > 0 {
        lemma_trim_blank(s.drop_last());
        if is_ws(s.last()) {
            assert(is_blank(s) <==> is_blank(s.drop_last())) by {
                if is_blank(s.drop_last()) {
                    assert forall|i: int| 0 <= i < s.len() implies is_ws(#[trigger] s[i]) by {
                        if i < s.len() - 1 {
                            assert(s[i] == s.drop_last()[i]);
                        }
                    }
                }
                if is_blank(s) {
                    assert forall|i: int| 0 <= i < s.drop_last().len() implies is_ws(
                        #[trigger] s.drop_last()[i],
                    ) by {
                        assert(s[i] == s.drop_last()[i]);
                    }
                }
            }
        } else {
            assert(!is_blank(s));
            assert(trim_end(s) == s);
            assert(trim_start(s).len() > 0) by {
                lemma_trim_start_nonblank(s);
            }
        }
    }
}

proof fn lemma_trim_start_nonblank(s: Seq<char>)
    requires
        s.len() > 0,
        !is_ws(s.last()),
    ensures
        trim_start(s).len() > 0,
    decreases s.len(),
{
    if is_ws(s[0]) {
        assert(s.len() > 1);
        assert(s.drop_first().last() == s.last());
        lemma_trim_start_nonblank(s.drop_first());
    }
}

/// Position just past the last non-whitespace character of `v`.
fn trimmed_end(v: &Vec<char>) -> (e: usize)
    ensures
        e <= v.len(),
        forall|i: int| e <= i < v.len() ==> is_ws(#[trigger] v@[i]),
        e == 0 || !is_ws(v@[e - 1]),
{
    let mut e = v.len();
    while e > 0 && is_whitespace(v[e - 1])
        invariant
            e <= v.len(),
            forall|i: int| e <= i < v.len() ==> is_ws(#[trigger] v@[i]),
        decreases e,
    {
        e = e - 1;
    }
    e
}

/// Position of the first non-whitespace character of `v` before `e`
/// (`e` when there is none).
fn trimmed_start(v: &Vec<char>, e: usize) -> (b: usize)
    requires
        e <= v.len(),
    ensures
        b <= e,
        forall|i: int| 0 <= i < b ==> is_ws(#[trigger] v@[i]),
        b == e || !is_ws(v@[b as int]),
{
    let mut b: usize = 0;
    while b < e && is_whitespace(v[b])
        invariant
            b <= e,
            e <= v.len(),
            forall|i: int| 0 <= i < b ==> is_ws(#[trigger] v@[i]),
        decreases e - b,
    {
        b = b + 1;
    }
    b
}

/// The characters of `v[start..end]`.
pub fn slice_chars(v: &Vec<char>, start: usize, end: usize) -> (r: Vec<char>)
    requires
        start <= end <= v.len(),
    ensures
        r@ == v@.subrange(start as int, end as int),
{
    let mut r: Vec<char> = Vec::new();
    let mut i = start;
    while i < end
        invariant
            start <= i <= end,
            end <= v.len(),
            r@ == v@.subrange(start as int, i as int),
        decreases end - i,
    {
        r.push(v[i]);
        i = i + 1;
        assert(r@ == v@.subrange(start as int, i as int));
    }
    r
}

/// `v` without trailing whitespace.
pub fn trim_end_chars(v: &Vec<char>) -> (r: Vec<char>)
    ensures
        r@ == trim_end(v@),
{
    let e = trimmed_end(v);
    proof {
        lemma_trim_end_prefix(v@, e as int);
        assert(v@.subrange(0, e as int) == v@.take(e as int));
    }
    slice_chars(v, 0, e)
}

/// `v` without leading and trailing whitespace.
pub fn trim_chars(v: &Vec<char>) -> (r: Vec<char>)
    ensures
        r@ == trim(v@),
{
    let e = trimmed_end(v);
    let b = trimmed_start(v, e);
    proof {
        lemma_trim_end_prefix(v@, e as int);
        let t = v@.take(e as int);
        assert forall|i: int| 0 <= i < b implies is_ws(#[trigger] t[i]) by {
            assert(t[i] == v@[i]);
        }
        if b < e {
            assert(t[b as int] == v@[b as int]);
        }
        lemma_trim_start_suffix(t, b as int);
        assert(t.skip(b as int) == v@.subrange(b as int, e as int));
    }
    slice_chars(v, b, e)
}

/// Whether every character of `v` is whitespace.
pub fn is_blank_chars(v: &Vec<char>) -> (b: bool)
    ensures
        b == is_blank(v@),
{
    let e = trimmed_end(v);
    proof {
        if e == 0 {
            assert(is_blank(v@));
        } else {
            assert(!is_ws(v@[e - 1]));
        }
    }
    e == 0
}


/// The views of a sequence of character vectors.
pub open spec fn views(s: Seq<Vec<char>>) -> Seq<Seq<char>> {
    s.map_values(|x: Vec<char>| x@)
}

/// `s` split at every `'\n'`: one more piece than there are newlines.
pub open spec fn pieces(s: Seq<char>) -> Seq<Seq<char>>
    decreases s.len(),
{
    if s.len() == 0 {
        seq![Seq::<char>::empty()]
    } else {
        let p = pieces(s.drop_last());
        if s.last() == '\n' {
            p.push(Seq::<char>::empty())
        } else {
            p.update(p.len() - 1, p.last().push(s.last()))
        }
    }
}

/// `s` without one trailing carriage return.
pub open spec fn strip_cr(s: Seq<char>) -> Seq<char> {
    if s.len() > 0 && s.last() == '\r' {
        s.drop_last()
    } else {
        s
    }
}

/// The lines of `s` as `str::lines` yields them: the text is split at each
/// `'\n'`, a `'\r'` just before a `'\n'` is dropped, and an empty piece after
/// the final `'\n'` is not a line.
pub open spec fn lines_of(s: Seq<char>) -> Seq<Seq<char>> {
    let p = pieces(s);
    let ended = p.drop_last().map_values(|x: Seq<char>| strip_cr(x));
    if p.last().len() == 0 {
        ended
    } else {
        ended.push(p.last())
    }
}

/// `v` without one trailing carriage return.
fn strip_cr_chars(v: Vec<char>) -> (r: Vec<char>)
    ensures
        r@ == strip_cr(v@),
{
    let mut v = v;
    if v.len() > 0 && v[v.len() - 1] == '\r' {
        v.pop();
    }
    v
}

/// The lines of `text` (`str::lines`).
pub fn split_lines(text: &Vec<char>) -> (lines: Vec<Vec<char>>)
    ensures
        views(lines@) == lines_of(text@),
{
    let mut done: Vec<Vec<char>> = Vec::new();
    let mut cur: Vec<char> = Vec::new();
    let mut i: usize = 0;
    while i < text.len()
        invariant
            i <= text.len(),
            pieces(text@.take(i as int)).len() >= 1,
            views(done@) == pieces(text@.take(i as int)).drop_last().map_values(
                |x: Seq<char>| strip_cr(x),
            ),
            cur@ == pieces(text@.take(i as int)).last(),
        decreases text.len() - i,
    {
        let ghost pre = text@.take(i as int);
        let c = text[i];
        i = i + 1;
        proof {
            assert(text@.take(i as int).drop_last() == pre);
            assert(text@.take(i as int).last() == c);
        }
        if c == '\n' {
            let ghost old_done = done@;
            let line = strip_cr_chars(cur);
            done.push(line);
            cur = Vec::new();
            proof {
                let p = pieces(pre);
                let q = pieces(text@.take(i as int));
                assert(q == p.push(Seq::<char>::empty()));
                assert(q.drop_last() == p);
                assert(p == p.drop_last().push(p.last()));
                assert(done@ == old_done.push(done@.last()));
                assert(views(done@) =~= views(old_done).push(strip_cr(p.last())));
                assert(p.map_values(|x: Seq<char>| strip_cr(x)) =~= p.drop_last().map_values(
                    |x: Seq<char>| strip_cr(x),
                ).push(strip_cr(p.last())));
                assert(views(done@) == q.drop_last().map_values(|x: Seq<char>| strip_cr(x)));
            }
        } else {
            cur.push(c);
            proof {
                let p = pieces(pre);
                let q = pieces(text@.take(i as int));
                assert(q.drop_last() == p.drop_last());
            }
        }
    }
    proof {
        assert(text@.take(text.len() as int) == text@);
    }
    if cur.len() > 0 {
        done.push(cur);
    }
    done
}

/// The pieces of `xs` joined with `'\n'` between them (`join("\n")`).
pub open spec fn join_lines(xs: Seq<Seq<char>>) -> Seq<char>
    decreases xs.len(),
{
    if xs.len() == 0 {
        Seq::<char>::empty()
    } else if xs.len() == 1 {
        xs[0]
    } else {
        join_lines(xs.drop_last()) + seq!['\n'] + xs.last()
    }
}

/// The pieces of `xs` joined with `'\n'` between them.
pub fn join_lines_chars(xs: &Vec<Vec<char>>) -> (r: Vec<char>)
    ensures
        r@ == join_lines(views(xs@)),
{
    let mut r: Vec<char> = Vec::new();
    let mut i: usize = 0;
    while i < xs.len()
        invariant
            i <= xs.len(),
            r@ == join_lines(views(xs@).take(i as int)),
        decreases xs.len() - i,
    {
        let ghost before = r@;
        if i > 0 {
            r.push('\n');
        }
        let x = &xs[i];
        let mut j: usize = 0;
        let ghost mid = r@;
        while j < x.len()
            invariant
                j <= x.len(),
                r@ == mid + x@.take(j as int),
            decreases x.len() - j,
        {
            r.push(x[j]);
            j = j + 1;
            assert(r@ == mid + x@.take(j as int));
        }
        proof {
            assert(x@.take(x.len() as int) == x@);
            let t = views(xs@).take(i as int + 1);
            assert(t.drop_last() == views(xs@).take(i as int));
            assert(t.last() == x@);
            if i == 0 {
                assert(t.len() == 1);
                assert(before == Seq::<char>::empty());
                assert(r@ == x@);
            }
        }
        i = i + 1;
    }
    proof {
        assert(views(xs@).take(xs.len() as int) == views(xs@));
    }
    r
}


/// Whether two strings hold the same characters.
pub fn str_eq(a: &str, b: &str) -> (r: bool)
    ensures
        r == (a@ == b@),
{
    let x = chars_of(a);
    let y = chars_of(b);
    chars_eq(&x, &y)
}

/// Whether two character vectors are equal.
pub fn chars_eq(x: &Vec<char>, y: &Vec<char>) -> (r: bool)
    ensures
        r == (x@ == y@),
{
    if x.len() != y.len() {
        return false;
    }
    let mut i: usize = 0;
    while i < x.len()
        invariant
            i <= x.len(),
            x.len() == y.len(),
            forall|j: int| 0 <= j < i ==> x@[j] == y@[j],
        decreases x.len() - i,
    {
        if x[i] != y[i] {
            return false;
        }
        i = i + 1;
    }
    assert(x@ =~= y@);
    true
}

/// The decimal digit character for `d < 10`.
pub open spec fn digit_char(d: nat) -> char {
    (('0' as u32) + d) as char
}

/// The decimal representation of `n`, as `n.to_string()` writes it.
pub open spec fn decimal(n: nat) -> Seq<char>
    decreases n,
{
    if n < 10 {
        seq![digit_char(n)]
    } else {
        decimal(n / 10).push(digit_char(n % 10))
    }
}

/// The decimal representation of `n`.
pub fn decimal_chars(n: usize) -> (r: Vec<char>)
    ensures
        r@ == decimal(n as nat),
    decreases n,
{
    let d = (n % 10) as u32;
    let c = char_from_digit(d);
    if n < 10 {
        let mut r: Vec<char> = Vec::new();
        r.push(c);
        assert(r@ == seq![c]);
        r
    } else {
        let mut r = decimal_chars(n / 10);
        r.push(c);
        r
    }
}

fn char_from_digit(d: u32) -> (c: char)
    requires
        d < 10,
    ensures
        c == digit_char(d as nat),
{
    if d == 0 { '0' }
    else if d == 1 { '1' }
    else if d == 2 { '2' }
    else if d == 3 { '3' }
    else if d == 4 { '4' }
    else if d == 5 { '5' }
    else if d == 6 { '6' }
    else if d == 7 { '7' }
    else if d == 8 { '8' }
    else { '9' }
}

/// Whether `c` is an ASCII decimal digit.
pub open spec fn is_digit(c: char) -> bool {
    '0' <= c <= '9'
}

/// The value of a sequence of decimal digits.
pub open spec fn digits_value(s: Seq<char>) -> nat
    decreases s.len(),
{
    if s.len() == 0 {
        0
    } else {
        digits_value(s.drop_last()) * 10 + ((s.last() as u32) - ('0' as u32)) as nat
    }
}

/// `s` without one leading `'+'`.
pub open spec fn strip_plus(s: Seq<char>) -> Seq<char> {
    if s.len() > 0 && s[0] == '+' {
        s.drop_first()
    } else {
        s
    }
}

/// Every character of `s` is an ASCII decimal digit.
pub open spec fn all_digits(s: Seq<char>) -> bool {
    forall|i: int| 0 <= i < s.len() ==> is_digit(#[trigger] s[i])
}

/// What `s.parse::<usize>()` gives: an optional `'+'`, then at least one
/// ASCII digit and nothing else, of a value that fits in `usize`.
pub open spec fn parse_usize_spec(s: Seq<char>) -> Option<nat> {
    let d = strip_plus(s);
    if d.len() == 0 || !all_digits(d) || digits_value(d) > usize::MAX {
        None
    } else {
        Some(digits_value(d))
    }
}

proof fn lemma_digits_value_grows(s: Seq<char>, k: int)
    requires
        0 <= k <= s.len(),
        forall|i: int| 0 <= i < s.len() ==> is_digit(#[trigger] s[i]),
    ensures
        digits_value(s.take(k)) <= digits_value(s),
    decreases s.len() - k,
{
    if k < s.len() {
        lemma_digits_value_grows(s, k + 1);
        assert(s.take(k + 1).drop_last() == s.take(k));
    } else {
        assert(s.take(k) == s);
    }
}

/// `s.parse::<usize>()`, with the error dropped.
pub fn parse_usize(s: &Vec<char>) -> (r: Option<usize>)
    ensures
        r is None <==> parse_usize_spec(s@) is None,
        r matches Some(n) ==> parse_usize_spec(s@) == Some(n as nat),
{
    let start: usize = if s.len() > 0 && s[0] == '+' {
        1
    } else {
        0
    };
    let ghost d = s@.skip(start as int);
    proof {
        if start == 1 {
            assert(d == s@.drop_first());
        } else {
            assert(d == s@);
        }
    }
    if start >= s.len() {
        return None;
    }
    let mut i = start;
    let mut acc: usize = 0;
    while i < s.len()
        invariant
            start <= i <= s.len(),
            d == s@.skip(start as int),
            d == strip_plus(s@),
            forall|j: int| start <= j < i ==> is_digit(#[trigger] s@[j]),
            acc as nat == digits_value(d.take(i - start)),
        decreases s.len() - i,
    {
        let c = s[i];
        if !('0' <= c && c <= '9') {
            proof {
                assert(d[i - start] == c);
                assert(!is_digit(d[i - start]));
                assert(0 <= i - start < d.len());
                assert(!all_digits(d));
            }
            return None;
        }
        let dig = (c as u32 - '0' as u32) as usize;
        proof {
            assert(d.take(i - start + 1).drop_last() == d.take(i - start));
            assert(d.take(i - start + 1).last() == c);
        }
        if acc > (usize::MAX - dig) / 10 {
            proof {
                assert(acc * 10 + dig > usize::MAX) by (nonlinear_arith)
                    requires acc > (usize::MAX - dig) / 10, dig <= 9;
                let k = i - start + 1;
                assert(digits_value(d.take(k)) == acc * 10 + dig);
                if all_digits(d) {
                    lemma_digits_value_grows(d, k);
                }
            }
            return None;
        }
        proof {
            assert(acc * 10 + dig <= usize::MAX) by (nonlinear_arith)
                requires acc <= (usize::MAX - dig) / 10, dig <= 9;
        }
        acc = acc * 10 + dig;
        i = i + 1;
    }
    proof {
        assert(d.take(s.len() - start) == d);
        assert forall|j: int| 0 <= j < d.len() implies is_digit(#[trigger] d[j]) by {
            assert(d[j] == s@[j + start]);
        }
    }
    Some(acc)
}


/// The position of the first `c` in `s`, if any.
pub open spec fn first_index(s: Seq<char>, c: char) -> Option<nat>
    decreases s.len(),
{
    if s.len() == 0 {
        None
    } else {
        match first_index(s.drop_last(), c) {
            Some(i) => Some(i),
            None => if s.last() == c {
                Some((s.len() - 1) as nat)
            } else {
                None
            },
        }
    }
}

/// `first_index` finds the first occurrence and only it.
pub proof fn lemma_first_index(s: Seq<char>, c: char)
    ensures
        first_index(s, c) matches Some(i) ==> i < s.len() && s[i as int] == c && forall|
            j: int,
        |
            0 <= j < i ==> s[j] != c,
        first_index(s, c) is None ==> forall|j: int| 0 <= j < s.len() ==> s[j] != c,
    decreases s.len(),
{
    if s.len() > 0 {
        lemma_first_index(s.drop_last(), c);
        assert forall|j: int| 0 <= j < s.len() - 1 implies s.drop_last()[j] == s[j] by {}
    }
}

/// The position of the first `c` in `v`.
pub fn find_char(v: &Vec<char>, c: char) -> (r: Option<usize>)
    ensures
        r matches Some(i) ==> first_index(v@, c) == Some(i as nat) && i < v.len(),
        r is None ==> first_index(v@, c) is None,
{
    let mut i: usize = 0;
    while i < v.len()
        invariant
            i <= v.len(),
            first_index(v@.take(i as int), c) is None,
        decreases v.len() - i,
    {
        proof {
            assert(v@.take(i as int + 1).drop_last() == v@.take(i as int));
        }
        if v[i] == c {
            proof {
                lemma_first_index_prefix(v@, c, i as int + 1);
            }
            return Some(i);
        }
        i = i + 1;
    }
    proof {
        assert(v@.take(v.len() as int) == v@);
    }
    None
}

/// Once a prefix holds `c`, the first `c` of the whole is that of the
/// prefix.
pub proof fn lemma_first_index_prefix(s: Seq<char>, c: char, k: int)
    requires
        0 <= k <= s.len(),
        first_index(s.take(k), c) is Some,
    ensures
        first_index(s, c) == first_index(s.take(k), c),
    decreases s.len() - k,
{
    if k < s.len() {
        assert(s.take(k + 1).drop_last() == s.take(k));
        assert(first_index(s.take(k + 1), c) == first_index(s.take(k), c));
        lemma_first_index_prefix(s, c, k + 1);
    } else {
        assert(s.take(k) == s);
    }
}


/// The pieces of `xs` with `sep` between them (`join(sep)`).
pub open spec fn join_sep(xs: Seq<Seq<char>>, sep: Seq<char>) -> Seq<char>
    decreases xs.len(),
{
    if xs.len() == 0 {
        Seq::<char>::empty()
    } else if xs.len() == 1 {
        xs[0]
    } else {
        join_sep(xs.drop_last(), sep) + sep + xs.last()
    }
}

/// The views of a sequence of strings.
pub open spec fn str_views(s: Seq<String>) -> Seq<Seq<char>> {
    s.map_values(|x: String| x@)
}

/// The strings of `xs` with `sep` between them.
pub fn join_strings(xs: &Vec<String>, sep: &str) -> (r: String)
    ensures
        r@ == join_sep(str_views(xs@), sep@),
{
    let mut r = String::new();
    let mut i: usize = 0;
    while i < xs.len()
        invariant
            i <= xs.len(),
            r@ == join_sep(str_views(xs@).take(i as int), sep@),
        decreases xs.len() - i,
    {
        proof {
            let t = str_views(xs@).take(i as int + 1);
            assert(t.drop_last() == str_views(xs@).take(i as int));
            assert(t.last() == xs@[i as int]@);
        }
        if i > 0 {
            r.append(sep);
        } else {
            assert(r@ == Seq::<char>::empty());
        }
        r.append(xs[i].as_str());
        i = i + 1;
    }
    assert(str_views(xs@).take(xs.len() as int) == str_views(xs@));
    r
}


/// A decimal representation is made of digits and reads back as its value.
pub proof fn lemma_decimal_digits(n: nat)
    ensures
        all_digits(decimal(n)),
        decimal(n).len() > 0,
        digits_value(decimal(n)) == n,
        decimal(n)[0] != '+',
        forall|i: int| 0 <= i < decimal(n).len() ==> #[trigger] decimal(n)[i] != ':',
    decreases n,
{
    let r = n % 10;
    assert((digit_char(r) as u32) == ('0' as u32) + r);
    if n >= 10 {
        lemma_decimal_digits(n / 10);
        let d = decimal(n);
        assert(d.last() == digit_char(r));
        assert((n / 10) * 10 + r == n);
        assert(digits_value(d) == digits_value(d.drop_last()) * 10 + ((d.last() as u32) - (
        '0' as u32)) as nat);
        assert(d.drop_last() == decimal(n / 10));
        assert(d[0] == decimal(n / 10)[0]);
        assert forall|i: int| 0 <= i < d.len() implies is_digit(#[trigger] d[i]) by {
            if i < d.len() - 1 {
                assert(d[i] == decimal(n / 10)[i]);
            }
        }
    } else {
        let d = decimal(n);
        assert(d.drop_last() =~= Seq::<char>::empty());
        assert(d.last() == digit_char(n));
        assert(digits_value(d) == digits_value(d.drop_last()) * 10 + ((d.last() as u32) - (
        '0' as u32)) as nat);
        assert(is_digit(d[0]));
    }
}

/// `parse::<usize>` reads back what `to_string` writes.
pub proof fn lemma_parse_decimal(n: usize)
    ensures
        parse_usize_spec(decimal(n as nat)) == Some(n as nat),
{
    lemma_decimal_digits(n as nat);
    assert(strip_plus(decimal(n as nat)) == decimal(n as nat));
}

/// `s` with every occurrence of `pat`, taken from left to right without
/// overlap, written as `rep` (`str::replace` for a non-empty pattern).
pub open spec fn replace_all(s: Seq<char>, pat: Seq<char>, rep: Seq<char>) -> Seq<char>
    decreases s.len(),
{
    if pat.len() == 0 || s.len() < pat.len() {
        s
    } else if s.take(pat.len() as int) == pat {
        rep + replace_all(s.skip(pat.len() as int), pat, rep)
    } else {
        seq![s[0]] + replace_all(s.skip(1), pat, rep)
    }
}

/// Whether `p` occurs in `v` at position `i`.
fn occurs_at(v: &Vec<char>, p: &Vec<char>, i: usize) -> (r: bool)
    requires
        i + p.len() <= v.len(),
    ensures
        r == (v@.subrange(i as int, i + p.len()) == p@),
{
    let mut j: usize = 0;
    while j < p.len()
        invariant
            j <= p.len(),
            i + p.len() <= v.len(),
            forall|k: int| 0 <= k < j ==> v@[i + k] == p@[k],
        decreases p.len() - j,
    {
        if v[i + j] != p[j] {
            assert(v@.subrange(i as int, i + p.len())[j as int] != p@[j as int]);
            return false;
        }
        j = j + 1;
    }
    assert(v@.subrange(i as int, i + p.len()) =~= p@);
    true
}

/// `s` with every occurrence of the non-empty `pat` replaced by `rep`.
pub fn replace_str(s: &str, pat: &str, rep: &str) -> (r: String)
    requires
        pat@.len() > 0,
    ensures
        r@ == replace_all(s@, pat@, rep@),
{
    let v = chars_of(s);
    let p = chars_of(pat);
    let mut out = String::new();
    let mut i: usize = 0;
    assert(v@.skip(0) =~= v@);
    assert(out@ + v@ =~= v@);
    while i < v.len()
        invariant
            i <= v.len(),
            p@ == pat@,
            p@.len() > 0,
            out@ + replace_all(v@.skip(i as int), p@, rep@) == replace_all(v@, p@, rep@),
        decreases v.len() - i,
    {
        let ghost rest = v@.skip(i as int);
        if p.len() <= v.len() - i && occurs_at(&v, &p, i) {
            proof {
                assert(rest.take(p@.len() as int) =~= v@.subrange(i as int, i + p.len()));
                assert(rest.skip(p@.len() as int) =~= v@.skip(i + p.len()));
                assert(out@ + rep@ + replace_all(v@.skip(i + p.len()), p@, rep@) =~= out@ + (rep@
                    + replace_all(rest.skip(p@.len() as int), p@, rep@)));
            }
            out.append(rep);
            i = i + p.len();
        } else {
            let c = v[i];
            proof {
                assert(rest.skip(1) =~= v@.skip(i + 1));
                if rest.len() >= p@.len() {
                    assert(rest.take(p@.len() as int) =~= v@.subrange(i as int, i + p.len()));
                    assert(replace_all(rest, p@, rep@) == seq![c] + replace_all(rest.skip(1), p@, rep@));
                } else {
                    assert(replace_all(rest, p@, rep@) == rest);
                    assert(replace_all(rest.skip(1), p@, rep@) == rest.skip(1));
                    assert(rest =~= seq![c] + rest.skip(1));
                }
                assert(out@.push(c) + replace_all(v@.skip(i + 1), p@, rep@) =~= out@ + (seq![c]
                    + replace_all(rest.skip(1), p@, rep@)));
            }
            push_char(&mut out, c);
            i = i + 1;
        }
    }
    proof {
        assert(replace_all(v@.skip(i as int), p@, rep@) == v@.skip(i as int));
        assert(out@ + v@.skip(i as int) =~= out@);
    }
    out
}

} // verus!
