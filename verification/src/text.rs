//! Character-level building blocks of the grammar: character classes,
//! runs, tags, line endings, searching, trimming and text conversion.
//!
//! Every reader works on a shared character slice and a start position.
//! Its specification speaks of the suffix `s@.skip(pos)` that it reads and
//! counts what it consumes from there.
use vstd::prelude::*;
use vstd::utf8::{encode_scalar, encode_utf8};

verus! {

broadcast use vstd::slice::group_slice_axioms;

/// Space or tab (what `space0` and `space1` accept).
pub open spec fn is_space(c: char) -> bool {
    c == ' ' || c == '\t'
}

/// Space, tab, carriage return or line feed (what `multispace0` accepts).
pub open spec fn is_multispace(c: char) -> bool {
    c == ' ' || c == '\t' || c == '\r' || c == '\n'
}

/// The characters that end a word part: space and line feed.
pub open spec fn ends_word(c: char) -> bool {
    c == ' ' || c == '\n'
}

/// The characters that end a generic section's type name.
pub open spec fn ends_type_name(c: char) -> bool {
    c == ' ' || c == '/' || c == '\n'
}

/// Unicode `White_Space`, the characters that `str::trim_end` removes.
pub open spec fn is_unicode_whitespace(c: char) -> bool {
    ||| c == '\t'
    ||| c == '\n'
    ||| c == '\u{0B}'
    ||| c == '\u{0C}'
    ||| c == '\r'
    ||| c == ' '
    ||| c == '\u{85}'
    ||| c == '\u{A0}'
    ||| c == '\u{1680}'
    ||| ('\u{2000}' <= c && c <= '\u{200A}')
    ||| c == '\u{2028}'
    ||| c == '\u{2029}'
    ||| c == '\u{202F}'
    ||| c == '\u{205F}'
    ||| c == '\u{3000}'
}

/// Length of the longest prefix of `t` whose characters all satisfy `p`.
pub open spec fn run_len(t: Seq<char>, p: spec_fn(char) -> bool) -> nat
    decreases t.len(),
{
    if t.len() > 0 && p(t[0]) {
        1 + run_len(t.skip(1), p)
    } else {
        0
    }
}

/// `t` begins with `p`.
pub open spec fn starts_with(t: Seq<char>, p: Seq<char>) -> bool {
    p.len() <= t.len() && t.take(p.len() as int) =~= p
}

/// What `space0` consumes.
pub open spec fn space0(t: Seq<char>) -> nat {
    run_len(t, |c: char| is_space(c))
}

/// What `multispace0` consumes.
pub open spec fn multispace0(t: Seq<char>) -> nat {
    run_len(t, |c: char| is_multispace(c))
}

/// What `line_ending` consumes: `"\n"` or `"\r\n"`.
pub open spec fn line_ending(t: Seq<char>) -> Option<int> {
    if t.len() >= 1 && t[0] == '\n' {
        Some(1)
    } else if t.len() >= 2 && t[0] == '\r' && t[1] == '\n' {
        Some(2)
    } else {
        None
    }
}

/// Offset of the first occurrence of `p` in `t` (what `take_until` consumes).
pub open spec fn find(t: Seq<char>, p: Seq<char>) -> Option<int>
    decreases t.len(),
{
    if starts_with(t, p) {
        Some(0)
    } else if t.len() == 0 {
        None
    } else {
        match find(t.skip(1), p) {
            Some(k) => Some(k + 1),
            None => None,
        }
    }
}

/// Length of `t` once trailing Unicode whitespace is removed.
pub open spec fn trimmed_len(t: Seq<char>) -> nat
    decreases t.len(),
{
    if t.len() > 0 && is_unicode_whitespace(t.last()) {
        trimmed_len(t.drop_last())
    } else {
        t.len()
    }
}

/// `t` with trailing Unicode whitespace removed (`str::trim_end`).
pub open spec fn trim_end(t: Seq<char>) -> Seq<char> {
    t.take(trimmed_len(t) as int)
}

pub proof fn lemma_run_len_bound(t: Seq<char>, p: spec_fn(char) -> bool)
    ensures
        run_len(t, p) <= t.len(),
        forall|i: int| 0 <= i < run_len(t, p) ==> p(#[trigger] t[i]),
        run_len(t, p) < t.len() ==> !p(t[run_len(t, p) as int]),
    decreases t.len(),
{
    if t.len() > 0 && p(t[0]) {
        lemma_run_len_bound(t.skip(1), p);
        assert forall|i: int| 0 <= i < run_len(t, p) implies p(#[trigger] t[i]) by {
            if i > 0 {
                assert(t[i] == t.skip(1)[i - 1]);
            }
        }
        if run_len(t, p) < t.len() {
            assert(t[run_len(t, p) as int] == t.skip(1)[run_len(t.skip(1), p) as int]);
        }
    }
}

pub proof fn lemma_find_bound(t: Seq<char>, p: Seq<char>)
    ensures
        find(t, p) matches Some(k) ==> 0 <= k && k + p.len() <= t.len() && starts_with(
            t.skip(k),
            p,
        ),
    decreases t.len(),
{
    if starts_with(t, p) {
        assert(t.skip(0) =~= t);
    } else if t.len() > 0 {
        lemma_find_bound(t.skip(1), p);
        if let Some(k) = find(t.skip(1), p) {
            assert(t.skip(1).skip(k) =~= t.skip(k + 1));
        }
    }
}

pub proof fn lemma_trimmed_len_bound(t: Seq<char>)
    ensures
        trimmed_len(t) <= t.len(),
    decreases t.len(),
{
    if t.len() > 0 && is_unicode_whitespace(t.last()) {
        lemma_trimmed_len_bound(t.drop_last());
    }
}

/// The character at `pos` is `c`.
pub fn char_is(s: &[char], pos: usize, c: char) -> (r: bool)
    ensures
        r == (pos < s@.len() && s@[pos as int] == c),
        r ==> pos < s.len(),
{
    pos < s.len() && s[pos] == c
}

/// `s[pos..]` begins with `p`.
pub fn starts_with_at(s: &[char], pos: usize, p: &[char]) -> (r: bool)
    requires
        pos <= s@.len(),
    ensures
        r == starts_with(s@.skip(pos as int), p@),
        r ==> pos + p@.len() <= s.len(),
{
    if p.len() > s.len() - pos {
        return false;
    }
    let mut i: usize = 0;
    while i < p.len()
        invariant
            pos + p@.len() <= s@.len(),
            s@.len() == s.len(),
            i <= p@.len(),
            forall|j: int| 0 <= j < i ==> s@[pos + j] == p@[j],
        decreases p.len() - i,
    {
        if s[pos + i] != p[i] {
            assert(s@.skip(pos as int).take(p@.len() as int)[i as int] != p@[i as int]);
            return false;
        }
        i = i + 1;
    }
    assert(s@.skip(pos as int).take(p@.len() as int) =~= p@);
    true
}

/// End of the run that `space0` consumes from `pos`.
pub fn space0_at(s: &[char], pos: usize) -> (e: usize)
    requires
        pos <= s@.len(),
    ensures
        e == pos + space0(s@.skip(pos as int)),
        e <= s@.len(),
{
    let mut i = pos;
    while i < s.len() && (s[i] == ' ' || s[i] == '\t')
        invariant
            pos <= i <= s@.len(),
            space0(s@.skip(pos as int)) == (i - pos) + space0(s@.skip(i as int)),
        decreases s.len() - i,
    {
        assert(s@.skip(i as int).skip(1) =~= s@.skip(i + 1));
        i = i + 1;
    }
    i
}

/// End of the run that `multispace0` consumes from `pos`.
pub fn multispace0_at(s: &[char], pos: usize) -> (e: usize)
    requires
        pos <= s@.len(),
    ensures
        e == pos + multispace0(s@.skip(pos as int)),
        e <= s@.len(),
{
    let mut i = pos;
    while i < s.len() && (s[i] == ' ' || s[i] == '\t' || s[i] == '\r' || s[i] == '\n')
        invariant
            pos <= i <= s@.len(),
            multispace0(s@.skip(pos as int)) == (i - pos) + multispace0(s@.skip(i as int)),
        decreases s.len() - i,
    {
        assert(s@.skip(i as int).skip(1) =~= s@.skip(i + 1));
        i = i + 1;
    }
    i
}

/// End of the run of characters that are neither space nor line feed.
pub fn word_end_at(s: &[char], pos: usize) -> (e: usize)
    requires
        pos <= s@.len(),
    ensures
        e == pos + run_len(s@.skip(pos as int), |c: char| !ends_word(c)),
        e <= s@.len(),
{
    let mut i = pos;
    while i < s.len() && !(s[i] == ' ' || s[i] == '\n')
        invariant
            pos <= i <= s@.len(),
            run_len(s@.skip(pos as int), |c: char| !ends_word(c)) == (i - pos) + run_len(
                s@.skip(i as int),
                |c: char| !ends_word(c),
            ),
        decreases s.len() - i,
    {
        assert(s@.skip(i as int).skip(1) =~= s@.skip(i + 1));
        i = i + 1;
    }
    i
}

/// End of the run of characters that are not space, slash or line feed.
pub fn type_name_end_at(s: &[char], pos: usize) -> (e: usize)
    requires
        pos <= s@.len(),
    ensures
        e == pos + run_len(s@.skip(pos as int), |c: char| !ends_type_name(c)),
        e <= s@.len(),
{
    let mut i = pos;
    while i < s.len() && !(s[i] == ' ' || s[i] == '/' || s[i] == '\n')
        invariant
            pos <= i <= s@.len(),
            run_len(s@.skip(pos as int), |c: char| !ends_type_name(c)) == (i - pos) + run_len(
                s@.skip(i as int),
                |c: char| !ends_type_name(c),
            ),
        decreases s.len() - i,
    {
        assert(s@.skip(i as int).skip(1) =~= s@.skip(i + 1));
        i = i + 1;
    }
    i
}

/// What `line_ending` consumes at `pos`.
pub fn line_ending_at(s: &[char], pos: usize) -> (r: Option<usize>)
    requires
        pos <= s@.len(),
    ensures
        r matches Some(k) ==> line_ending(s@.skip(pos as int)) == Some(k as int),
        r is None ==> line_ending(s@.skip(pos as int)) is None,
        r matches Some(k) ==> pos + k <= s.len(),
{
    if char_is(s, pos, '\n') {
        Some(1)
    } else if char_is(s, pos, '\r') && char_is(s, pos + 1, '\n') {
        Some(2)
    } else {
        None
    }
}

/// Position of the first occurrence of `p` at or after `pos`.
pub fn find_at(s: &[char], pos: usize, p: &[char]) -> (r: Option<usize>)
    requires
        pos <= s@.len(),
    ensures
        r matches Some(e) ==> pos <= e && e + p@.len() <= s@.len() && find(
            s@.skip(pos as int),
            p@,
        ) == Some(e - pos),
        r is None ==> find(s@.skip(pos as int), p@) is None,
{
    let mut i = pos;
    loop
        invariant
            pos <= i <= s@.len(),
            find(s@.skip(pos as int), p@) == match find(s@.skip(i as int), p@) {
                Some(k) => Some(k + (i - pos)),
                None => None,
            },
        decreases s.len() - i,
    {
        if starts_with_at(s, i, p) {
            proof {
                lemma_find_bound(s@.skip(i as int), p@);
            }
            return Some(i);
        }
        if i == s.len() {
            return None;
        }
        assert(s@.skip(i as int).skip(1) =~= s@.skip(i + 1));
        i = i + 1;
    }
}

/// Unicode `White_Space`, as `char::is_whitespace` decides it.
pub fn is_whitespace_char(c: char) -> (r: bool)
    ensures
        r == is_unicode_whitespace(c),
{
    c == '\t' || c == '\n' || c == '\u{0B}' || c == '\u{0C}' || c == '\r' || c == ' ' || c
        == '\u{85}' || c == '\u{A0}' || c == '\u{1680}' || ('\u{2000}' <= c && c <= '\u{200A}')
        || c == '\u{2028}' || c == '\u{2029}' || c == '\u{202F}' || c == '\u{205F}' || c
        == '\u{3000}'
}

/// End of `s[a..b]` once trailing whitespace is removed.
pub fn trim_end_at(s: &[char], a: usize, b: usize) -> (e: usize)
    requires
        a <= b <= s@.len(),
    ensures
        e == a + trimmed_len(s@.subrange(a as int, b as int)),
        a <= e <= b,
{
    let mut j = b;
    while j > a && is_whitespace_char(s[j - 1])
        invariant
            a <= j <= b <= s@.len(),
            trimmed_len(s@.subrange(a as int, b as int)) == trimmed_len(
                s@.subrange(a as int, j as int),
            ),
        decreases j - a,
    {
        assert(s@.subrange(a as int, j as int).drop_last() =~= s@.subrange(
            a as int,
            (j - 1) as int,
        ));
        j = j - 1;
    }
    proof {
        lemma_trimmed_len_bound(s@.subrange(a as int, j as int));
    }
    j
}

/// Appends `c` to `s`.
///
/// Calls `String::push`, which std documents as appending the given char to
/// the end of the string; the contract says that the view grows by `c`.
#[verifier::external_body]
pub fn push_char(s: &mut String, c: char)
    ensures
        final(s)@ == old(s)@.push(c),
{
    s.push(c);
}

/// A new `String` holding `s[a..b]`.
pub fn chars_to_string(s: &[char], a: usize, b: usize) -> (r: String)
    requires
        a <= b <= s@.len(),
    ensures
        r@ == s@.subrange(a as int, b as int),
{
    let mut r = String::new();
    let mut i = a;
    while i < b
        invariant
            a <= i <= b <= s@.len(),
            r@ == s@.subrange(a as int, i as int),
        decreases b - i,
    {
        push_char(&mut r, s[i]);
        assert(s@.subrange(a as int, i + 1) =~= s@.subrange(a as int, i as int).push(s@[i as int]));
        i = i + 1;
    }
    r
}

/// The characters of a string slice.
pub fn str_chars(s: &str) -> (v: Vec<char>)
    ensures
        v@ == s@,
{
    let mut v: Vec<char> = Vec::new();
    for c in it: s.chars()
        invariant
            v@ == it.seq().take(it.index() as int),
            it.seq() == s@,
    {
        v.push(c);
    }
    v
}

/// The characters of a string.
pub fn string_chars(s: &String) -> (v: Vec<char>)
    ensures
        v@ == s@,
{
    str_chars(s.as_str())
}


/// What `many0(p)` gives on `t`: `p` applied until it fails, each value in
/// order, with the total consumed. It fails where `p` succeeds without
/// consuming anything (the guard against an endless loop).
pub open spec fn many0<T>(p: spec_fn(Seq<char>) -> Option<(int, T)>, t: Seq<char>) -> Option<
    (int, Seq<T>),
>
    decreases t.len(),
{
    match p(t) {
        Some((n, v)) => if 0 < n <= t.len() {
            prepend(n, seq![v], many0(p, t.skip(n)))
        } else {
            None
        },
        None => Some((0, Seq::empty())),
    }
}

/// Adds `n` consumed characters and the values `vs` in front of a result.
pub open spec fn prepend<T>(n: int, vs: Seq<T>, r: Option<(int, Seq<T>)>) -> Option<
    (int, Seq<T>),
> {
    match r {
        Some((m, ws)) => Some((n + m, vs + ws)),
        None => None,
    }
}

pub proof fn lemma_prepend_assoc<T>(n1: int, a: Seq<T>, n2: int, b: Seq<T>, r: Option<(int, Seq<T>)>)
    ensures
        prepend(n1, a, prepend(n2, b, r)) == prepend(n1 + n2, a + b, r),
{
    if let Some((m, ws)) = r {
        assert(a + (b + ws) =~= (a + b) + ws);
    }
}

pub proof fn lemma_prepend_empty<T>(n: int, a: Seq<T>)
    ensures
        prepend(n, a, Some((0int, Seq::<T>::empty()))) == Some((n, a)),
{
    assert(a + Seq::<T>::empty() =~= a);
}

/// One step of a `many0` loop: a value read at `cur` that ends at `e`.
pub proof fn lemma_many0_step<T>(
    p: spec_fn(Seq<char>) -> Option<(int, T)>,
    s: Seq<char>,
    pos: int,
    cur: int,
    e: int,
    acc: Seq<T>,
    v: T,
)
    requires
        0 <= pos <= cur < e <= s.len(),
        p(s.skip(cur)) == Some((e - cur, v)),
        many0(p, s.skip(pos)) == prepend(cur - pos, acc, many0(p, s.skip(cur))),
    ensures
        many0(p, s.skip(pos)) == prepend(e - pos, acc.push(v), many0(p, s.skip(e))),
{
    assert(s.skip(cur).skip(e - cur) =~= s.skip(e));
    lemma_prepend_assoc(cur - pos, acc, e - cur, seq![v], many0(p, s.skip(e)));
    assert(acc + seq![v] =~= acc.push(v));
}

/// The end of a `many0` loop: the reader failed at `cur`.
pub proof fn lemma_many0_stop<T>(
    p: spec_fn(Seq<char>) -> Option<(int, T)>,
    s: Seq<char>,
    pos: int,
    cur: int,
    acc: Seq<T>,
)
    requires
        0 <= pos <= cur <= s.len(),
        p(s.skip(cur)) is None,
        many0(p, s.skip(pos)) == prepend(cur - pos, acc, many0(p, s.skip(cur))),
    ensures
        many0(p, s.skip(pos)) == Some((cur - pos, acc)),
{
    lemma_prepend_empty(cur - pos, acc);
}

/// A `many0` loop fails where the reader consumed nothing at `cur`.
pub proof fn lemma_many0_stuck<T>(
    p: spec_fn(Seq<char>) -> Option<(int, T)>,
    s: Seq<char>,
    pos: int,
    cur: int,
    acc: Seq<T>,
    v: T,
)
    requires
        0 <= pos <= cur <= s.len(),
        p(s.skip(cur)) == Some((0int, v)),
        many0(p, s.skip(pos)) == prepend(cur - pos, acc, many0(p, s.skip(cur))),
    ensures
        many0(p, s.skip(pos)) is None,
{
}

/// The start of a `many0` loop.
pub proof fn lemma_many0_start<T>(p: spec_fn(Seq<char>) -> Option<(int, T)>, s: Seq<char>, pos: int)
    ensures
        many0(p, s.skip(pos)) == prepend(0, Seq::<T>::empty(), many0(p, s.skip(pos))),
{
    if let Some((m, ws)) = many0(p, s.skip(pos)) {
        assert(Seq::<T>::empty() + ws =~= ws);
    }
}

/// One step of a loop that reads a sequence by a reader whose result `f`
/// unfolds into the value read at `cur` and the rest from `e`.
pub proof fn lemma_seq_step<T>(
    f: spec_fn(Seq<char>) -> Option<(int, Seq<T>)>,
    s: Seq<char>,
    pos: int,
    cur: int,
    e: int,
    acc: Seq<T>,
    v: T,
)
    requires
        0 <= pos <= cur < e <= s.len(),
        f(s.skip(cur)) == prepend(e - cur, seq![v], f(s.skip(e))),
        f(s.skip(pos)) == prepend(cur - pos, acc, f(s.skip(cur))),
    ensures
        f(s.skip(pos)) == prepend(e - pos, acc.push(v), f(s.skip(e))),
{
    lemma_prepend_assoc(cur - pos, acc, e - cur, seq![v], f(s.skip(e)));
    assert(acc + seq![v] =~= acc.push(v));
}

/// The start of a loop that reads a sequence.
pub proof fn lemma_seq_start<T>(f: spec_fn(Seq<char>) -> Option<(int, Seq<T>)>, s: Seq<char>, pos: int)
    ensures
        f(s.skip(pos)) == prepend(0, Seq::<T>::empty(), f(s.skip(pos))),
{
    if let Some((m, ws)) = f(s.skip(pos)) {
        assert(Seq::<T>::empty() + ws =~= ws);
    }
}

/// Number of line feeds in `t`.
pub open spec fn count_newlines(t: Seq<char>) -> nat
    decreases t.len(),
{
    if t.len() == 0 {
        0
    } else {
        count_newlines(t.drop_last()) + if t.last() == '\n' {
            1nat
        } else {
            0nat
        }
    }
}

/// The part of `t` after its last line feed (all of `t` if it has none).
pub open spec fn last_line(t: Seq<char>) -> Seq<char>
    decreases t.len(),
{
    if t.len() == 0 {
        t
    } else if t.last() == '\n' {
        Seq::empty()
    } else {
        last_line(t.drop_last()).push(t.last())
    }
}

/// The 1-based line of position `n` of `t`.
pub open spec fn line_of(t: Seq<char>, n: int) -> nat {
    1 + count_newlines(t.take(n))
}

/// The 1-based column of position `n` of `t`, counted in UTF-8 bytes from the
/// start of its line.
pub open spec fn column_of(t: Seq<char>, n: int) -> nat {
    1 + encode_utf8(last_line(t.take(n))).len()
}

pub proof fn lemma_encode_utf8_concat(a: Seq<char>, b: Seq<char>)
    ensures
        encode_utf8(a + b) =~= encode_utf8(a) + encode_utf8(b),
    decreases a.len(),
{
    if a.len() > 0 {
        lemma_encode_utf8_concat(a.drop_first(), b);
        assert((a + b).drop_first() =~= a.drop_first() + b);
        assert((a + b)[0] == a[0]);
    } else {
        assert(a + b =~= b);
    }
}

pub proof fn lemma_scalar_width(c: char)
    ensures
        1 <= encode_scalar(c as u32).len() <= 4,
        (c as u32) < 0x80 ==> encode_scalar(c as u32).len() == 1,
        0x80 <= (c as u32) < 0x800 ==> encode_scalar(c as u32).len() == 2,
        0x800 <= (c as u32) < 0x10000 ==> encode_scalar(c as u32).len() == 3,
        0x10000 <= (c as u32) ==> encode_scalar(c as u32).len() == 4,
{
    vstd::utf8::char_is_scalar(c);
}

pub proof fn lemma_encode_utf8_len(t: Seq<char>)
    ensures
        t.len() <= encode_utf8(t).len(),
    decreases t.len(),
{
    if t.len() > 0 {
        lemma_scalar_width(t[0]);
        lemma_encode_utf8_len(t.drop_first());
    }
}

pub proof fn lemma_last_line_suffix(t: Seq<char>)
    ensures
        last_line(t).len() <= t.len(),
        t =~= t.take(t.len() - last_line(t).len()) + last_line(t),
    decreases t.len(),
{
    if t.len() == 0 {
        assert(t.take(0) + t =~= t);
    } else if t.last() == '\n' {
        assert(t.take(t.len() as int) + Seq::<char>::empty() =~= t);
    } else {
        let d = t.drop_last();
        lemma_last_line_suffix(d);
        let l = last_line(d);
        assert(t.take(t.len() - (l.len() + 1)) =~= d.take(d.len() - l.len()));
        assert(t =~= d.push(t.last()));
        assert(d.take(d.len() - l.len()) + l.push(t.last()) =~= (d.take(d.len() - l.len()) + l).push(
            t.last(),
        ));
    }
}

/// The number of UTF-8 bytes of `c`.
pub fn utf8_width(c: char) -> (w: usize)
    ensures
        w == encode_scalar(c as u32).len(),
{
    proof {
        lemma_scalar_width(c);
    }
    let v = c as u32;
    if v < 0x80 {
        1
    } else if v < 0x800 {
        2
    } else if v < 0x10000 {
        3
    } else {
        4
    }
}

/// The line and column of position `n` of `s`, both 1-based; the column
/// counts UTF-8 bytes from the start of the line.
pub fn locate(s: &[char], n: usize) -> (r: (usize, usize))
    requires
        n <= s@.len(),
        encode_utf8(s@).len() < usize::MAX,
    ensures
        r.0 == line_of(s@, n as int),
        r.1 == column_of(s@, n as int),
{
    let mut line: usize = 1;
    let mut col: usize = 0;
    let mut i: usize = 0;
    proof {
        lemma_encode_utf8_len(s@);
        assert(s@.take(0) =~= Seq::<char>::empty());
    }
    while i < n
        invariant
            i <= n <= s@.len(),
            s@.len() <= encode_utf8(s@).len() < usize::MAX,
            line == 1 + count_newlines(s@.take(i as int)),
            line <= 1 + i,
            col == encode_utf8(last_line(s@.take(i as int))).len(),
            col <= encode_utf8(s@.take(i as int)).len(),
            encode_utf8(s@.take(i as int)).len() <= encode_utf8(s@).len(),
        decreases n - i,
    {
        let c = s[i];
        let w = utf8_width(c);
        proof {
            let p = s@.take(i as int);
            let q = s@.take(i + 1);
            assert(q.drop_last() =~= p);
            assert(q =~= p + seq![c]);
            lemma_encode_utf8_concat(p, seq![c]);
            vstd::utf8::char_is_scalar(c);
            assert(seq![c].drop_first() =~= Seq::<char>::empty());
            assert(encode_utf8(seq![c]) =~= encode_scalar(c as u32) + encode_utf8(seq![c].drop_first()));
            assert(s@ =~= q + s@.skip(i + 1));
            lemma_encode_utf8_concat(q, s@.skip(i + 1));
            if c != '\n' {
                lemma_encode_utf8_concat(last_line(p), seq![c]);
                assert(last_line(p).push(c) =~= last_line(p) + seq![c]);
            }
        }
        if c == '\n' {
            line = line + 1;
            col = 0;
        } else {
            col = col + w;
        }
        i = i + 1;
    }
    proof {
        lemma_last_line_suffix(s@.take(n as int));
    }
    (line, col + 1)
}

} // verus!
