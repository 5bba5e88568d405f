//! Inline spans: the pieces a block of text is read into, and their readers.
use crate::text::{
    chars_to_string, ends_word, is_space, lemma_many0_start, lemma_many0_step, lemma_many0_stop,
    lemma_run_len_bound, line_ending, line_ending_at, many0, prepend, run_len, space0, space0_at,
    word_end_at,
};
use vstd::prelude::*;

verus! {

broadcast use vstd::slice::group_slice_axioms;

/// An inline piece of a block.
#[derive(Debug)]
pub enum Span {
    Button { attrs: Vec<(String, String)>, flags: Vec<String>, text: String },
    Code { attrs: Vec<(String, String)>, flags: Vec<String>, text: String },
    Em { attrs: Vec<(String, String)>, flags: Vec<String>, text: String },
    KnownSpan {
        kind: String,
        spans: Vec<Span>,
        attrs: Vec<(String, String)>,
        flags: Vec<String>,
    },
    Newline { text: String },
    Space { text: String },
    Strong { attrs: Vec<(String, String)>, flags: Vec<String>, text: String },
    UnknownSpan {
        kind: String,
        spans: Vec<Span>,
        attrs: Vec<(String, String)>,
        flags: Vec<String>,
    },
    WordPart { text: String },
}

/// The mathematical value of a [`Span`]: its strings as character sequences.
pub enum SpanModel {
    Button { attrs: Seq<(Seq<char>, Seq<char>)>, flags: Seq<Seq<char>>, text: Seq<char> },
    Code { attrs: Seq<(Seq<char>, Seq<char>)>, flags: Seq<Seq<char>>, text: Seq<char> },
    Em { attrs: Seq<(Seq<char>, Seq<char>)>, flags: Seq<Seq<char>>, text: Seq<char> },
    KnownSpan {
        kind: Seq<char>,
        spans: Seq<SpanModel>,
        attrs: Seq<(Seq<char>, Seq<char>)>,
        flags: Seq<Seq<char>>,
    },
    Newline { text: Seq<char> },
    Space { text: Seq<char> },
    Strong { attrs: Seq<(Seq<char>, Seq<char>)>, flags: Seq<Seq<char>>, text: Seq<char> },
    UnknownSpan {
        kind: Seq<char>,
        spans: Seq<SpanModel>,
        attrs: Seq<(Seq<char>, Seq<char>)>,
        flags: Seq<Seq<char>>,
    },
    WordPart { text: Seq<char> },
}

/// The attributes of a span as pairs of character sequences.
pub open spec fn attrs_model(a: Seq<(String, String)>) -> Seq<(Seq<char>, Seq<char>)> {
    a.map_values(|p: (String, String)| (p.0@, p.1@))
}

/// The flags of a span as character sequences.
pub open spec fn flags_model(f: Seq<String>) -> Seq<Seq<char>> {
    f.map_values(|x: String| x@)
}

impl Span {
    pub open spec fn model(&self) -> SpanModel
        decreases self,
    {
        match self {
            Span::Button { attrs, flags, text } => SpanModel::Button {
                attrs: attrs_model(attrs@),
                flags: flags_model(flags@),
                text: text@,
            },
            Span::Code { attrs, flags, text } => SpanModel::Code {
                attrs: attrs_model(attrs@),
                flags: flags_model(flags@),
                text: text@,
            },
            Span::Em { attrs, flags, text } => SpanModel::Em {
                attrs: attrs_model(attrs@),
                flags: flags_model(flags@),
                text: text@,
            },
            Span::KnownSpan { kind, spans, attrs, flags } => SpanModel::KnownSpan {
                kind: kind@,
                spans: spans_model(spans@),
                attrs: attrs_model(attrs@),
                flags: flags_model(flags@),
            },
            Span::Newline { text } => SpanModel::Newline { text: text@ },
            Span::Space { text } => SpanModel::Space { text: text@ },
            Span::Strong { attrs, flags, text } => SpanModel::Strong {
                attrs: attrs_model(attrs@),
                flags: flags_model(flags@),
                text: text@,
            },
            Span::UnknownSpan { kind, spans, attrs, flags } => SpanModel::UnknownSpan {
                kind: kind@,
                spans: spans_model(spans@),
                attrs: attrs_model(attrs@),
                flags: flags_model(flags@),
            },
            Span::WordPart { text } => SpanModel::WordPart { text: text@ },
        }
    }
}

/// The models of a sequence of spans, in order.
pub open spec fn spans_model(s: Seq<Span>) -> Seq<SpanModel>
    decreases s,
{
    if s.len() == 0 {
        Seq::empty()
    } else {
        spans_model(s.drop_last()).push(s.last().model())
    }
}

pub proof fn lemma_spans_model(s: Seq<Span>)
    ensures
        spans_model(s).len() == s.len(),
        forall|i: int| 0 <= i < s.len() ==> #[trigger] spans_model(s)[i] == s[i].model(),
    decreases s.len(),
{
    if s.len() > 0 {
        lemma_spans_model(s.drop_last());
    }
}

pub proof fn lemma_spans_model_push(s: Seq<Span>, x: Span)
    ensures
        spans_model(s.push(x)) == spans_model(s).push(x.model()),
{
    assert(s.push(x).drop_last() =~= s);
}

/// A span read from the start of `t`, with the characters it consumed.
pub open spec fn span_result(r: Option<(usize, Span)>, pos: usize) -> Option<(int, SpanModel)> {
    match r {
        Some((e, sp)) => Some((e - pos, sp.model())),
        None => None,
    }
}

/// Spaces or tabs, then a line ending; the span holds the line ending.
pub open spec fn spec_newline(t: Seq<char>) -> Option<(int, SpanModel)> {
    let a = space0(t) as int;
    match line_ending(t.skip(a)) {
        Some(k) => Some((a + k, SpanModel::Space { text: t.subrange(a, a + k) })),
        None => None,
    }
}

/// One or more spaces or tabs.
pub open spec fn spec_space(t: Seq<char>) -> Option<(int, SpanModel)> {
    let a = space0(t) as int;
    if a > 0 {
        Some((a, SpanModel::Space { text: t.take(a) }))
    } else {
        None
    }
}

/// One or more characters that are neither space nor line feed.
pub open spec fn spec_word_part(t: Seq<char>) -> Option<(int, SpanModel)> {
    let k = run_len(t, |c: char| !ends_word(c)) as int;
    if k > 0 {
        Some((k, SpanModel::WordPart { text: t.take(k) }))
    } else {
        None
    }
}

/// The first of a line ending, a run of spaces, or a word part.
pub open spec fn spec_span(t: Seq<char>) -> Option<(int, SpanModel)> {
    match spec_newline(t) {
        Some(r) => Some(r),
        None => match spec_space(t) {
            Some(r) => Some(r),
            None => spec_word_part(t),
        },
    }
}

/// `t` begins with a blank line: a line ending, then a line of nothing but
/// spaces or tabs that ends too.
pub open spec fn paragraph_break(t: Seq<char>) -> bool {
    let a = space0(t) as int;
    match line_ending(t.skip(a)) {
        Some(k) => {
            let u = t.skip(a + k);
            line_ending(u.skip(space0(u) as int)) is Some
        },
        None => false,
    }
}

/// A span that does not start a paragraph break.
pub open spec fn spec_span_finder(t: Seq<char>) -> Option<(int, SpanModel)> {
    if paragraph_break(t) {
        None
    } else {
        spec_span(t)
    }
}

pub open spec fn span_finder_fn() -> spec_fn(Seq<char>) -> Option<(int, SpanModel)> {
    |t: Seq<char>| spec_span_finder(t)
}

/// The spans of a paragraph: spans until a paragraph break or the end.
pub open spec fn spec_spans(t: Seq<char>) -> Option<(int, Seq<SpanModel>)> {
    many0(span_finder_fn(), t)
}

proof fn lemma_space0_skip(s: Seq<char>, pos: int, a: int)
    requires
        0 <= pos <= s.len(),
        a == pos + space0(s.skip(pos)),
    ensures
        pos <= a <= s.len(),
        s.skip(pos).skip(a - pos) =~= s.skip(a),
{
    lemma_run_len_bound(s.skip(pos), |c: char| is_space(c));
}

/// Reads spaces or tabs followed by a line ending (kept as a space span
/// holding the line ending).
pub fn newline(s: &[char], pos: usize) -> (r: Option<(usize, Span)>)
    requires
        pos <= s@.len(),
    ensures
        span_result(r, pos) == spec_newline(s@.skip(pos as int)),
        r matches Some((e, _)) ==> pos < e <= s@.len(),
{
    let a = space0_at(s, pos);
    proof {
        lemma_space0_skip(s@, pos as int, a as int);
    }
    match line_ending_at(s, a) {
        Some(k) => {
            let text = chars_to_string(s, a, a + k);
            assert(s@.subrange(a as int, a + k) =~= s@.skip(pos as int).subrange(
                a - pos,
                a - pos + k,
            ));
            Some((a + k, Span::Space { text }))
        },
        None => None,
    }
}

/// Reads a run of one or more spaces or tabs.
pub fn space(s: &[char], pos: usize) -> (r: Option<(usize, Span)>)
    requires
        pos <= s@.len(),
    ensures
        span_result(r, pos) == spec_space(s@.skip(pos as int)),
        r matches Some((e, _)) ==> pos < e <= s@.len(),
{
    let a = space0_at(s, pos);
    proof {
        lemma_space0_skip(s@, pos as int, a as int);
    }
    if a > pos {
        let text = chars_to_string(s, pos, a);
        assert(s@.subrange(pos as int, a as int) =~= s@.skip(pos as int).take(a - pos));
        Some((a, Span::Space { text }))
    } else {
        None
    }
}

/// Reads a run of one or more characters that are neither space nor line feed.
pub fn word_part(s: &[char], pos: usize) -> (r: Option<(usize, Span)>)
    requires
        pos <= s@.len(),
    ensures
        span_result(r, pos) == spec_word_part(s@.skip(pos as int)),
        r matches Some((e, _)) ==> pos < e <= s@.len(),
{
    let e = word_end_at(s, pos);
    if e > pos {
        let text = chars_to_string(s, pos, e);
        assert(s@.subrange(pos as int, e as int) =~= s@.skip(pos as int).take(e - pos));
        Some((e, Span::WordPart { text }))
    } else {
        None
    }
}

/// Reads one span: a line ending, a run of spaces, or a word part, the first
/// that applies.
pub fn span(s: &[char], pos: usize) -> (r: Option<(usize, Span)>)
    requires
        pos <= s@.len(),
    ensures
        span_result(r, pos) == spec_span(s@.skip(pos as int)),
        r matches Some((e, _)) ==> pos < e <= s@.len(),
{
    match newline(s, pos) {
        Some(r) => Some(r),
        None => match space(s, pos) {
            Some(r) => Some(r),
            None => word_part(s, pos),
        },
    }
}

/// Whether a blank line starts at `pos`.
pub fn paragraph_break_at(s: &[char], pos: usize) -> (r: bool)
    requires
        pos <= s@.len(),
    ensures
        r == paragraph_break(s@.skip(pos as int)),
{
    let a = space0_at(s, pos);
    proof {
        lemma_space0_skip(s@, pos as int, a as int);
    }
    match line_ending_at(s, a) {
        Some(k) => {
            let b = space0_at(s, a + k);
            proof {
                lemma_space0_skip(s@, (a + k) as int, b as int);
                assert(s@.skip(pos as int).skip(a - pos + k) =~= s@.skip(a + k));
            }
            line_ending_at(s, b).is_some()
        },
        None => false,
    }
}

/// Reads one span unless a paragraph break starts at `pos`.
pub fn span_finder(s: &[char], pos: usize) -> (r: Option<(usize, Span)>)
    requires
        pos <= s@.len(),
    ensures
        span_result(r, pos) == spec_span_finder(s@.skip(pos as int)),
        r matches Some((e, _)) ==> pos < e <= s@.len(),
{
    if paragraph_break_at(s, pos) {
        None
    } else {
        span(s, pos)
    }
}

/// Reads the spans of a paragraph from `pos`: spans until a paragraph break
/// or the end of the input.
pub fn spans_at(s: &[char], pos: usize) -> (r: Option<(usize, Vec<Span>)>)
    requires
        pos <= s@.len(),
    ensures
        match r {
            Some((e, v)) => spec_spans(s@.skip(pos as int)) == Some((e - pos, spans_model(v@)))
                && pos <= e <= s@.len(),
            None => spec_spans(s@.skip(pos as int)) is None,
        },
{
    let mut acc: Vec<Span> = Vec::new();
    let mut cur = pos;
    proof {
        lemma_many0_start(span_finder_fn(), s@, pos as int);
    }
    loop
        invariant
            pos <= cur <= s@.len(),
            many0(span_finder_fn(), s@.skip(pos as int)) == prepend(
                cur - pos,
                spans_model(acc@),
                many0(span_finder_fn(), s@.skip(cur as int)),
            ),
        decreases s.len() - cur,
    {
        match span_finder(s, cur) {
            None => {
                proof {
                    lemma_many0_stop(span_finder_fn(), s@, pos as int, cur as int, spans_model(acc@));
                }
                return Some((cur, acc));
            },
            Some((e, sp)) => {
                proof {
                    lemma_many0_step(
                        span_finder_fn(),
                        s@,
                        pos as int,
                        cur as int,
                        e as int,
                        spans_model(acc@),
                        sp.model(),
                    );
                    lemma_spans_model_push(acc@, sp);
                }
                acc.push(sp);
                cur = e;
            },
        }
    }
}

} // verus!
