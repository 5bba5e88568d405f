//! A parser for section-structured documents and a renderer to HTML.
use vstd::prelude::*;
use vstd::utf8::encode_utf8;

use crate::block::nodes_result;
use crate::section::node::{Node, NodeModel, lemma_nodes_model_push, nodes_model};
use crate::section::{spec_start_or_full_section, start_or_full_section};
use crate::text::{
    chars_to_string, column_of, lemma_many0_start, lemma_many0_step, lemma_many0_stop,
    lemma_many0_stuck, line_of, locate, many0, prepend, str_chars,
};

pub mod block;
pub mod properties;
pub mod reading;
pub mod render;
pub mod section;
pub mod span;
pub mod text;

pub use crate::render::{output, output_spans};

verus! {

/// The section names that a document may use, by kind of section.
#[derive(Debug)]
pub struct Sections {
    pub basic: Vec<String>,
    pub checklist: Vec<String>,
    pub comment: Vec<String>,
    pub detail: Vec<String>,
    pub generic: Vec<String>,
    pub json: Vec<String>,
    pub list: Vec<String>,
    pub raw: Vec<String>,
    pub table: Vec<String>,
    pub yaml: Vec<String>,
}

/// Names as character sequences.
pub open spec fn names_model(v: Seq<String>) -> Seq<Seq<char>> {
    v.map_values(|x: String| x@)
}

/// The section names that the grammar reads: those of checklists and lists.
pub struct SectionsModel {
    pub checklist: Seq<Seq<char>>,
    pub list: Seq<Seq<char>>,
}

impl Sections {
    pub open spec fn model(&self) -> SectionsModel {
        SectionsModel { checklist: names_model(self.checklist@), list: names_model(self.list@) }
    }
}

/// Where and why a document could not be read.
#[derive(Debug)]
pub struct ParserError {
    pub line: usize,
    pub column: usize,
    pub remainder: String,
    pub source: String,
    pub message: String,
}

/// The mathematical value of a [`ParserError`].
pub struct ParserErrorModel {
    pub line: nat,
    pub column: nat,
    pub remainder: Seq<char>,
    pub source: Seq<char>,
    pub message: Seq<char>,
}

impl ParserError {
    pub open spec fn model(&self) -> ParserErrorModel {
        ParserErrorModel {
            line: self.line as nat,
            column: self.column as nat,
            remainder: self.remainder@,
            source: self.source@,
            message: self.message@,
        }
    }
}

/// The error reported at position `n` of `t` with `message`: its line and
/// column, the text from there on, the whole text and the message.
pub open spec fn error_at(t: Seq<char>, n: int, message: Seq<char>) -> ParserErrorModel {
    ParserErrorModel {
        line: line_of(t, n),
        column: column_of(t, n),
        remainder: t.skip(n),
        source: t,
        message: message,
    }
}

pub open spec fn sections_fn(sec: SectionsModel) -> spec_fn(Seq<char>) -> Option<(int, NodeModel)> {
    |t: Seq<char>| spec_start_or_full_section(t, sec)
}

/// One or more sections, one after another, as many as there are.
pub open spec fn spec_parse_runner(t: Seq<char>, sec: SectionsModel) -> Option<
    (int, Seq<NodeModel>),
> {
    match many0(sections_fn(sec), t) {
        Some((n, v)) => if v.len() > 0 {
            Some((n, v))
        } else {
            None
        },
        None => None,
    }
}

/// What reading a whole document gives: its sections where they take up all
/// of it; else the error "expected eof" where the sections stop, or, where
/// not even one section can be read, the error `in section ""` at its start.
pub open spec fn spec_parse(t: Seq<char>, sec: SectionsModel) -> Result<
    Seq<NodeModel>,
    ParserErrorModel,
> {
    match spec_parse_runner(t, sec) {
        Some((n, v)) => if n == t.len() {
            Ok(v)
        } else {
            Err(error_at(t, n, "expected eof"@))
        },
        None => Err(error_at(t, 0, "in section \"\""@)),
    }
}

/// Builds the error reported at position `at` of `content`.
pub fn get_error(content: &str, chars: &[char], at: usize, message: &str) -> (r: ParserError)
    requires
        chars@ == content@,
        at <= chars@.len(),
        encode_utf8(content@).len() < usize::MAX,
    ensures
        r.model() == error_at(content@, at as int, message@),
{
    let (line, column) = locate(chars, at);
    let remainder = chars_to_string(chars, at, chars.len());
    assert(chars@.subrange(at as int, chars@.len() as int) =~= chars@.skip(at as int));
    ParserError {
        line,
        column,
        remainder,
        source: String::from_str(content),
        message: String::from_str(message),
    }
}

/// Reads one or more sections from the start of `s`.
pub fn parse_runner(s: &[char], sections: &Sections) -> (r: Option<(usize, Vec<Node>)>)
    ensures
        nodes_result(r, 0) == spec_parse_runner(s@, sections.model()),
        r matches Some((e, _)) ==> e <= s@.len(),
{
    let ghost sec = sections.model();
    let mut acc: Vec<Node> = Vec::new();
    let mut cur: usize = 0;
    proof {
        lemma_many0_start(sections_fn(sec), s@, 0);
        assert(s@.skip(0) =~= s@);
    }
    loop
        invariant
            cur <= s@.len(),
            sec == sections.model(),
            s@.skip(0) == s@,
            many0(sections_fn(sec), s@.skip(0)) == prepend(
                cur as int,
                nodes_model(acc@),
                many0(sections_fn(sec), s@.skip(cur as int)),
            ),
        decreases s.len() - cur,
    {
        match start_or_full_section(s, cur, sections) {
            None => {
                proof {
                    lemma_many0_stop(sections_fn(sec), s@, 0, cur as int, nodes_model(acc@));
                }
                if acc.len() == 0 {
                    return None;
                }
                return Some((cur, acc));
            },
            Some((e, b)) => {
                if e == cur {
                    proof {
                        lemma_many0_stuck(sections_fn(sec), s@, 0, cur as int, nodes_model(acc@), b.model());
                    }
                    return None;
                }
                proof {
                    lemma_many0_step(sections_fn(sec), s@, 0, cur as int, e as int, nodes_model(acc@), b.model());
                    lemma_nodes_model_push(acc@, b);
                }
                acc.push(b);
                cur = e;
            },
        }
    }
}

/// Reads a whole document of sections.
///
/// `sections` gives the names of checklist and list sections; `spans` names
/// inline spans, of which the grammar reads none, so it does not change the
/// result. A successful read gives a tree that can be rendered, in which
/// each section that keeps a node for its end tag ends with it.
pub fn parse(source: &str, sections: &Sections, spans: &Vec<String>) -> (r: Result<
    Vec<Node>,
    ParserError,
>)
    requires
        encode_utf8(source@).len() < usize::MAX,
    ensures
        match r {
            Ok(v) => spec_parse(source@, sections.model()) == Ok::<Seq<NodeModel>, ParserErrorModel>(nodes_model(v@)),
            Err(e) => spec_parse(source@, sections.model()) == Err::<Seq<NodeModel>, ParserErrorModel>(e.model()),
        },
        r matches Ok(v) ==> crate::render::renderable(nodes_model(v@)),
        r matches Ok(v) ==> crate::section::node::closed(nodes_model(v@)),
{
    proof {
        crate::properties::lemma_parse_renderable(source@, sections.model());
        crate::properties::lemma_parse_closed(source@, sections.model());
    }
    let chars = str_chars(source);
    match parse_runner(chars.as_slice(), sections) {
        Some((n, ast)) => {
            if n == chars.len() {
                Ok(ast)
            } else {
                Err(get_error(source, chars.as_slice(), n, "expected eof"))
            }
        },
        None => Err(get_error(source, chars.as_slice(), 0, "in section \"\"")),
    }
}

} // verus!
