//! Sections: the readers that recognise section headers and their content.
pub mod checklist;
pub mod generic;
pub mod json;
pub mod list;
pub mod node;
pub mod yaml;

use crate::text::{
    char_is, lemma_many0_start, lemma_many0_step, lemma_many0_stop, lemma_many0_stuck,
    lemma_run_len_bound, many0, multispace0, multispace0_at, prepend, space0, space0_at,
    starts_with, starts_with_at, string_chars,
};
use crate::SectionsModel;
use vstd::prelude::*;

verus! {

broadcast use vstd::slice::group_slice_axioms;

/// `"-- "`, which opens every section line.
pub open spec fn section_mark() -> Seq<char> {
    seq!['-', '-', ' ']
}

/// `"-- /"`, which opens an end tag.
pub open spec fn end_mark() -> Seq<char> {
    seq!['-', '-', ' ', '/']
}

/// `"\n--"`, where the data of a section without an end tag stops.
pub open spec fn data_end_mark() -> Seq<char> {
    seq!['\n', '-', '-']
}

/// An end position read from `pos`, as the number of characters consumed.
pub open spec fn end_result(r: Option<usize>, pos: usize) -> Option<int> {
    match r {
        Some(e) => Some(e - pos),
        None => None,
    }
}

/// Spaces or tabs and a line feed; or whitespace to the end of the input.
pub open spec fn spec_empty_until_newline_or_eof(t: Seq<char>) -> Option<int> {
    let a = space0(t) as int;
    if a < t.len() && t[a] == '\n' {
        Some(a + 1)
    } else if multispace0(t) == t.len() {
        Some(t.len() as int)
    } else {
        None
    }
}

/// The end of a section's header line, the blank line after it, and the
/// whitespace that follows.
pub open spec fn spec_header_tail(t: Seq<char>) -> Option<int> {
    match spec_empty_until_newline_or_eof(t) {
        Some(a) => match spec_empty_until_newline_or_eof(t.skip(a)) {
            Some(b) => Some(a + b + multispace0(t.skip(a + b))),
            None => None,
        },
        None => None,
    }
}

pub open spec fn empty_line_fn() -> spec_fn(Seq<char>) -> Option<(int, ())> {
    |t: Seq<char>|
        match spec_empty_until_newline_or_eof(t) {
            Some(n) => Some((n, ())),
            None => None,
        }
}

/// The end of a data section's header line, the blank line after it, and
/// any further empty lines.
pub open spec fn spec_header_gap(t: Seq<char>) -> Option<int> {
    match spec_empty_until_newline_or_eof(t) {
        Some(a) => match spec_empty_until_newline_or_eof(t.skip(a)) {
            Some(b) => match many0(empty_line_fn(), t.skip(a + b)) {
                Some((c, _)) => Some(a + b + c),
                None => None,
            },
            None => None,
        },
        None => None,
    }
}

/// The first of `names` that `t` begins with, and its length.
pub open spec fn spec_tag_finder(t: Seq<char>, names: Seq<Seq<char>>) -> Option<(int, Seq<char>)>
    decreases names.len(),
{
    if names.len() == 0 {
        None
    } else if starts_with(t, names[0]) {
        Some((names[0].len() as int, names[0]))
    } else {
        spec_tag_finder(t, names.drop_first())
    }
}

/// An end tag `-- /key` and the rest of its header.
pub open spec fn spec_end_header(t: Seq<char>, key: Seq<char>) -> Option<int> {
    if starts_with(t, end_mark()) && starts_with(t.skip(4), key) {
        match spec_header_tail(t.skip(4 + key.len() as int)) {
            Some(h) => Some(4 + key.len() + h),
            None => None,
        }
    } else {
        None
    }
}

pub proof fn lemma_empty_until_newline_or_eof_bound(t: Seq<char>)
    ensures
        spec_empty_until_newline_or_eof(t) matches Some(n) ==> 0 <= n <= t.len(),
{
    lemma_run_len_bound(t, |c: char| crate::text::is_space(c));
}

pub proof fn lemma_header_tail_bound(t: Seq<char>)
    ensures
        spec_header_tail(t) matches Some(n) ==> 0 <= n <= t.len(),
{
    lemma_empty_until_newline_or_eof_bound(t);
    if let Some(a) = spec_empty_until_newline_or_eof(t) {
        lemma_empty_until_newline_or_eof_bound(t.skip(a));
        if let Some(b) = spec_empty_until_newline_or_eof(t.skip(a)) {
            lemma_run_len_bound(t.skip(a + b), |c: char| crate::text::is_multispace(c));
        }
    }
}

pub proof fn lemma_tag_finder_bound(t: Seq<char>, names: Seq<Seq<char>>)
    ensures
        spec_tag_finder(t, names) matches Some((n, name)) ==> 0 <= n <= t.len() && n
            == name.len() && t.take(n) == name,
    decreases names.len(),
{
    if names.len() > 0 && !starts_with(t, names[0]) {
        lemma_tag_finder_bound(t, names.drop_first());
    }
}

/// Reads spaces or tabs and a line feed, or whitespace to the end of the
/// input; gives the position after it.
pub fn empty_until_newline_or_eof(s: &[char], pos: usize) -> (r: Option<usize>)
    requires
        pos <= s@.len(),
    ensures
        end_result(r, pos) == spec_empty_until_newline_or_eof(s@.skip(pos as int)),
        r matches Some(e) ==> pos <= e <= s@.len(),
{
    let a = space0_at(s, pos);
    proof {
        lemma_run_len_bound(s@.skip(pos as int), |c: char| crate::text::is_space(c));
    }
    if char_is(s, a, '\n') {
        assert(s@.skip(pos as int)[a - pos] == s@[a as int]);
        Some(a + 1)
    } else {
        let b = multispace0_at(s, pos);
        if b == s.len() {
            Some(b)
        } else {
            None
        }
    }
}

/// Reads the end of a header line, the blank line after it and the
/// whitespace that follows.
pub fn header_tail(s: &[char], pos: usize) -> (r: Option<usize>)
    requires
        pos <= s@.len(),
    ensures
        end_result(r, pos) == spec_header_tail(s@.skip(pos as int)),
        r matches Some(e) ==> pos <= e <= s@.len(),
{
    match empty_until_newline_or_eof(s, pos) {
        Some(a) => {
            assert(s@.skip(pos as int).skip(a - pos) =~= s@.skip(a as int));
            match empty_until_newline_or_eof(s, a) {
                Some(b) => {
                    assert(s@.skip(pos as int).skip(b - pos) =~= s@.skip(b as int));
                    let c = multispace0_at(s, b);
                    Some(c)
                },
                None => None,
            }
        },
        None => None,
    }
}

/// Reads the end of a data section's header line, the blank line after it
/// and any further empty lines.
pub fn header_gap(s: &[char], pos: usize) -> (r: Option<usize>)
    requires
        pos <= s@.len(),
    ensures
        end_result(r, pos) == spec_header_gap(s@.skip(pos as int)),
        r matches Some(e) ==> pos <= e <= s@.len(),
{
    let a = match empty_until_newline_or_eof(s, pos) {
        Some(a) => a,
        None => return None,
    };
    assert(s@.skip(pos as int).skip(a - pos) =~= s@.skip(a as int));
    let b = match empty_until_newline_or_eof(s, a) {
        Some(b) => b,
        None => return None,
    };
    assert(s@.skip(pos as int).skip(b - pos) =~= s@.skip(b as int));
    let mut cur = b;
    let ghost units: Seq<()> = Seq::empty();
    proof {
        lemma_many0_start(empty_line_fn(), s@, b as int);
    }
    loop
        invariant
            pos <= b <= cur <= s@.len(),
            spec_empty_until_newline_or_eof(s@.skip(pos as int)) == Some(a - pos),
            spec_empty_until_newline_or_eof(s@.skip(a as int)) == Some(b - a),
            s@.skip(pos as int).skip(a - pos) =~= s@.skip(a as int),
            s@.skip(pos as int).skip(b - pos) =~= s@.skip(b as int),
            many0(empty_line_fn(), s@.skip(b as int)) == prepend(
                cur - b,
                units,
                many0(empty_line_fn(), s@.skip(cur as int)),
            ),
        decreases s.len() - cur,
    {
        match empty_until_newline_or_eof(s, cur) {
            None => {
                proof {
                    lemma_many0_stop(empty_line_fn(), s@, b as int, cur as int, units);
                }
                return Some(cur);
            },
            Some(e) => {
                if e == cur {
                    proof {
                        lemma_many0_stuck(empty_line_fn(), s@, b as int, cur as int, units, ());
                    }
                    return None;
                }
                proof {
                    lemma_many0_step(empty_line_fn(), s@, b as int, cur as int, e as int, units, ());
                    units = units.push(());
                }
                cur = e;
            },
        }
    }
}

/// Reads the first of `names` that the input at `pos` begins with; gives the
/// position after it and the name.
pub fn tag_finder(s: &[char], pos: usize, names: &Vec<String>) -> (r: Option<(usize, String)>)
    requires
        pos <= s@.len(),
    ensures
        match r {
            Some((e, name)) => spec_tag_finder(s@.skip(pos as int), crate::names_model(names@))
                == Some((e - pos, name@)) && pos <= e <= s@.len(),
            None => spec_tag_finder(s@.skip(pos as int), crate::names_model(names@)) is None,
        },
{
    let ghost all = crate::names_model(names@);
    let mut i: usize = 0;
    assert(all.skip(0) =~= all);
    while i < names.len()
        invariant
            i <= names@.len(),
            pos <= s@.len(),
            all == crate::names_model(names@),
            spec_tag_finder(s@.skip(pos as int), all) == spec_tag_finder(
                s@.skip(pos as int),
                all.skip(i as int),
            ),
        decreases names.len() - i,
    {
        let chars = string_chars(&names[i]);
        assert(all.skip(i as int)[0] == names@[i as int]@);
        if starts_with_at(s, pos, chars.as_slice()) {
            return Some((pos + chars.len(), names[i].clone()));
        }
        assert(all.skip(i as int).drop_first() =~= all.skip(i + 1));
        i = i + 1;
    }
    None
}

/// Reads an end tag `-- /key` and the rest of its header.
pub fn end_header(s: &[char], pos: usize, key: &[char]) -> (r: Option<usize>)
    requires
        pos <= s@.len(),
    ensures
        end_result(r, pos) == spec_end_header(s@.skip(pos as int), key@),
        r matches Some(e) ==> pos <= e <= s@.len(),
{
    let mark = vec!['-', '-', ' ', '/'];
    if !starts_with_at(s, pos, mark.as_slice()) {
        return None;
    }
    assert(s@.skip(pos as int).skip(4) =~= s@.skip(pos + 4));
    if !starts_with_at(s, pos + 4, key) {
        return None;
    }
    assert(s@.skip(pos as int).skip(4 + key@.len() as int) =~= s@.skip(pos + 4 + key@.len()));
    header_tail(s, pos + 4 + key.len())
}

/// The first section of any kind that the input begins with, trying in
/// order: checklist, JSON, list, YAML, generic; each kind without an end tag
/// before the kind with one.
#[verifier::opaque]
pub open spec fn spec_start_or_full_section(t: Seq<char>, sec: SectionsModel) -> Option<
    (int, node::NodeModel),
>
    decreases t.len(), 2int,
{
    first(checklist::spec_checklist_section_full(t, sec),
    first(checklist::spec_checklist_section_start(t, sec),
    first(json::spec_json_section_full(t),
    first(json::spec_json_section_start(t),
    first(list::spec_list_section_full(t, sec),
    first(list::spec_list_section_start(t, sec),
    first(yaml::spec_yaml_section_full(t),
    first(yaml::spec_yaml_section_start(t),
    first(generic::spec_generic_section_full(t),
    generic::spec_generic_section_start(t, sec))))))))))
}

/// `a` where it holds a value, else `b`.
pub open spec fn first<T>(a: Option<T>, b: Option<T>) -> Option<T> {
    match a {
        Some(x) => Some(x),
        None => b,
    }
}

/// Reads the first section of any kind that the input at `pos` begins with.
pub fn start_or_full_section(s: &[char], pos: usize, sections: &crate::Sections) -> (r: Option<
    (usize, node::Node),
>)
    requires
        pos <= s@.len(),
    ensures
        node::node_result(r, pos) == spec_start_or_full_section(s@.skip(pos as int), sections.model()),
        r matches Some((e, _)) ==> pos <= e <= s@.len(),
    decreases s@.len() - pos, 1int,
{
    proof {
        reveal_with_fuel(spec_start_or_full_section, 2);
    }
    if let Some(r) = checklist::checklist_section_full(s, pos, sections) {
        return Some(r);
    }
    if let Some(r) = checklist::checklist_section_start(s, pos, sections) {
        return Some(r);
    }
    if let Some(r) = json::json_section_full(s, pos) {
        return Some(r);
    }
    if let Some(r) = json::json_section_start(s, pos) {
        return Some(r);
    }
    if let Some(r) = list::list_section_full(s, pos, sections) {
        return Some(r);
    }
    if let Some(r) = list::list_section_start(s, pos, sections) {
        return Some(r);
    }
    if let Some(r) = yaml::yaml_section_full(s, pos) {
        return Some(r);
    }
    if let Some(r) = yaml::yaml_section_start(s, pos) {
        return Some(r);
    }
    if let Some(r) = generic::generic_section_full(s, pos) {
        return Some(r);
    }
    generic::generic_section_start(s, pos, sections)
}

} // verus!
