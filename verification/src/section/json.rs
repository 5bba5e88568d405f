//! JSON sections: a header, then data kept as text.
use crate::section::node::{Node, NodeModel, lemma_nodes_model_empty, node_result};
use crate::section::{data_end_mark, end_mark, header_gap, section_mark, spec_header_gap};
use crate::text::{
    chars_to_string, find, find_at, lemma_find_bound, multispace0, multispace0_at, starts_with,
    starts_with_at, trim_end, trim_end_at,
};
use vstd::prelude::*;

verus! {

broadcast use vstd::slice::group_slice_axioms;

/// The name of JSON sections.
pub open spec fn json_tag_text() -> Seq<char> {
    seq!['m', 'e', 't', 'a', 'd', 'a', 't', 'a']
}

/// The name of a JSON section at the start of `t`.
pub open spec fn spec_json_section_tag(t: Seq<char>) -> Option<(int, Seq<char>)> {
    if starts_with(t, json_tag_text()) {
        Some((8, json_tag_text()))
    } else {
        None
    }
}

/// A JSON section without an end tag: its data runs to the next line that
/// starts with `--`, or to the end of the input.
pub open spec fn spec_json_section_full(t: Seq<char>) -> Option<(int, NodeModel)> {
    if !starts_with(t, section_mark()) {
        None
    } else {
        match spec_json_section_tag(t.skip(3)) {
            None => None,
            Some((k, kind)) => match spec_header_gap(t.skip(3 + k)) {
                None => None,
                Some(g) => {
                    let p = 3 + k + g;
                    let u = t.skip(p);
                    let d = match find(u, data_end_mark()) {
                        Some(i) => i,
                        None => u.len() as int,
                    };
                    Some(
                        (
                            p + d + multispace0(u.skip(d)),
                            NodeModel::Json {
                                bounds: "full"@,
                                kind: kind,
                                data: Some(trim_end(u.take(d))),
                                children: Seq::empty(),
                            },
                        ),
                    )
                },
            },
        }
    }
}

/// A JSON section that runs to its end tag `-- /name`: its data runs to the
/// first end tag, which is read with the whitespace after it; the section
/// has no children.
pub open spec fn spec_json_section_start(t: Seq<char>) -> Option<(int, NodeModel)> {
    if !starts_with(t, section_mark()) {
        None
    } else {
        match spec_json_section_tag(t.skip(3)) {
            None => None,
            Some((k, kind)) => if !starts_with(t.skip(3 + k), seq!['/']) {
                None
            } else {
                match spec_header_gap(t.skip(3 + k + 1)) {
                    None => None,
                    Some(g) => {
                        let p = 3 + k + 1 + g;
                        let u = t.skip(p);
                        let tag = end_mark() + kind;
                        match find(u, tag) {
                            None => None,
                            Some(d) => {
                                let q = d + tag.len();
                                Some(
                                    (
                                        p + q + multispace0(u.skip(q)),
                                        NodeModel::Json {
                                            bounds: "start"@,
                                            kind: kind,
                                            data: Some(trim_end(u.take(d))),
                                            children: Seq::empty(),
                                        },
                                    ),
                                )
                            },
                        }
                    },
                }
            },
        }
    }
}

/// Reads the name of a JSON section; gives the position after it.
pub fn json_section_tag(s: &[char], pos: usize) -> (r: Option<usize>)
    requires
        pos <= s@.len(),
    ensures
        match r {
            Some(e) => spec_json_section_tag(s@.skip(pos as int)) == Some(
                (e - pos, json_tag_text()),
            ) && e == pos + 8 && e <= s@.len(),
            None => spec_json_section_tag(s@.skip(pos as int)) is None,
        },
{
    let name = vec!['m', 'e', 't', 'a', 'd', 'a', 't', 'a'];
    if starts_with_at(s, pos, name.as_slice()) {
        Some(pos + 8)
    } else {
        None
    }
}

/// The end of a JSON section needs no reader of its own: its end tag is
/// read by [`json_section_start`]. This reads nothing.
pub fn json_section_end() {
}

/// Reads a JSON section without an end tag.
#[verifier::spinoff_prover]
#[verifier::rlimit(50)]
pub fn json_section_full(s: &[char], pos: usize) -> (r: Option<(usize, Node)>)
    requires
        pos <= s@.len(),
    ensures
        node_result(r, pos) == spec_json_section_full(s@.skip(pos as int)),
        r matches Some((e, _)) ==> pos <= e <= s@.len(),
{
    let ghost t = s@.skip(pos as int);
    let mark = vec!['-', '-', ' '];
    if !starts_with_at(s, pos, mark.as_slice()) {
        return None;
    }
    assert(t.skip(3) =~= s@.skip(pos + 3));
    let k = match json_section_tag(s, pos + 3) {
        Some(k) => k,
        None => return None,
    };
    assert(t.skip(k - pos) =~= s@.skip(k as int));
    let p = match header_gap(s, k) {
        Some(p) => p,
        None => return None,
    };
    assert(t.skip(p - pos) =~= s@.skip(p as int));
    let dmark = vec!['\n', '-', '-'];
    let d = match find_at(s, p, dmark.as_slice()) {
        Some(d) => d,
        None => s.len(),
    };
    let ghost u = s@.skip(p as int);
    assert(u.skip(d - p) =~= s@.skip(d as int));
    assert(u.take(d - p) =~= s@.subrange(p as int, d as int));
    let e = multispace0_at(s, d);
    let te = trim_end_at(s, p, d);
    let data = chars_to_string(s, p, te);
    assert(s@.subrange(p as int, te as int) =~= trim_end(u.take(d - p)));
    let kind = chars_to_string(s, pos + 3, k);
    assert(s@.subrange(pos + 3, k as int) =~= json_tag_text());
    let children: Vec<Node> = Vec::new();
    proof {
        lemma_nodes_model_empty();
    }
    Some((e, Node::Json { bounds: String::from_str("full"), kind, data: Some(data), children }))
}

/// Reads a JSON section that runs to its end tag.
#[verifier::spinoff_prover]
#[verifier::rlimit(50)]
pub fn json_section_start(s: &[char], pos: usize) -> (r: Option<(usize, Node)>)
    requires
        pos <= s@.len(),
    ensures
        node_result(r, pos) == spec_json_section_start(s@.skip(pos as int)),
        r matches Some((e, _)) ==> pos <= e <= s@.len(),
{
    let ghost t = s@.skip(pos as int);
    let mark = vec!['-', '-', ' '];
    if !starts_with_at(s, pos, mark.as_slice()) {
        return None;
    }
    assert(t.skip(3) =~= s@.skip(pos + 3));
    let k = match json_section_tag(s, pos + 3) {
        Some(k) => k,
        None => return None,
    };
    assert(t.skip(k - pos) =~= s@.skip(k as int));
    let slash = vec!['/'];
    if !starts_with_at(s, k, slash.as_slice()) {
        return None;
    }
    assert(t.skip(k + 1 - pos) =~= s@.skip(k + 1));
    let p = match header_gap(s, k + 1) {
        Some(p) => p,
        None => return None,
    };
    assert(t.skip(p - pos) =~= s@.skip(p as int));
    let end_key = vec!['-', '-', ' ', '/', 'm', 'e', 't', 'a', 'd', 'a', 't', 'a'];
    assert(end_key@ =~= end_mark() + json_tag_text());
    assert(s@.subrange(pos + 3, k as int) =~= json_tag_text());
    let ghost u = s@.skip(p as int);
    let d = match find_at(s, p, end_key.as_slice()) {
        Some(d) => d,
        None => return None,
    };
    assert(u.skip(d - p) =~= s@.skip(d as int));
    assert(u.take(d - p) =~= s@.subrange(p as int, d as int));
    proof {
        lemma_find_bound(u, end_key@);
    }
    let q = d + 12;
    assert(u.skip(q - p) =~= s@.skip(q as int));
    let e = multispace0_at(s, q);
    let te = trim_end_at(s, p, d);
    let data = chars_to_string(s, p, te);
    assert(s@.subrange(p as int, te as int) =~= trim_end(u.take(d - p)));
    let kind = chars_to_string(s, pos + 3, k);
    let children: Vec<Node> = Vec::new();
    proof {
        lemma_nodes_model_empty();
    }
    Some((e, Node::Json { bounds: String::from_str("start"), kind, data: Some(data), children }))
}

} // verus!
