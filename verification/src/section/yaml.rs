//! YAML sections: a header, then data kept as text.
use crate::block::{BlockGuard, blocks, spec_blocks};
use crate::section::node::{
    Node, NodeModel, lemma_nodes_model_empty, lemma_nodes_model_push, node_result, nodes_model,
};
use crate::section::{
    data_end_mark, end_header, end_mark, header_gap, section_mark, spec_end_header, spec_header_gap,
};
use crate::text::{
    chars_to_string, find, find_at, multispace0, multispace0_at, starts_with, starts_with_at,
    trim_end, trim_end_at,
};
use vstd::prelude::*;

verus! {

broadcast use vstd::slice::group_slice_axioms;

/// The name of YAML sections.
pub open spec fn yaml_tag_text() -> Seq<char> {
    seq!['y', 'a', 'm', 'l', '-', 'e', 'x', 'a', 'm', 'p', 'l', 'e']
}

/// The name of a YAML section at the start of `t`.
pub open spec fn spec_yaml_section_tag(t: Seq<char>) -> Option<(int, Seq<char>)> {
    if starts_with(t, yaml_tag_text()) {
        Some((12, yaml_tag_text()))
    } else {
        None
    }
}

/// The end tag `-- /key` of a YAML section and the blocks after it.
pub open spec fn spec_yaml_section_end(t: Seq<char>, key: Seq<char>) -> Option<(int, NodeModel)> {
    match spec_end_header(t, key) {
        Some(h) => match spec_blocks(BlockGuard::EndContent, t.skip(h)) {
            Some((n, ch)) => Some(
                (
                    h + n,
                    NodeModel::Yaml { bounds: "end"@, kind: key, data: None, children: ch },
                ),
            ),
            None => None,
        },
        None => None,
    }
}

/// A YAML section without an end tag: its data runs to the next line that
/// starts with `--`, or to the end of the input.
pub open spec fn spec_yaml_section_full(t: Seq<char>) -> Option<(int, NodeModel)> {
    if !starts_with(t, section_mark()) {
        None
    } else {
        match spec_yaml_section_tag(t.skip(3)) {
            None => None,
            Some((k, kind)) => match spec_header_gap(t.skip(3 + k)) {
                None => None,
                Some(g) => {
                    let p = 3 + k + g;
                    let u = t.skip(p);
                    let d = match find(u, data_end_mark()) {
                        Some(i) => i,
                        None => u.len() as int,
                    };
                    Some(
                        (
                            p + d + multispace0(u.skip(d)),
                            NodeModel::Yaml {
                                bounds: "full"@,
                                kind: kind,
                                data: Some(trim_end(u.take(d))),
                                children: Seq::empty(),
                            },
                        ),
                    )
                },
            },
        }
    }
}

/// A YAML section that runs to its end tag `-- /name`; the end tag's node is
/// its only child.
pub open spec fn spec_yaml_section_start(t: Seq<char>) -> Option<(int, NodeModel)> {
    if !starts_with(t, section_mark()) {
        None
    } else {
        match spec_yaml_section_tag(t.skip(3)) {
            None => None,
            Some((k, kind)) => if !starts_with(t.skip(3 + k), seq!['/']) {
                None
            } else {
                match spec_header_gap(t.skip(3 + k + 1)) {
                    None => None,
                    Some(g) => {
                        let p = 3 + k + 1 + g;
                        let u = t.skip(p);
                        match find(u, end_mark() + kind) {
                            None => None,
                            Some(d) => {
                                let m = multispace0(u.skip(d)) as int;
                                match spec_yaml_section_end(u.skip(d + m), kind) {
                                    Some((n, end)) => Some(
                                        (
                                            p + d + m + n,
                                            NodeModel::Yaml {
                                                bounds: "start"@,
                                                kind: kind,
                                                data: Some(trim_end(u.take(d))),
                                                children: seq![end],
                                            },
                                        ),
                                    ),
                                    None => None,
                                }
                            },
                        }
                    },
                }
            },
        }
    }
}

/// Reads the name of a YAML section; gives the position after it.
pub fn yaml_section_tag(s: &[char], pos: usize) -> (r: Option<usize>)
    requires
        pos <= s@.len(),
    ensures
        match r {
            Some(e) => spec_yaml_section_tag(s@.skip(pos as int)) == Some(
                (e - pos, yaml_tag_text()),
            ) && e == pos + 12 && e <= s@.len(),
            None => spec_yaml_section_tag(s@.skip(pos as int)) is None,
        },
{
    let name = vec!['y', 'a', 'm', 'l', '-', 'e', 'x', 'a', 'm', 'p', 'l', 'e'];
    if starts_with_at(s, pos, name.as_slice()) {
        Some(pos + 12)
    } else {
        None
    }
}

/// Reads the end tag `-- /key` of a YAML section and the blocks after it.
pub fn yaml_section_end(s: &[char], pos: usize, key: &[char]) -> (r: Option<(usize, Node)>)
    requires
        pos <= s@.len(),
    ensures
        node_result(r, pos) == spec_yaml_section_end(s@.skip(pos as int), key@),
        r matches Some((e, _)) ==> pos <= e <= s@.len(),
{
    let h = match end_header(s, pos, key) {
        Some(h) => h,
        None => return None,
    };
    assert(s@.skip(pos as int).skip(h - pos) =~= s@.skip(h as int));
    match blocks(&BlockGuard::EndContent, s, h) {
        Some((e, children)) => {
            let kind = chars_to_string(key, 0, key.len());
            assert(key@.subrange(0, key@.len() as int) =~= key@);
            Some((e, Node::Yaml { bounds: String::from_str("end"), kind, data: None, children }))
        },
        None => None,
    }
}

/// Reads a YAML section without an end tag.
#[verifier::spinoff_prover]
#[verifier::rlimit(50)]
pub fn yaml_section_full(s: &[char], pos: usize) -> (r: Option<(usize, Node)>)
    requires
        pos <= s@.len(),
    ensures
        node_result(r, pos) == spec_yaml_section_full(s@.skip(pos as int)),
        r matches Some((e, _)) ==> pos <= e <= s@.len(),
{
    let ghost t = s@.skip(pos as int);
    let mark = vec!['-', '-', ' '];
    if !starts_with_at(s, pos, mark.as_slice()) {
        return None;
    }
    assert(t.skip(3) =~= s@.skip(pos + 3));
    let k = match yaml_section_tag(s, pos + 3) {
        Some(k) => k,
        None => return None,
    };
    assert(t.skip(k - pos) =~= s@.skip(k as int));
    let p = match header_gap(s, k) {
        Some(p) => p,
        None => return None,
    };
    assert(t.skip(p - pos) =~= s@.skip(p as int));
    let dmark = vec!['\n', '-', '-'];
    let d = match find_at(s, p, dmark.as_slice()) {
        Some(d) => d,
        None => s.len(),
    };
    let ghost u = s@.skip(p as int);
    assert(u.skip(d - p) =~= s@.skip(d as int));
    assert(u.take(d - p) =~= s@.subrange(p as int, d as int));
    let e = multispace0_at(s, d);
    let te = trim_end_at(s, p, d);
    let data = chars_to_string(s, p, te);
    assert(s@.subrange(p as int, te as int) =~= trim_end(u.take(d - p)));
    let kind = chars_to_string(s, pos + 3, k);
    assert(s@.subrange(pos + 3, k as int) =~= yaml_tag_text());
    let children: Vec<Node> = Vec::new();
    proof {
        lemma_nodes_model_empty();
    }
    Some((e, Node::Yaml { bounds: String::from_str("full"), kind, data: Some(data), children }))
}

/// Reads a YAML section that runs to its end tag.
#[verifier::spinoff_prover]
#[verifier::rlimit(50)]
pub fn yaml_section_start(s: &[char], pos: usize) -> (r: Option<(usize, Node)>)
    requires
        pos <= s@.len(),
    ensures
        node_result(r, pos) == spec_yaml_section_start(s@.skip(pos as int)),
        r matches Some((e, _)) ==> pos <= e <= s@.len(),
{
    let ghost t = s@.skip(pos as int);
    let mark = vec!['-', '-', ' '];
    if !starts_with_at(s, pos, mark.as_slice()) {
        return None;
    }
    assert(t.skip(3) =~= s@.skip(pos + 3));
    let k = match yaml_section_tag(s, pos + 3) {
        Some(k) => k,
        None => return None,
    };
    assert(t.skip(k - pos) =~= s@.skip(k as int));
    let slash = vec!['/'];
    if !starts_with_at(s, k, slash.as_slice()) {
        return None;
    }
    assert(t.skip(k + 1 - pos) =~= s@.skip(k + 1));
    let p = match header_gap(s, k + 1) {
        Some(p) => p,
        None => return None,
    };
    assert(t.skip(p - pos) =~= s@.skip(p as int));
    let end_key = vec!['-', '-', ' ', '/', 'y', 'a', 'm', 'l', '-', 'e', 'x', 'a', 'm', 'p', 'l', 'e'];
    assert(end_key@ =~= end_mark() + yaml_tag_text());
    assert(s@.subrange(pos + 3, k as int) =~= yaml_tag_text());
    let ghost u = s@.skip(p as int);
    let d = match find_at(s, p, end_key.as_slice()) {
        Some(d) => d,
        None => return None,
    };
    assert(u.skip(d - p) =~= s@.skip(d as int));
    assert(u.take(d - p) =~= s@.subrange(p as int, d as int));
    let m = multispace0_at(s, d);
    assert(u.skip(m - p) =~= s@.skip(m as int));
    let key = vec!['y', 'a', 'm', 'l', '-', 'e', 'x', 'a', 'm', 'p', 'l', 'e'];
    let (e, end) = match yaml_section_end(s, m, key.as_slice()) {
        Some(r) => r,
        None => return None,
    };
    let te = trim_end_at(s, p, d);
    let data = chars_to_string(s, p, te);
    assert(s@.subrange(p as int, te as int) =~= trim_end(u.take(d - p)));
    let kind = chars_to_string(s, pos + 3, k);
    let mut children: Vec<Node> = Vec::new();
    proof {
        lemma_nodes_model_empty();
        lemma_nodes_model_push(children@, end);
    }
    children.push(end);
    assert(nodes_model(children@) =~= seq![end.model()]);
    Some((e, Node::Yaml { bounds: String::from_str("start"), kind, data: Some(data), children }))
}

} // verus!
