//! Generic sections: any section name that no other kind claims.
use crate::block::{BlockGuard, blocks, block_of_anything, spec_block, spec_blocks};
use crate::section::node::{Node, NodeModel, lemma_nodes_model_push, node_result, nodes_model};
use crate::section::{
    end_header, header_tail, lemma_header_tail_bound, section_mark, spec_end_header,
    spec_header_tail, spec_start_or_full_section, start_or_full_section,
};
use crate::text::{
    chars_to_string, ends_type_name, lemma_run_len_bound, lemma_seq_start, lemma_seq_step, prepend,
    run_len, starts_with, starts_with_at, type_name_end_at,
};
use crate::{Sections, SectionsModel};
use vstd::prelude::*;

verus! {

broadcast use vstd::slice::group_slice_axioms;

/// Length of the section name at the start of `t`: characters up to a
/// space, slash or line feed.
pub open spec fn type_name_len(t: Seq<char>) -> int {
    run_len(t, |c: char| !ends_type_name(c)) as int
}

/// The end tag `-- /key` of a generic section and the blocks after it.
pub open spec fn spec_generic_section_end(t: Seq<char>, key: Seq<char>) -> Option<(int, NodeModel)> {
    match spec_end_header(t, key) {
        Some(h) => match spec_blocks(BlockGuard::Anything, t.skip(h)) {
            Some((n, ch)) => Some(
                (h + n, NodeModel::Generic { kind: key, children: ch, bounds: "end"@ }),
            ),
            None => None,
        },
        None => None,
    }
}

/// A generic section without an end tag: its header, then its blocks.
pub open spec fn spec_generic_section_full(t: Seq<char>) -> Option<(int, NodeModel)> {
    if !starts_with(t, section_mark()) {
        None
    } else {
        let k = type_name_len(t.skip(3));
        if k == 0 {
            None
        } else {
            match spec_header_tail(t.skip(3 + k)) {
                None => None,
                Some(h) => match spec_blocks(BlockGuard::Anything, t.skip(3 + k + h)) {
                    Some((n, ch)) => Some(
                        (
                            3 + k + h + n,
                            NodeModel::Generic {
                                kind: t.subrange(3, 3 + k),
                                children: ch,
                                bounds: "full"@,
                            },
                        ),
                    ),
                    None => None,
                },
            }
        }
    }
}

/// The content of a generic section that runs to its end tag: blocks and
/// sections in any order.
#[verifier::opaque]
pub open spec fn spec_generic_parts(t: Seq<char>, sec: SectionsModel) -> Option<
    (int, Seq<NodeModel>),
>
    decreases t.len(), 3int,
{
    let one = match spec_block(BlockGuard::Anything, t) {
        Some(r) => Some(r),
        None => spec_start_or_full_section(t, sec),
    };
    match one {
        Some((n, v)) => if 0 < n <= t.len() {
            prepend(n, seq![v], spec_generic_parts(t.skip(n), sec))
        } else {
            None
        },
        None => Some((0, Seq::empty())),
    }
}

/// A generic section that runs to its end tag: its header with `/`, its
/// content, and its end tag, whose node is its last child.
#[verifier::opaque]
pub open spec fn spec_generic_section_start(t: Seq<char>, sec: SectionsModel) -> Option<
    (int, NodeModel),
>
    decreases t.len(), 1int,
{
    if !starts_with(t, section_mark()) {
        None
    } else {
        let k = type_name_len(t.skip(3));
        let kind = t.subrange(3, 3 + k);
        if k == 0 || !starts_with(t.skip(3 + k), seq!['/']) {
            None
        } else {
            match spec_header_tail(t.skip(3 + k + 1)) {
                None => None,
                Some(h) => {
                    let p = 3 + k + 1 + h;
                    proof {
                        lemma_run_len_bound(t.skip(3), |c: char| !ends_type_name(c));
                        lemma_header_tail_bound(t.skip(3 + k + 1));
                    }
                    match spec_generic_parts(t.skip(p), sec) {
                        None => None,
                        Some((n, parts)) => match spec_generic_section_end(t.skip(p + n), kind) {
                            Some((m, end)) => Some(
                                (
                                    p + n + m,
                                    NodeModel::Generic {
                                        kind: kind,
                                        children: parts.push(end),
                                        bounds: "start"@,
                                    },
                                ),
                            ),
                            None => None,
                        },
                    }
                },
            }
        }
    }
}

#[verifier::spinoff_prover]
pub proof fn lemma_generic_parts_unfold(t: Seq<char>, sec: SectionsModel)
    ensures
        spec_generic_parts(t, sec) == match (match spec_block(BlockGuard::Anything, t) {
            Some(r) => Some(r),
            None => spec_start_or_full_section(t, sec),
        }) {
            Some((n, v)) => if 0 < n <= t.len() {
                prepend(n, seq![v], spec_generic_parts(t.skip(n), sec))
            } else {
                None
            },
            None => Some((0, Seq::empty())),
        },
{
    reveal_with_fuel(spec_generic_parts, 2);
}

#[verifier::spinoff_prover]
pub proof fn lemma_generic_section_start_unfold(t: Seq<char>, sec: SectionsModel)
    ensures
        spec_generic_section_start(t, sec) == if !starts_with(t, section_mark()) {
            None
        } else {
            let k = type_name_len(t.skip(3));
            let kind = t.subrange(3, 3 + k);
            if k == 0 || !starts_with(t.skip(3 + k), seq!['/']) {
                None
            } else {
                match spec_header_tail(t.skip(3 + k + 1)) {
                    None => None,
                    Some(h) => {
                        let p = 3 + k + 1 + h;
                        match spec_generic_parts(t.skip(p), sec) {
                            None => None,
                            Some((n, parts)) => match spec_generic_section_end(
                                t.skip(p + n),
                                kind,
                            ) {
                                Some((m, end)) => Some(
                                    (
                                        p + n + m,
                                        NodeModel::Generic {
                                            kind: kind,
                                            children: parts.push(end),
                                            bounds: "start"@,
                                        },
                                    ),
                                ),
                                None => None,
                            },
                        }
                    },
                }
            }
        },
{
    reveal_with_fuel(spec_generic_section_start, 2);
}

pub open spec fn generic_parts_fn(sec: SectionsModel) -> spec_fn(Seq<char>) -> Option<
    (int, Seq<NodeModel>),
> {
    |t: Seq<char>| spec_generic_parts(t, sec)
}

/// Reads the end tag `-- /key` of a generic section and the blocks after it.
pub fn generic_section_end(s: &[char], pos: usize, key: &[char]) -> (r: Option<(usize, Node)>)
    requires
        pos <= s@.len(),
    ensures
        node_result(r, pos) == spec_generic_section_end(s@.skip(pos as int), key@),
        r matches Some((e, _)) ==> pos <= e <= s@.len(),
{
    let h = match end_header(s, pos, key) {
        Some(h) => h,
        None => return None,
    };
    assert(s@.skip(pos as int).skip(h - pos) =~= s@.skip(h as int));
    match blocks(&BlockGuard::Anything, s, h) {
        Some((e, children)) => {
            let kind = chars_to_string(key, 0, key.len());
            assert(key@.subrange(0, key@.len() as int) =~= key@);
            Some((e, Node::Generic { kind, children, bounds: String::from_str("end") }))
        },
        None => None,
    }
}

/// Reads a generic section without an end tag.
#[verifier::spinoff_prover]
#[verifier::rlimit(50)]
pub fn generic_section_full(s: &[char], pos: usize) -> (r: Option<(usize, Node)>)
    requires
        pos <= s@.len(),
    ensures
        node_result(r, pos) == spec_generic_section_full(s@.skip(pos as int)),
        r matches Some((e, _)) ==> pos <= e <= s@.len(),
{
    let ghost t = s@.skip(pos as int);
    let mark = vec!['-', '-', ' '];
    if !starts_with_at(s, pos, mark.as_slice()) {
        return None;
    }
    assert(t.skip(3) =~= s@.skip(pos + 3));
    let k = type_name_end_at(s, pos + 3);
    if k == pos + 3 {
        return None;
    }
    assert(t.skip(k - pos) =~= s@.skip(k as int));
    let h = match header_tail(s, k) {
        Some(h) => h,
        None => return None,
    };
    assert(t.skip(h - pos) =~= s@.skip(h as int));
    let kind = chars_to_string(s, pos + 3, k);
    assert(s@.subrange(pos + 3, k as int) =~= t.subrange(3, k - pos));
    match blocks(&BlockGuard::Anything, s, h) {
        Some((e, children)) => Some(
            (e, Node::Generic { kind, children, bounds: String::from_str("full") }),
        ),
        None => None,
    }
}

/// Reads a generic section that runs to its end tag; the end tag's node is
/// its last child.
#[verifier::spinoff_prover]
#[verifier::rlimit(50)]
#[verifier::loop_isolation(false)]
pub fn generic_section_start(s: &[char], pos: usize, sections: &Sections) -> (r: Option<
    (usize, Node),
>)
    requires
        pos <= s@.len(),
    ensures
        node_result(r, pos) == spec_generic_section_start(s@.skip(pos as int), sections.model()),
        r matches Some((e, _)) ==> pos <= e <= s@.len(),
    decreases s@.len() - pos, 0int,
{
    let ghost sec = sections.model();
    let ghost t = s@.skip(pos as int);
    proof {
        lemma_generic_section_start_unfold(t, sec);
    }
    let mark = vec!['-', '-', ' '];
    if !starts_with_at(s, pos, mark.as_slice()) {
        return None;
    }
    assert(t.skip(3) =~= s@.skip(pos + 3));
    let k = type_name_end_at(s, pos + 3);
    if k == pos + 3 {
        return None;
    }
    assert(t.skip(k - pos) =~= s@.skip(k as int));
    assert(s@.subrange(pos + 3, k as int) =~= t.subrange(3, k - pos));
    let slash = vec!['/'];
    if !starts_with_at(s, k, slash.as_slice()) {
        return None;
    }
    assert(t.skip(k + 1 - pos) =~= s@.skip(k + 1));
    let p = match header_tail(s, k + 1) {
        Some(p) => p,
        None => return None,
    };
    assert(t.skip(p - pos) =~= s@.skip(p as int));
    let mut acc: Vec<Node> = Vec::new();
    let mut cur = p;
    proof {
        lemma_seq_start(generic_parts_fn(sec), s@, p as int);
    }
    loop
        invariant
            pos + 4 <= p <= cur <= s@.len(),
            sec == sections.model(),
            spec_generic_parts(s@.skip(p as int), sec) == prepend(
                cur - p,
                nodes_model(acc@),
                spec_generic_parts(s@.skip(cur as int), sec),
            ),
        decreases s.len() - cur,
    {
        proof {
            lemma_generic_parts_unfold(s@.skip(cur as int), sec);
        }
        let one = match block_of_anything(s, cur) {
            Some(r) => Some(r),
            None => start_or_full_section(s, cur, sections),
        };
        match one {
            None => {
                assert(nodes_model(acc@) + Seq::<NodeModel>::empty() =~= nodes_model(acc@));
                break;
            },
            Some((e, b)) => {
                if e == cur {
                    return None;
                }
                assert(s@.skip(cur as int).skip(e - cur) =~= s@.skip(e as int));
                proof {
                    lemma_seq_step(
                        generic_parts_fn(sec),
                        s@,
                        p as int,
                        cur as int,
                        e as int,
                        nodes_model(acc@),
                        b.model(),
                    );
                    lemma_nodes_model_push(acc@, b);
                }
                acc.push(b);
                cur = e;
            },
        }
    }
    assert(t.skip(cur - pos) =~= s@.skip(cur as int));
    let key_start = pos + 3;
    let (e, end) = match generic_section_end(s, cur, &s[key_start..k]) {
        Some(r) => r,
        None => return None,
    };
    let kind = chars_to_string(s, pos + 3, k);
    proof {
        lemma_nodes_model_push(acc@, end);
    }
    acc.push(end);
    Some((e, Node::Generic { kind, children: acc, bounds: String::from_str("start") }))
}

} // verus!
