//! Blocks: paragraphs of spans, each opening with a guard on what may not
//! start it.
use crate::section::node::{Node, NodeModel, lemma_nodes_model_push, node_result, nodes_model};
use crate::span::{spans_at, spec_spans};
use crate::text::{
    lemma_many0_start, lemma_many0_step, lemma_many0_stop, lemma_many0_stuck, many0, multispace0,
    multispace0_at, prepend, starts_with,
};
use vstd::prelude::*;

verus! {

broadcast use vstd::slice::group_slice_axioms;

/// What may not begin a block, by the place the block stands in.
pub enum BlockGuard {
    /// Anywhere in a section: not a `--` line.
    Anything,
    /// After an end tag: not `-` and not `[`.
    EndContent,
    /// In a checklist item: not `--` and not `[`.
    ChecklistItem,
    /// In a list item: not `-`.
    ListItem,
}

/// `t` may begin a block that stands where `g` says.
pub open spec fn guard_allows(g: BlockGuard, t: Seq<char>) -> bool {
    t.len() > 0 && match g {
        BlockGuard::Anything => !starts_with(t, seq!['-', '-']),
        BlockGuard::EndContent => !starts_with(t, seq!['-']) && !starts_with(t, seq!['[']),
        BlockGuard::ChecklistItem => !starts_with(t, seq!['-', '-']) && !starts_with(
            t,
            seq!['['],
        ),
        BlockGuard::ListItem => !starts_with(t, seq!['-']),
    }
}

/// The spans of a paragraph and the whitespace after it, as a block.
pub open spec fn spec_paragraph(t: Seq<char>) -> Option<(int, NodeModel)> {
    match spec_spans(t) {
        Some((n, sp)) => Some((n + multispace0(t.skip(n)), NodeModel::Block { spans: sp })),
        None => None,
    }
}

/// A block where `g` allows one.
pub open spec fn spec_block(g: BlockGuard, t: Seq<char>) -> Option<(int, NodeModel)> {
    if guard_allows(g, t) {
        spec_paragraph(t)
    } else {
        None
    }
}

pub open spec fn block_fn(g: BlockGuard) -> spec_fn(Seq<char>) -> Option<(int, NodeModel)> {
    |t: Seq<char>| spec_block(g, t)
}

/// Blocks one after another, as many as there are.
pub open spec fn spec_blocks(g: BlockGuard, t: Seq<char>) -> Option<(int, Seq<NodeModel>)> {
    many0(block_fn(g), t)
}

/// The result of a loop that reads a sequence of nodes.
pub open spec fn nodes_result(r: Option<(usize, Vec<Node>)>, pos: usize) -> Option<
    (int, Seq<NodeModel>),
> {
    match r {
        Some((e, v)) => Some((e - pos, nodes_model(v@))),
        None => None,
    }
}

fn guard_allows_at(g: &BlockGuard, s: &[char], pos: usize) -> (r: bool)
    requires
        pos <= s@.len(),
    ensures
        r == guard_allows(*g, s@.skip(pos as int)),
{
    let t = Ghost(s@.skip(pos as int));
    proof {
        if pos < s@.len() {
            assert(t@.take(1) =~= seq![s@[pos as int]]);
        }
        if pos + 1 < s@.len() {
            assert(t@.take(2) =~= seq![s@[pos as int], s@[pos + 1]]);
        }
        if starts_with(t@, seq!['-', '-']) {
            assert(t@.take(2)[0] == '-' && t@.take(2)[1] == '-');
        }
        if starts_with(t@, seq!['[']) {
            assert(t@.take(1)[0] == '[');
        }
    }
    if pos >= s.len() {
        return false;
    }
    let dash = s[pos] == '-';
    let dash2 = dash && pos + 1 < s.len() && s[pos + 1] == '-';
    let bracket = s[pos] == '[';
    match g {
        BlockGuard::Anything => !dash2,
        BlockGuard::EndContent => !dash && !bracket,
        BlockGuard::ChecklistItem => !dash2 && !bracket,
        BlockGuard::ListItem => !dash,
    }
}

/// Reads the spans of a paragraph and the whitespace after it.
pub fn paragraph(s: &[char], pos: usize) -> (r: Option<(usize, Node)>)
    requires
        pos <= s@.len(),
    ensures
        node_result(r, pos) == spec_paragraph(s@.skip(pos as int)),
        r matches Some((e, _)) ==> pos <= e <= s@.len(),
{
    match spans_at(s, pos) {
        Some((n, spans)) => {
            let e = multispace0_at(s, n);
            assert(s@.skip(pos as int).skip(n - pos) =~= s@.skip(n as int));
            Some((e, Node::Block { spans }))
        },
        None => None,
    }
}

/// Reads a block where `g` allows one.
pub fn block(g: &BlockGuard, s: &[char], pos: usize) -> (r: Option<(usize, Node)>)
    requires
        pos <= s@.len(),
    ensures
        node_result(r, pos) == spec_block(*g, s@.skip(pos as int)),
        r matches Some((e, _)) ==> pos <= e <= s@.len(),
{
    if guard_allows_at(g, s, pos) {
        paragraph(s, pos)
    } else {
        None
    }
}

/// Reads blocks one after another while `g` allows them.
pub fn blocks(g: &BlockGuard, s: &[char], pos: usize) -> (r: Option<(usize, Vec<Node>)>)
    requires
        pos <= s@.len(),
    ensures
        nodes_result(r, pos) == spec_blocks(*g, s@.skip(pos as int)),
        r matches Some((e, _)) ==> pos <= e <= s@.len(),
{
    let mut acc: Vec<Node> = Vec::new();
    let mut cur = pos;
    proof {
        lemma_many0_start(block_fn(*g), s@, pos as int);
    }
    loop
        invariant
            pos <= cur <= s@.len(),
            many0(block_fn(*g), s@.skip(pos as int)) == prepend(
                cur - pos,
                nodes_model(acc@),
                many0(block_fn(*g), s@.skip(cur as int)),
            ),
        decreases s.len() - cur,
    {
        match block(g, s, cur) {
            None => {
                proof {
                    lemma_many0_stop(block_fn(*g), s@, pos as int, cur as int, nodes_model(acc@));
                }
                return Some((cur, acc));
            },
            Some((e, b)) => {
                if e == cur {
                    proof {
                        lemma_many0_stuck(
                            block_fn(*g),
                            s@,
                            pos as int,
                            cur as int,
                            nodes_model(acc@),
                            b.model(),
                        );
                    }
                    return None;
                }
                proof {
                    lemma_many0_step(
                        block_fn(*g),
                        s@,
                        pos as int,
                        cur as int,
                        e as int,
                        nodes_model(acc@),
                        b.model(),
                    );
                    lemma_nodes_model_push(acc@, b);
                }
                acc.push(b);
                cur = e;
            },
        }
    }
}

/// Reads a block of text that is not a section line (`--`).
pub fn block_of_anything(s: &[char], pos: usize) -> (r: Option<(usize, Node)>)
    requires
        pos <= s@.len(),
    ensures
        node_result(r, pos) == spec_block(BlockGuard::Anything, s@.skip(pos as int)),
        r matches Some((e, _)) ==> pos <= e <= s@.len(),
{
    block(&BlockGuard::Anything, s, pos)
}

/// Reads a block of text after an end tag: one that starts with neither `-`
/// nor `[`.
pub fn block_of_end_content(s: &[char], pos: usize) -> (r: Option<(usize, Node)>)
    requires
        pos <= s@.len(),
    ensures
        node_result(r, pos) == spec_block(BlockGuard::EndContent, s@.skip(pos as int)),
        r matches Some((e, _)) ==> pos <= e <= s@.len(),
{
    block(&BlockGuard::EndContent, s, pos)
}

} // verus!
