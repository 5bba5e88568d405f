//! List sections: items that open with `- `.
use crate::block::{BlockGuard, block, blocks, nodes_result, spec_block, spec_blocks};
use crate::section::node::{Node, NodeModel, lemma_nodes_model_push, node_result, nodes_model};
use crate::section::{
    end_header, header_tail, lemma_header_tail_bound, lemma_tag_finder_bound, section_mark,
    spec_end_header, spec_header_tail, spec_start_or_full_section, spec_tag_finder,
    start_or_full_section, tag_finder,
};
use crate::text::{
    chars_to_string, lemma_many0_start, lemma_many0_step, lemma_many0_stop, lemma_many0_stuck,
    lemma_seq_start, lemma_seq_step, many0, multispace0, multispace0_at, prepend, starts_with,
    starts_with_at, string_chars,
};
use crate::{Sections, SectionsModel};
use vstd::prelude::*;

verus! {

broadcast use vstd::slice::group_slice_axioms;

/// A block inside a list item.
pub open spec fn spec_list_item_block(t: Seq<char>) -> Option<(int, NodeModel)> {
    spec_block(BlockGuard::ListItem, t)
}

/// An item `- ` followed by its blocks.
pub open spec fn spec_list_item(t: Seq<char>) -> Option<(int, NodeModel)> {
    if !starts_with(t, seq!['-', ' ']) {
        None
    } else {
        match spec_blocks(BlockGuard::ListItem, t.skip(2)) {
            Some((n, ch)) => Some(
                (
                    2 + n + multispace0(t.skip(2 + n)),
                    NodeModel::ListItem { children: ch },
                ),
            ),
            None => None,
        }
    }
}

pub open spec fn list_item_fn() -> spec_fn(Seq<char>) -> Option<(int, NodeModel)> {
    |t: Seq<char>| spec_list_item(t)
}

/// List items one after another.
pub open spec fn spec_list_items(t: Seq<char>) -> Option<(int, Seq<NodeModel>)> {
    many0(list_item_fn(), t)
}

/// The end tag `-- /key` of a list and the blocks after it.
pub open spec fn spec_list_section_end(t: Seq<char>, key: Seq<char>) -> Option<
    (int, NodeModel),
> {
    match spec_end_header(t, key) {
        Some(h) => match spec_blocks(BlockGuard::EndContent, t.skip(h)) {
            Some((n, ch)) => Some(
                (h + n, NodeModel::List { kind: key, children: ch, bounds: "end"@ }),
            ),
            None => None,
        },
        None => None,
    }
}

/// A list without an end tag: its header, then its items.
pub open spec fn spec_list_section_full(t: Seq<char>, sec: SectionsModel) -> Option<
    (int, NodeModel),
> {
    if !starts_with(t, section_mark()) {
        None
    } else {
        match spec_tag_finder(t.skip(3), sec.list) {
            None => None,
            Some((k, kind)) => match spec_header_tail(t.skip(3 + k)) {
                None => None,
                Some(h) => match spec_list_items(t.skip(3 + k + h)) {
                    Some((n, ch)) => Some(
                        (
                            3 + k + h + n,
                            NodeModel::List { kind: kind, children: ch, bounds: "full"@ },
                        ),
                    ),
                    None => None,
                },
            },
        }
    }
}

/// An item `- ` whose content may hold sections as well as blocks.
#[verifier::opaque]
pub open spec fn spec_list_item_with_sections(t: Seq<char>, sec: SectionsModel) -> Option<
    (int, NodeModel),
>
    decreases t.len(), 1int,
{
    if !starts_with(t, seq!['-', ' ']) {
        None
    } else {
        match spec_list_item_parts(t.skip(2), sec) {
            Some((n, ch)) => Some(
                (
                    2 + n + multispace0(t.skip(2 + n)),
                    NodeModel::ListItem { children: ch },
                ),
            ),
            None => None,
        }
    }
}

/// The content of an item with sections: blocks and sections in any order.
#[verifier::opaque]
pub open spec fn spec_list_item_parts(t: Seq<char>, sec: SectionsModel) -> Option<
    (int, Seq<NodeModel>),
>
    decreases t.len(), 3int,
{
    let one = match spec_block(BlockGuard::ListItem, t) {
        Some(r) => Some(r),
        None => spec_start_or_full_section(t, sec),
    };
    match one {
        Some((n, v)) => if 0 < n <= t.len() {
            prepend(n, seq![v], spec_list_item_parts(t.skip(n), sec))
        } else {
            None
        },
        None => Some((0, Seq::empty())),
    }
}

/// Items with sections one after another.
#[verifier::opaque]
pub open spec fn spec_list_start_items(t: Seq<char>, sec: SectionsModel) -> Option<
    (int, Seq<NodeModel>),
>
    decreases t.len(), 2int,
{
    match spec_list_item_with_sections(t, sec) {
        Some((n, v)) => if 0 < n <= t.len() {
            prepend(n, seq![v], spec_list_start_items(t.skip(n), sec))
        } else {
            None
        },
        None => Some((0, Seq::empty())),
    }
}

/// A list that runs to its end tag: its header with `/`, its items, and
/// its end tag, whose node is its last child.
#[verifier::opaque]
pub open spec fn spec_list_section_start(t: Seq<char>, sec: SectionsModel) -> Option<
    (int, NodeModel),
>
    decreases t.len(), 1int,
{
    if !starts_with(t, section_mark()) {
        None
    } else {
        match spec_tag_finder(t.skip(3), sec.list) {
            None => None,
            Some((k, kind)) => if !starts_with(t.skip(3 + k), seq!['/']) {
                None
            } else {
                match spec_header_tail(t.skip(3 + k + 1)) {
                    None => None,
                    Some(h) => {
                        let p = 3 + k + 1 + h;
                        proof {
                            lemma_tag_finder_bound(t.skip(3), sec.list);
                            lemma_header_tail_bound(t.skip(3 + k + 1));
                        }
                        match spec_list_start_items(t.skip(p), sec) {
                            None => None,
                            Some((n, items)) => match spec_list_section_end(
                                t.skip(p + n),
                                kind,
                            ) {
                                Some((m, end)) => Some(
                                    (
                                        p + n + m,
                                        NodeModel::List {
                                            kind: kind,
                                            children: items.push(end),
                                            bounds: "start"@,
                                        },
                                    ),
                                ),
                                None => None,
                            },
                        }
                    },
                }
            },
        }
    }
}

#[verifier::spinoff_prover]
pub proof fn lemma_list_item_with_sections_unfold(t: Seq<char>, sec: SectionsModel)
    ensures
        spec_list_item_with_sections(t, sec) == if !starts_with(t, seq!['-', ' ']) {
            None
        } else {
            match spec_list_item_parts(t.skip(2), sec) {
                Some((n, ch)) => Some(
                    (
                        2 + n + multispace0(t.skip(2 + n)),
                        NodeModel::ListItem { children: ch },
                    ),
                ),
                None => None,
            }
        },
{
    reveal_with_fuel(spec_list_item_with_sections, 2);
}

#[verifier::spinoff_prover]
pub proof fn lemma_list_item_parts_unfold(t: Seq<char>, sec: SectionsModel)
    ensures
        spec_list_item_parts(t, sec) == match (match spec_block(BlockGuard::ListItem, t) {
            Some(r) => Some(r),
            None => spec_start_or_full_section(t, sec),
        }) {
            Some((n, v)) => if 0 < n <= t.len() {
                prepend(n, seq![v], spec_list_item_parts(t.skip(n), sec))
            } else {
                None
            },
            None => Some((0, Seq::empty())),
        },
{
    reveal_with_fuel(spec_list_item_parts, 2);
}

#[verifier::spinoff_prover]
pub proof fn lemma_list_start_items_unfold(t: Seq<char>, sec: SectionsModel)
    ensures
        spec_list_start_items(t, sec) == match spec_list_item_with_sections(t, sec) {
            Some((n, v)) => if 0 < n <= t.len() {
                prepend(n, seq![v], spec_list_start_items(t.skip(n), sec))
            } else {
                None
            },
            None => Some((0, Seq::empty())),
        },
{
    reveal_with_fuel(spec_list_start_items, 2);
}

#[verifier::spinoff_prover]
pub proof fn lemma_list_section_start_unfold(t: Seq<char>, sec: SectionsModel)
    ensures
        spec_list_section_start(t, sec) == if !starts_with(t, section_mark()) {
            None
        } else {
            match spec_tag_finder(t.skip(3), sec.list) {
                None => None,
                Some((k, kind)) => if !starts_with(t.skip(3 + k), seq!['/']) {
                    None
                } else {
                    match spec_header_tail(t.skip(3 + k + 1)) {
                        None => None,
                        Some(h) => {
                            let p = 3 + k + 1 + h;
                            match spec_list_start_items(t.skip(p), sec) {
                                None => None,
                                Some((n, items)) => match spec_list_section_end(
                                    t.skip(p + n),
                                    kind,
                                ) {
                                    Some((m, end)) => Some(
                                        (
                                            p + n + m,
                                            NodeModel::List {
                                                kind: kind,
                                                children: items.push(end),
                                                bounds: "start"@,
                                            },
                                        ),
                                    ),
                                    None => None,
                                },
                            }
                        },
                    }
                },
            }
        },
{
    reveal_with_fuel(spec_list_section_start, 2);
}

pub open spec fn list_parts_fn(sec: SectionsModel) -> spec_fn(Seq<char>) -> Option<
    (int, Seq<NodeModel>),
> {
    |t: Seq<char>| spec_list_item_parts(t, sec)
}

pub open spec fn list_start_items_fn(sec: SectionsModel) -> spec_fn(Seq<char>) -> Option<
    (int, Seq<NodeModel>),
> {
    |t: Seq<char>| spec_list_start_items(t, sec)
}

/// Reads a block inside a list item: one that does not start with `-`.
pub fn list_item_block(s: &[char], pos: usize) -> (r: Option<(usize, Node)>)
    requires
        pos <= s@.len(),
    ensures
        node_result(r, pos) == spec_list_item_block(s@.skip(pos as int)),
        r matches Some((e, _)) ==> pos <= e <= s@.len(),
{
    block(&BlockGuard::ListItem, s, pos)
}

/// Reads an item `- ` followed by its blocks.
pub fn list_item(s: &[char], pos: usize) -> (r: Option<(usize, Node)>)
    requires
        pos <= s@.len(),
    ensures
        node_result(r, pos) == spec_list_item(s@.skip(pos as int)),
        r matches Some((e, _)) ==> pos <= e <= s@.len(),
{
    let mark = vec!['-', ' '];
    if !starts_with_at(s, pos, mark.as_slice()) {
        return None;
    }
    assert(s@.skip(pos as int).skip(2) =~= s@.skip(pos + 2));
    match blocks(&BlockGuard::ListItem, s, pos + 2) {
        Some((n, children)) => {
            assert(s@.skip(pos as int).skip(n - pos) =~= s@.skip(n as int));
            let e = multispace0_at(s, n);
            Some((e, Node::ListItem { children }))
        },
        None => None,
    }
}

/// Reads list items one after another.
pub fn list_items(s: &[char], pos: usize) -> (r: Option<(usize, Vec<Node>)>)
    requires
        pos <= s@.len(),
    ensures
        nodes_result(r, pos) == spec_list_items(s@.skip(pos as int)),
        r matches Some((e, _)) ==> pos <= e <= s@.len(),
{
    let mut acc: Vec<Node> = Vec::new();
    let mut cur = pos;
    proof {
        lemma_many0_start(list_item_fn(), s@, pos as int);
    }
    loop
        invariant
            pos <= cur <= s@.len(),
            many0(list_item_fn(), s@.skip(pos as int)) == prepend(
                cur - pos,
                nodes_model(acc@),
                many0(list_item_fn(), s@.skip(cur as int)),
            ),
        decreases s.len() - cur,
    {
        match list_item(s, cur) {
            None => {
                proof {
                    lemma_many0_stop(list_item_fn(), s@, pos as int, cur as int, nodes_model(acc@));
                }
                return Some((cur, acc));
            },
            Some((e, b)) => {
                if e == cur {
                    proof {
                        lemma_many0_stuck(list_item_fn(), s@, pos as int, cur as int, nodes_model(acc@), b.model());
                    }
                    return None;
                }
                proof {
                    lemma_many0_step(list_item_fn(), s@, pos as int, cur as int, e as int, nodes_model(acc@), b.model());
                    lemma_nodes_model_push(acc@, b);
                }
                acc.push(b);
                cur = e;
            },
        }
    }
}

/// Reads the end tag `-- /key` of a list and the blocks after it.
pub fn list_section_end(s: &[char], pos: usize, key: &[char]) -> (r: Option<(usize, Node)>)
    requires
        pos <= s@.len(),
    ensures
        node_result(r, pos) == spec_list_section_end(s@.skip(pos as int), key@),
        r matches Some((e, _)) ==> pos <= e <= s@.len(),
{
    let h = match end_header(s, pos, key) {
        Some(h) => h,
        None => return None,
    };
    assert(s@.skip(pos as int).skip(h - pos) =~= s@.skip(h as int));
    match blocks(&BlockGuard::EndContent, s, h) {
        Some((e, children)) => {
            let kind = chars_to_string(key, 0, key.len());
            assert(key@.subrange(0, key@.len() as int) =~= key@);
            Some((e, Node::List { kind, children, bounds: String::from_str("end") }))
        },
        None => None,
    }
}

/// Reads a list without an end tag.
#[verifier::spinoff_prover]
#[verifier::rlimit(50)]
pub fn list_section_full(s: &[char], pos: usize, sections: &Sections) -> (r: Option<
    (usize, Node),
>)
    requires
        pos <= s@.len(),
    ensures
        node_result(r, pos) == spec_list_section_full(s@.skip(pos as int), sections.model()),
        r matches Some((e, _)) ==> pos <= e <= s@.len(),
{
    let ghost t = s@.skip(pos as int);
    let mark = vec!['-', '-', ' '];
    if !starts_with_at(s, pos, mark.as_slice()) {
        return None;
    }
    assert(t.skip(3) =~= s@.skip(pos + 3));
    let (k, kind) = match tag_finder(s, pos + 3, &sections.list) {
        Some(r) => r,
        None => return None,
    };
    assert(t.skip(k - pos) =~= s@.skip(k as int));
    let h = match header_tail(s, k) {
        Some(h) => h,
        None => return None,
    };
    assert(t.skip(h - pos) =~= s@.skip(h as int));
    match list_items(s, h) {
        Some((e, children)) => Some(
            (e, Node::List { kind, children, bounds: String::from_str("full") }),
        ),
        None => None,
    }
}

/// Reads an item `- ` whose content may hold sections as well as blocks.
#[verifier::spinoff_prover]
#[verifier::rlimit(50)]
#[verifier::loop_isolation(false)]
pub fn list_item_with_sections(s: &[char], pos: usize, sections: &Sections) -> (r: Option<
    (usize, Node),
>)
    requires
        pos <= s@.len(),
    ensures
        node_result(r, pos) == spec_list_item_with_sections(
            s@.skip(pos as int),
            sections.model(),
        ),
        r matches Some((e, _)) ==> pos <= e <= s@.len(),
    decreases s@.len() - pos, 0int,
{
    let ghost sec = sections.model();
    proof {
        lemma_list_item_with_sections_unfold(s@.skip(pos as int), sec);
    }
    let mark = vec!['-', ' '];
    if !starts_with_at(s, pos, mark.as_slice()) {
        return None;
    }
    assert(s@.skip(pos as int).skip(2) =~= s@.skip(pos + 2));
    let start = pos + 2;
    let mut acc: Vec<Node> = Vec::new();
    let mut cur = start;
    proof {
        lemma_seq_start(list_parts_fn(sec), s@, start as int);
    }
    loop
        invariant
            pos + 2 == start <= cur <= s@.len(),
            sec == sections.model(),
            spec_list_item_parts(s@.skip(start as int), sec) == prepend(
                cur - start,
                nodes_model(acc@),
                spec_list_item_parts(s@.skip(cur as int), sec),
            ),
        decreases s.len() - cur,
    {
        proof {
            lemma_list_item_parts_unfold(s@.skip(cur as int), sec);
        }
        let one = match list_item_block(s, cur) {
            Some(r) => Some(r),
            None => start_or_full_section(s, cur, sections),
        };
        match one {
            None => {
                assert(nodes_model(acc@) + Seq::<NodeModel>::empty() =~= nodes_model(acc@));
                break;
            },
            Some((e, b)) => {
                if e == cur {
                    proof {
                        lemma_list_item_with_sections_unfold(s@.skip(pos as int), sec);
                        assert(s@.skip(pos as int).skip(2) =~= s@.skip(start as int));
                    }
                    return None;
                }
                assert(s@.skip(cur as int).skip(e - cur) =~= s@.skip(e as int));
                proof {
                    lemma_seq_step(
                        list_parts_fn(sec),
                        s@,
                        start as int,
                        cur as int,
                        e as int,
                        nodes_model(acc@),
                        b.model(),
                    );
                    lemma_nodes_model_push(acc@, b);
                }
                acc.push(b);
                cur = e;
            },
        }
    }
    assert(s@.skip(pos as int).skip(cur - pos) =~= s@.skip(cur as int));
    proof {
        lemma_list_item_with_sections_unfold(s@.skip(pos as int), sec);
        assert(s@.skip(pos as int).skip(2) =~= s@.skip(start as int));
    }
    let e = multispace0_at(s, cur);
    Some((e, Node::ListItem { children: acc }))
}

/// Reads a list that runs to its end tag; the end tag's node is its
/// last child.
#[verifier::spinoff_prover]
#[verifier::rlimit(50)]
#[verifier::loop_isolation(false)]
pub fn list_section_start(s: &[char], pos: usize, sections: &Sections) -> (r: Option<
    (usize, Node),
>)
    requires
        pos <= s@.len(),
    ensures
        node_result(r, pos) == spec_list_section_start(s@.skip(pos as int), sections.model()),
        r matches Some((e, _)) ==> pos <= e <= s@.len(),
    decreases s@.len() - pos, 0int,
{
    let ghost sec = sections.model();
    let ghost t = s@.skip(pos as int);
    proof {
        lemma_list_section_start_unfold(t, sec);
    }
    let mark = vec!['-', '-', ' '];
    if !starts_with_at(s, pos, mark.as_slice()) {
        return None;
    }
    assert(t.skip(3) =~= s@.skip(pos + 3));
    let (k, kind) = match tag_finder(s, pos + 3, &sections.list) {
        Some(r) => r,
        None => return None,
    };
    assert(t.skip(k - pos) =~= s@.skip(k as int));
    let slash = vec!['/'];
    if !starts_with_at(s, k, slash.as_slice()) {
        return None;
    }
    assert(t.skip(k + 1 - pos) =~= s@.skip(k + 1));
    let p = match header_tail(s, k + 1) {
        Some(p) => p,
        None => return None,
    };
    assert(t.skip(p - pos) =~= s@.skip(p as int));
    let mut acc: Vec<Node> = Vec::new();
    let mut cur = p;
    proof {
        lemma_seq_start(list_start_items_fn(sec), s@, p as int);
    }
    loop
        invariant
            pos + 4 <= p <= cur <= s@.len(),
            sec == sections.model(),
            spec_list_start_items(s@.skip(p as int), sec) == prepend(
                cur - p,
                nodes_model(acc@),
                spec_list_start_items(s@.skip(cur as int), sec),
            ),
        decreases s.len() - cur,
    {
        proof {
            lemma_list_start_items_unfold(s@.skip(cur as int), sec);
        }
        match list_item_with_sections(s, cur, sections) {
            None => {
                assert(nodes_model(acc@) + Seq::<NodeModel>::empty() =~= nodes_model(acc@));
                break;
            },
            Some((e, b)) => {
                if e == cur {
                    proof {
                        lemma_list_section_start_unfold(s@.skip(pos as int), sec);
                        assert(s@.skip(pos as int).skip(p - pos) =~= s@.skip(p as int));
                    }
                    return None;
                }
                assert(s@.skip(cur as int).skip(e - cur) =~= s@.skip(e as int));
                proof {
                    lemma_seq_step(
                        list_start_items_fn(sec),
                        s@,
                        p as int,
                        cur as int,
                        e as int,
                        nodes_model(acc@),
                        b.model(),
                    );
                    lemma_nodes_model_push(acc@, b);
                }
                acc.push(b);
                cur = e;
            },
        }
    }
    assert(t.skip(cur - pos) =~= s@.skip(cur as int));
    proof {
        lemma_list_section_start_unfold(t, sec);
        assert(t.skip(p - pos) =~= s@.skip(p as int));
        assert(t.skip(3) =~= s@.skip(pos + 3));
        assert(t.skip(k - pos) =~= s@.skip(k as int));
        assert(t.skip(k + 1 - pos) =~= s@.skip(k + 1));
    }
    let key = string_chars(&kind);
    let (e, end) = match list_section_end(s, cur, key.as_slice()) {
        Some(r) => r,
        None => return None,
    };
    proof {
        lemma_nodes_model_push(acc@, end);
    }
    acc.push(end);
    Some((e, Node::List { kind, children: acc, bounds: String::from_str("start") }))
}

} // verus!
