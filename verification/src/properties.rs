//! Properties that hold across the reader and the renderer.
use crate::block::{BlockGuard, block_fn, spec_block, spec_blocks};
use crate::render::{
    lemma_renderable, renderable, renderable_node, spec_output, spec_output_node, spec_output_spans,
    spec_output_span,
};
use crate::section::checklist::{
    checklist_item_fn, lemma_checklist_item_parts_unfold, lemma_checklist_item_with_sections_unfold,
    lemma_checklist_section_start_unfold, lemma_checklist_start_items_unfold,
    spec_checklist_item_parts, spec_checklist_item_with_sections, spec_checklist_items,
    spec_checklist_section_end, spec_checklist_section_full, spec_checklist_section_start,
    spec_checklist_start_items,
};
use crate::section::generic::{
    lemma_generic_parts_unfold, lemma_generic_section_start_unfold, spec_generic_parts,
    spec_generic_section_end, spec_generic_section_full, spec_generic_section_start, type_name_len,
};
use crate::section::json::{
    spec_json_section_full, spec_json_section_start,
};
use crate::section::list::{
    lemma_list_item_parts_unfold, lemma_list_item_with_sections_unfold,
    lemma_list_section_start_unfold, lemma_list_start_items_unfold, list_item_fn,
    spec_list_item_parts, spec_list_item_with_sections, spec_list_items, spec_list_section_end,
    spec_list_section_full, spec_list_section_start, spec_list_start_items,
};
use crate::section::node::{NodeModel, closed, closed_node, lemma_closed};
use crate::section::yaml::{
    spec_yaml_section_end, spec_yaml_section_full, spec_yaml_section_start, yaml_tag_text,
};
use crate::section::{
    lemma_header_tail_bound, lemma_tag_finder_bound, section_mark, spec_header_tail,
    spec_start_or_full_section, spec_tag_finder,
};
use crate::span::SpanModel;
use crate::text::{ends_type_name, lemma_run_len_bound, many0, prepend, starts_with};
use crate::{SectionsModel, sections_fn, spec_parse, spec_parse_runner};
use vstd::prelude::*;

verus! {

/// A node that can be rendered and whose sections are closed by their end
/// tags.
pub open spec fn sound_node(n: NodeModel) -> bool {
    renderable_node(n) && closed_node(n)
}

/// Where `r` holds a node, the node is sound.
pub open spec fn yields_sound(r: Option<(int, NodeModel)>) -> bool {
    match r {
        Some((_, v)) => sound_node(v),
        None => true,
    }
}

/// Every node of `vs` is sound.
pub open spec fn all_sound(vs: Seq<NodeModel>) -> bool {
    forall|i: int| 0 <= i < vs.len() ==> sound_node(#[trigger] vs[i])
}

proof fn lemma_all_sound(vs: Seq<NodeModel>)
    ensures
        all_sound(vs) == (renderable(vs) && closed(vs)),
{
    lemma_renderable(vs);
    lemma_closed(vs);
}

proof fn lemma_prepend_sound(n: int, v: NodeModel, r: Option<(int, Seq<NodeModel>)>)
    requires
        sound_node(v),
        r matches Some((_, ws)) ==> all_sound(ws),
    ensures
        prepend(n, seq![v], r) matches Some((_, vs)) ==> all_sound(vs),
{
    if let Some((m, ws)) = r {
        let vs = seq![v] + ws;
        assert forall|i: int| 0 <= i < vs.len() implies sound_node(#[trigger] vs[i]) by {
            if i > 0 {
                assert(vs[i] == ws[i - 1]);
            }
        }
    }
}

proof fn lemma_push_sound(vs: Seq<NodeModel>, v: NodeModel)
    requires
        all_sound(vs),
        sound_node(v),
    ensures
        all_sound(vs.push(v)),
{
    assert forall|i: int| 0 <= i < vs.push(v).len() implies sound_node(
        #[trigger] vs.push(v)[i],
    ) by {
        if i < vs.len() {
            assert(vs.push(v)[i] == vs[i]);
        }
    }
}

proof fn lemma_many0_sound(p: spec_fn(Seq<char>) -> Option<(int, NodeModel)>, t: Seq<char>)
    requires
        forall|u: Seq<char>| yields_sound(#[trigger] p(u)),
    ensures
        many0(p, t) matches Some((_, vs)) ==> all_sound(vs),
    decreases t.len(),
{
    if let Some((n, v)) = p(t) {
        if 0 < n <= t.len() {
            lemma_many0_sound(p, t.skip(n));
            lemma_prepend_sound(n, v, many0(p, t.skip(n)));
        }
    }
}

proof fn lemma_bounds_distinct()
    ensures
        "end"@ != "full"@,
        "end"@ != "start"@,
        "full"@ != "start"@,
{
    reveal_strlit("end");
    reveal_strlit("full");
    reveal_strlit("start");
    assert("end"@[0] != "full"@[0]);
    assert("end"@[0] != "start"@[0]);
    assert("full"@[0] != "start"@[0]);
}

proof fn lemma_blocks_sound(g: BlockGuard, t: Seq<char>)
    ensures
        spec_blocks(g, t) matches Some((_, vs)) ==> all_sound(vs) && renderable(vs) && closed(vs),
{
    assert forall|u: Seq<char>| yields_sound(#[trigger] block_fn(g)(u)) by {
    }
    lemma_many0_sound(block_fn(g), t);
    if let Some((_, vs)) = spec_blocks(g, t) {
        lemma_all_sound(vs);
    }
}

proof fn lemma_checklist_items_sound(t: Seq<char>)
    ensures
        spec_checklist_items(t) matches Some((_, vs)) ==> all_sound(vs) && renderable(vs) && closed(vs),
{
    assert forall|u: Seq<char>| yields_sound(#[trigger] checklist_item_fn()(u)) by {
        lemma_blocks_sound(BlockGuard::ChecklistItem, u.skip(2));
    }
    lemma_many0_sound(checklist_item_fn(), t);
    if let Some((_, vs)) = spec_checklist_items(t) {
        lemma_all_sound(vs);
    }
}

proof fn lemma_list_items_sound(t: Seq<char>)
    ensures
        spec_list_items(t) matches Some((_, vs)) ==> all_sound(vs) && renderable(vs) && closed(vs),
{
    assert forall|u: Seq<char>| yields_sound(#[trigger] list_item_fn()(u)) by {
        lemma_blocks_sound(BlockGuard::ListItem, u.skip(2));
    }
    lemma_many0_sound(list_item_fn(), t);
    if let Some((_, vs)) = spec_list_items(t) {
        lemma_all_sound(vs);
    }
}

proof fn lemma_ends_sound(t: Seq<char>, key: Seq<char>)
    ensures
        yields_sound(spec_checklist_section_end(t, key)),
        yields_sound(spec_list_section_end(t, key)),
        yields_sound(spec_generic_section_end(t, key)),
        yields_sound(spec_yaml_section_end(t, key)),
{
    lemma_bounds_distinct();
    if let Some(h) = crate::section::spec_end_header(t, key) {
        lemma_blocks_sound(BlockGuard::EndContent, t.skip(h));
        lemma_blocks_sound(BlockGuard::Anything, t.skip(h));
    }
}

proof fn lemma_checklist_full_sound(t: Seq<char>, sec: SectionsModel)
    ensures
        yields_sound(spec_checklist_section_full(t, sec)),
{
    lemma_bounds_distinct();
    if let Some((k, kind)) = crate::section::spec_tag_finder(t.skip(3), sec.checklist) {
        if let Some(h) = crate::section::spec_header_tail(t.skip(3 + k)) {
            lemma_checklist_items_sound(t.skip(3 + k + h));
        }
    }
}

proof fn lemma_list_full_sound(t: Seq<char>, sec: SectionsModel)
    ensures
        yields_sound(spec_list_section_full(t, sec)),
{
    lemma_bounds_distinct();
    if let Some((k, kind)) = crate::section::spec_tag_finder(t.skip(3), sec.list) {
        if let Some(h) = crate::section::spec_header_tail(t.skip(3 + k)) {
            lemma_list_items_sound(t.skip(3 + k + h));
        }
    }
}

proof fn lemma_generic_full_sound(t: Seq<char>)
    ensures
        yields_sound(spec_generic_section_full(t)),
{
    lemma_bounds_distinct();
    let k = type_name_len(t.skip(3));
    if let Some(h) = crate::section::spec_header_tail(t.skip(3 + k)) {
        lemma_blocks_sound(BlockGuard::Anything, t.skip(3 + k + h));
    }
}

proof fn lemma_yaml_sound(t: Seq<char>)
    ensures
        yields_sound(spec_yaml_section_full(t)),
        yields_sound(spec_yaml_section_start(t)),
{
    lemma_bounds_distinct();
    assert(renderable(Seq::<NodeModel>::empty()));
    assert(closed(Seq::<NodeModel>::empty()));
    if let Some((_, v)) = spec_yaml_section_start(t) {
        if let NodeModel::Yaml { children, .. } = v {
            let end = children[0];
            assert(children == seq![end]);
            assert(children.drop_last() =~= Seq::<NodeModel>::empty());
            let k = 12int;
            let g = crate::section::spec_header_gap(t.skip(3 + k + 1)).unwrap();
            let u = t.skip(3 + k + 1 + g);
            let d = crate::text::find(u, crate::section::end_mark() + yaml_tag_text()).unwrap();
            let m = crate::text::multispace0(u.skip(d)) as int;
            lemma_ends_sound(u.skip(d + m), yaml_tag_text());
            assert(children.last() == end);
        }
    }
}

proof fn lemma_json_sound(t: Seq<char>)
    ensures
        yields_sound(spec_json_section_full(t)),
        yields_sound(spec_json_section_start(t)),
{
    lemma_bounds_distinct();
    assert(renderable(Seq::<NodeModel>::empty()));
    assert(closed(Seq::<NodeModel>::empty()));
}

proof fn lemma_checklist_item_parts_sound(t: Seq<char>, sec: SectionsModel)
    ensures
        spec_checklist_item_parts(t, sec) matches Some((_, vs)) ==> all_sound(vs),
    decreases t.len(), 3int,
{
    lemma_checklist_item_parts_unfold(t, sec);
    lemma_start_or_full_section_sound(t, sec);
    let one = match spec_block(BlockGuard::ChecklistItem, t) {
        Some(r) => Some(r),
        None => spec_start_or_full_section(t, sec),
    };
    if let Some((n, v)) = one {
        if 0 < n <= t.len() {
            lemma_checklist_item_parts_sound(t.skip(n), sec);
            lemma_prepend_sound(n, v, spec_checklist_item_parts(t.skip(n), sec));
        }
    }
}

proof fn lemma_checklist_item_with_sections_sound(t: Seq<char>, sec: SectionsModel)
    ensures
        yields_sound(spec_checklist_item_with_sections(t, sec)),
    decreases t.len(), 1int,
{
    lemma_checklist_item_with_sections_unfold(t, sec);
    if starts_with(t, seq!['[', ']', ' ']) {
        lemma_checklist_item_parts_sound(t.skip(3), sec);
        if let Some((_, ch)) = spec_checklist_item_parts(t.skip(3), sec) {
            lemma_all_sound(ch);
        }
    }
}

proof fn lemma_checklist_start_items_sound(t: Seq<char>, sec: SectionsModel)
    ensures
        spec_checklist_start_items(t, sec) matches Some((_, vs)) ==> all_sound(vs),
    decreases t.len(), 2int,
{
    lemma_checklist_start_items_unfold(t, sec);
    lemma_checklist_item_with_sections_sound(t, sec);
    if let Some((n, v)) = spec_checklist_item_with_sections(t, sec) {
        if 0 < n <= t.len() {
            lemma_checklist_start_items_sound(t.skip(n), sec);
            lemma_prepend_sound(n, v, spec_checklist_start_items(t.skip(n), sec));
        }
    }
}

proof fn lemma_checklist_section_start_sound(t: Seq<char>, sec: SectionsModel)
    ensures
        yields_sound(spec_checklist_section_start(t, sec)),
    decreases t.len(), 1int,
{
    lemma_checklist_section_start_unfold(t, sec);
    if starts_with(t, section_mark()) {
        if let Some((k, kind)) = spec_tag_finder(t.skip(3), sec.checklist) {
            lemma_tag_finder_bound(t.skip(3), sec.checklist);
            if starts_with(t.skip(3 + k), seq!['/']) {
                if let Some(h) = spec_header_tail(t.skip(3 + k + 1)) {
                    lemma_header_tail_bound(t.skip(3 + k + 1));
                    let p = 3 + k + 1 + h;
                    lemma_checklist_start_items_sound(t.skip(p), sec);
                    if let Some((n, items)) = spec_checklist_start_items(t.skip(p), sec) {
                        lemma_ends_sound(t.skip(p + n), kind);
                        if let Some((m, end)) = spec_checklist_section_end(t.skip(p + n), kind) {
                            lemma_push_sound(items, end);
                            lemma_all_sound(items.push(end));
                        }
                    }
                }
            }
        }
    }
}

proof fn lemma_list_item_parts_sound(t: Seq<char>, sec: SectionsModel)
    ensures
        spec_list_item_parts(t, sec) matches Some((_, vs)) ==> all_sound(vs),
    decreases t.len(), 3int,
{
    lemma_list_item_parts_unfold(t, sec);
    lemma_start_or_full_section_sound(t, sec);
    let one = match spec_block(BlockGuard::ListItem, t) {
        Some(r) => Some(r),
        None => spec_start_or_full_section(t, sec),
    };
    if let Some((n, v)) = one {
        if 0 < n <= t.len() {
            lemma_list_item_parts_sound(t.skip(n), sec);
            lemma_prepend_sound(n, v, spec_list_item_parts(t.skip(n), sec));
        }
    }
}

proof fn lemma_list_item_with_sections_sound(t: Seq<char>, sec: SectionsModel)
    ensures
        yields_sound(spec_list_item_with_sections(t, sec)),
    decreases t.len(), 1int,
{
    lemma_list_item_with_sections_unfold(t, sec);
    if starts_with(t, seq!['-', ' ']) {
        lemma_list_item_parts_sound(t.skip(2), sec);
        if let Some((_, ch)) = spec_list_item_parts(t.skip(2), sec) {
            lemma_all_sound(ch);
        }
    }
}

proof fn lemma_list_start_items_sound(t: Seq<char>, sec: SectionsModel)
    ensures
        spec_list_start_items(t, sec) matches Some((_, vs)) ==> all_sound(vs),
    decreases t.len(), 2int,
{
    lemma_list_start_items_unfold(t, sec);
    lemma_list_item_with_sections_sound(t, sec);
    if let Some((n, v)) = spec_list_item_with_sections(t, sec) {
        if 0 < n <= t.len() {
            lemma_list_start_items_sound(t.skip(n), sec);
            lemma_prepend_sound(n, v, spec_list_start_items(t.skip(n), sec));
        }
    }
}

proof fn lemma_list_section_start_sound(t: Seq<char>, sec: SectionsModel)
    ensures
        yields_sound(spec_list_section_start(t, sec)),
    decreases t.len(), 1int,
{
    lemma_list_section_start_unfold(t, sec);
    if starts_with(t, section_mark()) {
        if let Some((k, kind)) = spec_tag_finder(t.skip(3), sec.list) {
            lemma_tag_finder_bound(t.skip(3), sec.list);
            if starts_with(t.skip(3 + k), seq!['/']) {
                if let Some(h) = spec_header_tail(t.skip(3 + k + 1)) {
                    lemma_header_tail_bound(t.skip(3 + k + 1));
                    let p = 3 + k + 1 + h;
                    lemma_list_start_items_sound(t.skip(p), sec);
                    if let Some((n, items)) = spec_list_start_items(t.skip(p), sec) {
                        lemma_ends_sound(t.skip(p + n), kind);
                        if let Some((m, end)) = spec_list_section_end(t.skip(p + n), kind) {
                            lemma_push_sound(items, end);
                            lemma_all_sound(items.push(end));
                        }
                    }
                }
            }
        }
    }
}

proof fn lemma_generic_parts_sound(t: Seq<char>, sec: SectionsModel)
    ensures
        spec_generic_parts(t, sec) matches Some((_, vs)) ==> all_sound(vs),
    decreases t.len(), 3int,
{
    lemma_generic_parts_unfold(t, sec);
    lemma_start_or_full_section_sound(t, sec);
    let one = match spec_block(BlockGuard::Anything, t) {
        Some(r) => Some(r),
        None => spec_start_or_full_section(t, sec),
    };
    if let Some((n, v)) = one {
        if 0 < n <= t.len() {
            lemma_generic_parts_sound(t.skip(n), sec);
            lemma_prepend_sound(n, v, spec_generic_parts(t.skip(n), sec));
        }
    }
}

proof fn lemma_generic_section_start_sound(t: Seq<char>, sec: SectionsModel)
    ensures
        yields_sound(spec_generic_section_start(t, sec)),
    decreases t.len(), 1int,
{
    lemma_generic_section_start_unfold(t, sec);
    if starts_with(t, section_mark()) {
        let k = type_name_len(t.skip(3));
        let kind = t.subrange(3, 3 + k);
        lemma_run_len_bound(t.skip(3), |c: char| !ends_type_name(c));
        if k != 0 && starts_with(t.skip(3 + k), seq!['/']) {
            if let Some(h) = spec_header_tail(t.skip(3 + k + 1)) {
                lemma_header_tail_bound(t.skip(3 + k + 1));
                let p = 3 + k + 1 + h;
                lemma_generic_parts_sound(t.skip(p), sec);
                if let Some((n, parts)) = spec_generic_parts(t.skip(p), sec) {
                    lemma_ends_sound(t.skip(p + n), kind);
                    if let Some((m, end)) = spec_generic_section_end(t.skip(p + n), kind) {
                        lemma_push_sound(parts, end);
                        lemma_all_sound(parts.push(end));
                    }
                }
            }
        }
    }
}

/// Every section that can be read is sound.
proof fn lemma_start_or_full_section_sound(t: Seq<char>, sec: SectionsModel)
    ensures
        yields_sound(spec_start_or_full_section(t, sec)),
    decreases t.len(), 2int,
{
    reveal_with_fuel(spec_start_or_full_section, 2);
    lemma_checklist_full_sound(t, sec);
    lemma_list_full_sound(t, sec);
    lemma_generic_full_sound(t);
    lemma_yaml_sound(t);
    lemma_json_sound(t);
    lemma_checklist_section_start_sound(t, sec);
    lemma_list_section_start_sound(t, sec);
    lemma_generic_section_start_sound(t, sec);
}

proof fn lemma_parse_sound(t: Seq<char>, sec: SectionsModel)
    ensures
        spec_parse(t, sec) matches Ok(vs) ==> renderable(vs) && closed(vs),
{
    assert forall|u: Seq<char>| yields_sound(#[trigger] sections_fn(sec)(u)) by {
        lemma_start_or_full_section_sound(u, sec);
    }
    lemma_many0_sound(sections_fn(sec), t);
    if let Some((_, vs)) = spec_parse_runner(t, sec) {
        lemma_all_sound(vs);
    }
}

/// Every document that can be read yields a tree that can be rendered:
/// rendering the result of a successful read never meets a section whose
/// data or text is missing.
pub proof fn lemma_parse_renderable(t: Seq<char>, sec: SectionsModel)
    ensures
        spec_parse(t, sec) matches Ok(vs) ==> renderable(vs),
{
    lemma_parse_sound(t, sec);
}

/// In every document that can be read, each section that runs to an end tag
/// and keeps a node for it (every kind but JSON) is closed by the end tag of
/// its own kind and name, which is its last child; this holds at every depth
/// of the tree.
pub proof fn lemma_parse_closed(t: Seq<char>, sec: SectionsModel)
    ensures
        spec_parse(t, sec) matches Ok(vs) ==> closed(vs),
{
    lemma_parse_sound(t, sec);
}

/// Rendering is compositional: the HTML of two sequences of nodes, one after
/// the other, is the HTML of the first followed by the HTML of the second.
pub proof fn lemma_output_concat(a: Seq<NodeModel>, b: Seq<NodeModel>)
    ensures
        spec_output(a + b) == spec_output(a) + spec_output(b),
    decreases b.len(),
{
    if b.len() == 0 {
        assert(a + b =~= a);
        assert(spec_output(a) + Seq::<char>::empty() =~= spec_output(a));
    } else {
        lemma_output_concat(a, b.drop_last());
        assert((a + b).drop_last() =~= a + b.drop_last());
        assert((a + b).last() == b.last());
        assert(spec_output(a) + spec_output(b.drop_last()) + spec_output_node(b.last())
            =~= spec_output(a) + (spec_output(b.drop_last()) + spec_output_node(b.last())));
    }
}

/// Rendering spans is compositional: the HTML of two sequences of spans, one
/// after the other, is the HTML of the first followed by the HTML of the
/// second.
pub proof fn lemma_output_spans_concat(a: Seq<SpanModel>, b: Seq<SpanModel>)
    ensures
        spec_output_spans(a + b) == spec_output_spans(a) + spec_output_spans(b),
    decreases b.len(),
{
    if b.len() == 0 {
        assert(a + b =~= a);
        assert(spec_output_spans(a) + Seq::<char>::empty() =~= spec_output_spans(a));
    } else {
        lemma_output_spans_concat(a, b.drop_last());
        assert((a + b).drop_last() =~= a + b.drop_last());
        assert((a + b).last() == b.last());
        assert(spec_output_spans(a) + spec_output_spans(b.drop_last()) + spec_output_span(
            b.last(),
        ) =~= spec_output_spans(a) + (spec_output_spans(b.drop_last()) + spec_output_span(
            b.last(),
        )));
    }
}

} // verus!
