//! What the readers accept and where they stop, stated over the input text.
use crate::block::{BlockGuard, block_fn, spec_block, spec_blocks, spec_paragraph};
use crate::render::{attrs_text, flags_text};
use crate::section::checklist::{
    lemma_checklist_section_start_unfold, spec_checklist_section_full, spec_checklist_section_start,
};
use crate::section::generic::{lemma_generic_section_start_unfold, spec_generic_section_full};
use crate::section::json::{json_tag_text, spec_json_section_full, spec_json_section_start};
use crate::section::list::{
    lemma_list_section_start_unfold, spec_list_item, spec_list_item_block, spec_list_section_full,
    spec_list_section_start,
};
use crate::section::node::NodeModel;
use crate::section::yaml::{spec_yaml_section_full, yaml_tag_text};
use crate::section::{
    data_end_mark, empty_line_fn, end_mark, section_mark, spec_empty_until_newline_or_eof,
    spec_header_gap, spec_header_tail, spec_start_or_full_section, spec_tag_finder,
};
use crate::span::{paragraph_break, span_finder_fn, spec_span_finder, spec_spans};
use crate::text::{
    column_of, ends_type_name, find, is_multispace, is_unicode_whitespace, last_line,
    lemma_encode_utf8_concat, lemma_find_bound, lemma_run_len_bound, lemma_trimmed_len_bound,
    line_of, many0, multispace0, prepend, run_len, space0, starts_with, trim_end, trimmed_len,
};
use crate::{ParserErrorModel, SectionsModel, sections_fn, spec_parse, spec_parse_runner};
use vstd::prelude::*;
use vstd::utf8::{encode_scalar, encode_utf8};

verus! {

/// `r` holds a value only where it consumed at least one character and no
/// more than `u` has.
pub open spec fn consumes_some<T>(r: Option<(int, T)>, u: Seq<char>) -> bool {
    match r {
        Some((n, _)) => 0 < n <= u.len(),
        None => true,
    }
}

/// What `many0` consumes lies between nothing and all of its input.
pub proof fn lemma_many0_bound<T>(p: spec_fn(Seq<char>) -> Option<(int, T)>, t: Seq<char>)
    ensures
        many0(p, t) matches Some((n, _)) ==> 0 <= n <= t.len(),
    decreases t.len(),
{
    if let Some((n, v)) = p(t) {
        if 0 < n <= t.len() {
            lemma_many0_bound(p, t.skip(n));
        }
    }
}

/// Repeating a reader that always makes progress never fails.
pub proof fn lemma_many0_some<T>(p: spec_fn(Seq<char>) -> Option<(int, T)>, t: Seq<char>)
    requires
        forall|u: Seq<char>| consumes_some(#[trigger] p(u), u),
    ensures
        many0(p, t) is Some,
    decreases t.len(),
{
    assert(consumes_some(p(t), t));
    if let Some((n, v)) = p(t) {
        lemma_many0_some(p, t.skip(n));
    }
}

/// A span always makes progress, and one is read from any non-empty text
/// that does not begin with a blank line.
pub proof fn lemma_span_finder_progress(u: Seq<char>)
    ensures
        consumes_some(spec_span_finder(u), u),
        u.len() > 0 && !paragraph_break(u) ==> spec_span_finder(u) is Some,
{
    lemma_run_len_bound(u, |c: char| crate::text::is_space(c));
    lemma_run_len_bound(u, |c: char| !crate::text::ends_word(c));
    let a = space0(u) as int;
    if u.len() > 0 && a == 0 && u[0] == '\n' {
        assert(u.skip(0) =~= u);
    }
}

/// A paragraph is read from any non-empty text, and takes at least one
/// character of it.
pub proof fn lemma_paragraph_progress(t: Seq<char>)
    ensures
        t.len() > 0 ==> consumes_some(spec_paragraph(t), t),
        t.len() > 0 ==> spec_paragraph(t) is Some,
{
    assert forall|u: Seq<char>| consumes_some(#[trigger] span_finder_fn()(u), u) by {
        lemma_span_finder_progress(u);
    }
    lemma_many0_some(span_finder_fn(), t);
    lemma_many0_bound(span_finder_fn(), t);
    let (n, sp) = spec_spans(t).unwrap();
    lemma_run_len_bound(t.skip(n), |c: char| is_multispace(c));
    assert(multispace0(t.skip(n)) <= t.len() - n);
    if n == 0 && t.len() > 0 {
        lemma_span_finder_progress(t);
        if let Some((k, v)) = spec_span_finder(t) {
            lemma_many0_some(span_finder_fn(), t.skip(k));
            lemma_many0_bound(span_finder_fn(), t.skip(k));
            assert(span_finder_fn()(t) == Some((k, v)));
            assert(false);
        }
        assert(paragraph_break(t));
        lemma_run_len_bound(t, |c: char| crate::text::is_space(c));
        assert(t.skip(0) =~= t);
        if space0(t) > 0 {
            assert(crate::text::is_space(t[0]));
        }
        assert(is_multispace(t[0]));
        assert(multispace0(t) >= 1);
    }
}

/// Reading blocks one after another never fails.
pub proof fn lemma_blocks_some(g: BlockGuard, t: Seq<char>)
    ensures
        spec_blocks(g, t) is Some,
{
    assert forall|u: Seq<char>| consumes_some(#[trigger] block_fn(g)(u), u) by {
        lemma_paragraph_progress(u);
    }
    lemma_many0_some(block_fn(g), t);
}

/// What may begin a block, by place: in a list item anything but `-`; after
/// an end tag anything but `-` and `[`; in a checklist item anything but
/// `--` and `[`; elsewhere anything but `--`. Where a block may begin, the
/// whole paragraph there is read as it; where it may not, nothing is.
pub proof fn lemma_block_guards(t: Seq<char>)
    requires
        t.len() > 0,
    ensures
        t[0] != '-' ==> spec_block(BlockGuard::ListItem, t) == spec_paragraph(t),
        t[0] == '-' ==> spec_block(BlockGuard::ListItem, t) is None,
        t[0] != '-' && t[0] != '[' ==> spec_block(BlockGuard::EndContent, t) == spec_paragraph(t),
        t[0] == '-' || t[0] == '[' ==> spec_block(BlockGuard::EndContent, t) is None,
        !(t.len() >= 2 && t[0] == '-' && t[1] == '-') ==> spec_block(BlockGuard::Anything, t)
            == spec_paragraph(t),
        t.len() >= 2 && t[0] == '-' && t[1] == '-' ==> spec_block(BlockGuard::Anything, t) is None,
        !(t.len() >= 2 && t[0] == '-' && t[1] == '-') && t[0] != '[' ==> spec_block(
            BlockGuard::ChecklistItem,
            t,
        ) == spec_paragraph(t),
        (t.len() >= 2 && t[0] == '-' && t[1] == '-') || t[0] == '[' ==> spec_block(
            BlockGuard::ChecklistItem,
            t,
        ) is None,
{
    assert(t.take(1) =~= seq![t[0]]);
    if t.len() >= 2 {
        assert(t.take(2) =~= seq![t[0], t[1]]);
    }
    if crate::text::starts_with(t, seq!['-', '-']) {
        assert(t.take(2)[0] == seq!['-', '-'][0] && t.take(2)[1] == seq!['-', '-'][1]);
    }
    if crate::text::starts_with(t, seq!['-']) {
        assert(t.take(1)[0] == seq!['-'][0]);
    }
    if crate::text::starts_with(t, seq!['[']) {
        assert(t.take(1)[0] == seq!['['][0]);
    }
}

/// A list item holds any paragraph that does not begin with `-`: reading
/// `- ` followed by such a paragraph gives an item whose first child is that
/// paragraph's block.
pub proof fn lemma_list_item_reads_any_paragraph(p: Seq<char>)
    requires
        p.len() > 0,
        p[0] != '-',
    ensures
        spec_list_item_block(p) == spec_paragraph(p),
        spec_paragraph(p) is Some,
        spec_list_item(seq!['-', ' '] + p) matches Some((_, NodeModel::ListItem { children }))
            && children.len() > 0 && children[0] == spec_paragraph(p).unwrap().1,
{
    lemma_block_guards(p);
    lemma_paragraph_progress(p);
    let t = seq!['-', ' '] + p;
    assert(t.take(2) =~= seq!['-', ' ']);
    assert(t.skip(2) =~= p);
    let (n, v) = spec_paragraph(p).unwrap();
    lemma_blocks_some(BlockGuard::ListItem, p.skip(n));
    lemma_many0_bound(block_fn(BlockGuard::ListItem), p.skip(n));
    let (m, ws) = spec_blocks(BlockGuard::ListItem, p.skip(n)).unwrap();
    assert((seq![v] + ws)[0] == v);
}

/// The flags of a span are written one after another, each as a space and
/// the flag: the text of two runs of flags is the text of the first followed
/// by that of the second.
pub proof fn lemma_flags_text_concat(a: Seq<Seq<char>>, b: Seq<Seq<char>>)
    ensures
        flags_text(a + b) == flags_text(a) + flags_text(b),
    decreases b.len(),
{
    if b.len() == 0 {
        assert(a + b =~= a);
        assert(flags_text(a) + Seq::<char>::empty() =~= flags_text(a));
    } else {
        lemma_flags_text_concat(a, b.drop_last());
        assert((a + b).drop_last() =~= a + b.drop_last());
        assert((a + b).last() == b.last());
        assert(flags_text(a) + flags_text(b.drop_last()) + seq![' '] + b.last() =~= flags_text(a)
            + (flags_text(b.drop_last()) + seq![' '] + b.last()));
    }
}

/// One flag is written as a space and the flag.
pub proof fn lemma_flags_text_one(x: Seq<char>)
    ensures
        flags_text(seq![x]) == seq![' '] + x,
{
    reveal_strlit(" ");
    assert(seq![x].drop_last() =~= Seq::<Seq<char>>::empty());
    assert(flags_text(Seq::<Seq<char>>::empty()) == Seq::<char>::empty());
    assert(" "@ =~= seq![' ']);
    assert(Seq::<char>::empty() + " "@ + x =~= seq![' '] + x);
}

/// The text of the flags is as long as the flags and one space for each.
pub proof fn lemma_flags_text_len(f: Seq<Seq<char>>)
    ensures
        flags_text(f).len() == f.len() + f.fold_left(0int, |acc: int, x: Seq<char>| acc + x.len()),
    decreases f.len(),
{
    reveal_strlit(" ");
    if f.len() > 0 {
        lemma_flags_text_len(f.drop_last());
    }
}

/// The attributes of a span are written one after another, each as
/// ` name="value"`: the text of two runs of attributes is the text of the
/// first followed by that of the second.
pub proof fn lemma_attrs_text_concat(a: Seq<(Seq<char>, Seq<char>)>, b: Seq<(Seq<char>, Seq<char>)>)
    ensures
        attrs_text(a + b) == attrs_text(a) + attrs_text(b),
    decreases b.len(),
{
    if b.len() == 0 {
        assert(a + b =~= a);
        assert(attrs_text(a) + Seq::<char>::empty() =~= attrs_text(a));
    } else {
        lemma_attrs_text_concat(a, b.drop_last());
        assert((a + b).drop_last() =~= a + b.drop_last());
        assert((a + b).last() == b.last());
        let l = b.last();
        assert(attrs_text(a) + attrs_text(b.drop_last()) + " "@ + l.0 + "=\""@ + l.1 + "\""@
            =~= attrs_text(a) + (attrs_text(b.drop_last()) + " "@ + l.0 + "=\""@ + l.1 + "\""@));
    }
}

/// One attribute is written as a space, its name, `="`, its value and `"`.
pub proof fn lemma_attrs_text_one(name: Seq<char>, value: Seq<char>)
    ensures
        attrs_text(seq![(name, value)]) == seq![' '] + name + seq!['=', '"'] + value + seq!['"'],
{
    reveal_strlit(" ");
    reveal_strlit("=\"");
    reveal_strlit("\"");
    assert(seq![(name, value)].drop_last() =~= Seq::<(Seq<char>, Seq<char>)>::empty());
    assert(attrs_text(Seq::<(Seq<char>, Seq<char>)>::empty()) == Seq::<char>::empty());
    assert(" "@ =~= seq![' ']);
    assert("=\""@ =~= seq!['=', '"']);
    assert("\""@ =~= seq!['"']);
    assert(Seq::<char>::empty() + " "@ + name + "=\""@ + value + "\""@ =~= seq![' '] + name
        + seq!['=', '"'] + value + seq!['"']);
}

/// No name of `names` begins `t`.
pub open spec fn begins_with_none_of(t: Seq<char>, names: Seq<Seq<char>>) -> bool {
    forall|i: int| 0 <= i < names.len() ==> !starts_with(t, #[trigger] names[i])
}

proof fn lemma_tag_finder_none(t: Seq<char>, names: Seq<Seq<char>>)
    requires
        begins_with_none_of(t, names),
    ensures
        spec_tag_finder(t, names) is None,
    decreases names.len(),
{
    if names.len() > 0 {
        assert(!starts_with(t, names[0]));
        assert forall|i: int| 0 <= i < names.drop_first().len() implies !starts_with(
            t,
            #[trigger] names.drop_first()[i],
        ) by {
            assert(names.drop_first()[i] == names[i + 1]);
        }
        lemma_tag_finder_none(t, names.drop_first());
    }
}

/// Where the text after `-- ` begins with no checklist or list name, no
/// checklist or list section is read.
proof fn lemma_no_named_section(t: Seq<char>, sec: SectionsModel)
    requires
        t.len() >= 3,
        begins_with_none_of(t.skip(3), sec.checklist),
        begins_with_none_of(t.skip(3), sec.list),
    ensures
        spec_checklist_section_full(t, sec) is None,
        spec_checklist_section_start(t, sec) is None,
        spec_list_section_full(t, sec) is None,
        spec_list_section_start(t, sec) is None,
{
    lemma_tag_finder_none(t.skip(3), sec.checklist);
    lemma_tag_finder_none(t.skip(3), sec.list);
    lemma_checklist_section_start_unfold(t, sec);
    lemma_list_section_start_unfold(t, sec);
}

/// The empty text holds no section.
proof fn lemma_no_section_in_empty(sec: SectionsModel)
    ensures
        spec_start_or_full_section(Seq::empty(), sec) is None,
{
    reveal_with_fuel(spec_start_or_full_section, 1);
    lemma_checklist_section_start_unfold(Seq::empty(), sec);
    lemma_list_section_start_unfold(Seq::empty(), sec);
    lemma_generic_section_start_unfold(Seq::empty(), sec);
}

proof fn lemma_run_len_exact(t: Seq<char>, p: spec_fn(char) -> bool, m: int)
    requires
        0 <= m <= t.len(),
        forall|i: int| 0 <= i < m ==> p(#[trigger] t[i]),
        m < t.len() ==> !p(t[m]),
    ensures
        run_len(t, p) == m,
    decreases m,
{
    if m > 0 {
        assert(p(t[0]));
        assert forall|i: int| 0 <= i < m - 1 implies p(#[trigger] t.skip(1)[i]) by {
            assert(t.skip(1)[i] == t[i + 1]);
        }
        if m < t.len() {
            assert(t.skip(1)[m - 1] == t[m]);
        }
        lemma_run_len_exact(t.skip(1), p, m - 1);
    } else if t.len() > 0 {
        assert(!p(t[0]));
    }
}

proof fn lemma_find_first(t: Seq<char>, p: Seq<char>, k: int)
    requires
        0 <= k <= t.len(),
        starts_with(t.skip(k), p),
        forall|j: int| 0 <= j < k ==> !starts_with(#[trigger] t.skip(j), p),
    ensures
        find(t, p) == Some(k),
    decreases k,
{
    assert(t.skip(0) =~= t);
    if k > 0 {
        assert(!starts_with(t.skip(0), p));
        assert(t.skip(1).skip(k - 1) =~= t.skip(k));
        assert forall|j: int| 0 <= j < k - 1 implies !starts_with(#[trigger] t.skip(1).skip(j), p) by {
            assert(t.skip(1).skip(j) =~= t.skip(j + 1));
        }
        lemma_find_first(t.skip(1), p, k - 1);
    }
}

/// `d` holds no line that starts with `--`: nowhere in it does a line feed
/// stand before two dashes.
pub open spec fn no_section_line(d: Seq<char>) -> bool {
    forall|i: int| 0 <= i < d.len() - 2 ==> !(#[trigger] d[i] == '\n' && d[i + 1] == '-' && d[i + 2] == '-')
}

/// `c` is a space, tab, carriage return or line feed.
pub open spec fn blank_char(c: char) -> bool {
    c == ' ' || c == '\t' || c == '\r' || c == '\n'
}

proof fn lemma_no_data_end(d: Seq<char>)
    requires
        no_section_line(d),
    ensures
        find(d, data_end_mark()) is None,
{
    lemma_find_bound(d, data_end_mark());
    if let Some(k) = find(d, data_end_mark()) {
        let w = d.skip(k).take(3);
        assert(w[0] == d[k] && w[1] == d[k + 1] && w[2] == d[k + 2]);
        assert(w[0] == '\n' && w[1] == '-' && w[2] == '-');
        assert(!(d[k] == '\n' && d[k + 1] == '-' && d[k + 2] == '-'));
    }
}

/// Two line feeds and then `d`, whose first line is not blank: the blank
/// line that ends a data header and nothing more.
proof fn lemma_data_header_gap(d: Seq<char>)
    requires
        d.len() > 0,
        !blank_char(d[0]),
    ensures
        spec_header_gap(seq!['\n', '\n'] + d) == Some(2int),
{
    let x = seq!['\n', '\n'] + d;
    assert(x.skip(0) =~= x);
    assert(x.skip(1) =~= seq!['\n'] + d);
    assert(x.skip(2) =~= d);
    assert(x.skip(1).skip(1) =~= d);
    assert(x[0] == '\n');
    assert(space0(x) == 0);
    assert(x.skip(1)[0] == '\n');
    assert(space0(x.skip(1)) == 0);
    assert(spec_empty_until_newline_or_eof(x) == Some(1int));
    assert(spec_empty_until_newline_or_eof(x.skip(1)) == Some(1int));
    assert(space0(d) == 0);
    assert(multispace0(d) == 0);
    assert(spec_empty_until_newline_or_eof(d) is None);
    assert(empty_line_fn()(d) is None);
    assert(many0(empty_line_fn(), d) == Some((0int, Seq::<()>::empty())));
}

/// A document made of a YAML header and its data.
pub open spec fn yaml_document(d: Seq<char>) -> Seq<char> {
    seq!['-', '-', ' ', 'y', 'a', 'm', 'l', '-', 'e', 'x', 'a', 'm', 'p', 'l', 'e', '\n', '\n'] + d
}

#[verifier::spinoff_prover]
proof fn lemma_yaml_full_reads(d: Seq<char>)
    requires
        d.len() > 0,
        !blank_char(d[0]),
        no_section_line(d),
    ensures
        spec_yaml_section_full(yaml_document(d)) == Some(
            (
                yaml_document(d).len() as int,
                NodeModel::Yaml {
                    bounds: "full"@,
                    kind: yaml_tag_text(),
                    data: Some(trim_end(d)),
                    children: Seq::empty(),
                },
            ),
        ),
{
    let t = yaml_document(d);
    let r = t.skip(3);
    assert(t.take(3) =~= section_mark());
    assert(r.take(12) =~= yaml_tag_text());
    assert(t.skip(15) =~= seq!['\n', '\n'] + d);
    lemma_data_header_gap(d);
    assert(t.skip(17) =~= d);
    lemma_no_data_end(d);
    assert(d.take(d.len() as int) =~= d);
    assert(d.skip(d.len() as int) =~= Seq::<char>::empty());
    assert(multispace0(Seq::<char>::empty()) == 0);
}

/// The data of a YAML section without an end tag runs to the first line
/// that starts with `--`, or to the end of the input: a document made of
/// the header `-- yaml-example`, a blank line and data `d` that holds no
/// such line (and whose first line is not blank) reads as one YAML section
/// whose data is `d` without trailing whitespace. Lines that start with a
/// single `-` are data like any other.
#[verifier::spinoff_prover]
pub proof fn lemma_yaml_data_runs_to_section_line(d: Seq<char>, sec: SectionsModel)
    requires
        d.len() > 0,
        !blank_char(d[0]),
        no_section_line(d),
        begins_with_none_of(yaml_document(d).skip(3), sec.checklist),
        begins_with_none_of(yaml_document(d).skip(3), sec.list),
    ensures
        spec_parse(yaml_document(d), sec) == Ok::<Seq<NodeModel>, ParserErrorModel>(
            seq![
                NodeModel::Yaml {
                    bounds: "full"@,
                    kind: yaml_tag_text(),
                    data: Some(trim_end(d)),
                    children: Seq::empty(),
                },
            ],
        ),
{
    let t = yaml_document(d);
    let r = t.skip(3);
    let node = NodeModel::Yaml {
        bounds: "full"@,
        kind: yaml_tag_text(),
        data: Some(trim_end(d)),
        children: Seq::empty(),
    };
    reveal_with_fuel(spec_start_or_full_section, 1);
    assert(t.take(3) =~= section_mark());
    assert(r =~= yaml_tag_text() + seq!['\n', '\n'] + d);
    lemma_no_named_section(t, sec);
    assert(r[0] == 'y');
    if starts_with(r, json_tag_text()) {
        assert(r.take(8)[0] == json_tag_text()[0]);
    }
    assert(spec_json_section_full(t) is None);
    assert(spec_json_section_start(t) is None);
    lemma_yaml_full_reads(d);
    assert(spec_start_or_full_section(t, sec) == Some((t.len() as int, node)));
    assert(sections_fn(sec)(t) == Some((t.len() as int, node)));
    assert(t.skip(t.len() as int) =~= Seq::<char>::empty());
    lemma_no_section_in_empty(sec);
    assert(sections_fn(sec)(Seq::<char>::empty()) is None);
    assert(many0(sections_fn(sec), Seq::<char>::empty()) == Some((0int, Seq::<NodeModel>::empty())));
    assert(seq![node] + Seq::<NodeModel>::empty() =~= seq![node]);
    assert(spec_parse_runner(t, sec) == Some((t.len() as int, seq![node])));
}

/// In `d`, a line feed and `--`, then `w`, where `d` holds no line that starts
/// with `--`, the first such line starts right after `d`, and the whitespace
/// there is that line feed alone.
proof fn lemma_data_stops_at_section_line(d: Seq<char>, w: Seq<char>)
    requires
        no_section_line(d),
    ensures
        find(d + seq!['\n', '-', '-'] + w, data_end_mark()) == Some(d.len() as int),
        (d + seq!['\n', '-', '-'] + w).take(d.len() as int) == d,
        multispace0((d + seq!['\n', '-', '-'] + w).skip(d.len() as int)) == 1,
{
    let u = d + seq!['\n', '-', '-'] + w;
    let len = d.len() as int;
    assert(u.skip(len) =~= seq!['\n', '-', '-'] + w);
    assert(u.skip(len).take(3) =~= data_end_mark());
    assert forall|j: int| 0 <= j < len implies !starts_with(#[trigger] u.skip(j), data_end_mark()) by {
        if starts_with(u.skip(j), data_end_mark()) {
            let q = u.skip(j).take(3);
            assert(q[0] == u[j] && q[1] == u[j + 1] && q[2] == u[j + 2]);
            assert(q[0] == '\n' && q[1] == '-' && q[2] == '-');
            if j + 2 < len {
                assert(u[j] == d[j] && u[j + 1] == d[j + 1] && u[j + 2] == d[j + 2]);
                assert(!(d[j] == '\n' && d[j + 1] == '-' && d[j + 2] == '-'));
            } else if j + 2 == len {
                assert(u[j + 2] == '\n');
            } else {
                assert(u[j + 1] == '\n');
            }
        }
    }
    lemma_find_first(u, data_end_mark(), len);
    assert(u.take(len) =~= d);
    let v = u.skip(len);
    assert(v.skip(1) =~= seq!['-', '-'] + w);
    assert(multispace0(v.skip(1)) == 0);
}

/// A document made of a JSON header, its data `d`, a line feed, and text `w`
/// whose first line starts with `--`.
pub open spec fn json_document(d: Seq<char>, w: Seq<char>) -> Seq<char> {
    seq!['-', '-', ' ', 'm', 'e', 't', 'a', 'd', 'a', 't', 'a', '\n', '\n'] + d + seq!['\n', '-', '-']
        + w
}

#[verifier::spinoff_prover]
proof fn lemma_json_full_reads(d: Seq<char>, w: Seq<char>)
    requires
        d.len() > 0,
        !blank_char(d[0]),
        no_section_line(d),
    ensures
        spec_json_section_full(json_document(d, w)) == Some(
            (
                14 + d.len() as int,
                NodeModel::Json {
                    bounds: "full"@,
                    kind: json_tag_text(),
                    data: Some(trim_end(d)),
                    children: Seq::empty(),
                },
            ),
        ),
{
    let t = json_document(d, w);
    let r = t.skip(3);
    let u = t.skip(13);
    assert(t.take(3) =~= section_mark());
    assert(r.take(8) =~= json_tag_text());
    assert(t.skip(11) =~= seq!['\n', '\n'] + (d + seq!['\n', '-', '-'] + w));
    lemma_data_header_gap(d + seq!['\n', '-', '-'] + w);
    assert(u =~= d + seq!['\n', '-', '-'] + w);
    lemma_data_stops_at_section_line(d, w);
}

/// A JSON section without an end tag ends at the next line that starts with
/// `--`: after the header `-- metadata`, a blank line and data `d` that holds
/// no such line (and whose first line is not blank), the section read holds
/// `d` without trailing whitespace and stops at that next line, which is left
/// whole to the readers that follow; reading many sections from the document
/// is this section followed by what is read from that line on.
#[verifier::spinoff_prover]
pub proof fn lemma_json_data_stops_at_section_line(d: Seq<char>, w: Seq<char>, sec: SectionsModel)
    requires
        d.len() > 0,
        !blank_char(d[0]),
        no_section_line(d),
        begins_with_none_of(json_document(d, w).skip(3), sec.checklist),
        begins_with_none_of(json_document(d, w).skip(3), sec.list),
    ensures
        spec_start_or_full_section(json_document(d, w), sec) == Some(
            (
                14 + d.len() as int,
                NodeModel::Json {
                    bounds: "full"@,
                    kind: json_tag_text(),
                    data: Some(trim_end(d)),
                    children: Seq::empty(),
                },
            ),
        ),
        json_document(d, w).skip(14 + d.len() as int) == seq!['-', '-'] + w,
        many0(sections_fn(sec), json_document(d, w)) == prepend(
            14 + d.len() as int,
            seq![
                NodeModel::Json {
                    bounds: "full"@,
                    kind: json_tag_text(),
                    data: Some(trim_end(d)),
                    children: Seq::empty(),
                },
            ],
            many0(sections_fn(sec), seq!['-', '-'] + w),
        ),
{
    let t = json_document(d, w);
    let r = t.skip(3);
    let u = t.skip(13);
    let len = d.len() as int;
    let node = NodeModel::Json {
        bounds: "full"@,
        kind: json_tag_text(),
        data: Some(trim_end(d)),
        children: Seq::empty(),
    };
    reveal_with_fuel(spec_start_or_full_section, 1);
    assert(t.take(3) =~= section_mark());
    lemma_no_named_section(t, sec);
    lemma_json_full_reads(d, w);
    assert(spec_start_or_full_section(t, sec) == Some((14 + len, node)));
    assert(t.skip(14 + len) =~= seq!['-', '-'] + w);
    assert(sections_fn(sec)(t) == Some((14 + len, node)));
}

/// A document made of the header `-- n`, a blank line and text `w`.
pub open spec fn generic_document(n: Seq<char>, w: Seq<char>) -> Seq<char> {
    seq!['-', '-', ' '] + n + seq!['\n', '\n'] + w
}

/// The name of a generic section is everything after `-- ` up to a space, a
/// slash or a line feed: where the text after `-- ` is a name `n` without
/// those characters, then a blank line and anything, and no other kind of
/// section claims it, the section read is a generic section named `n` in
/// full.
#[verifier::spinoff_prover]
pub proof fn lemma_generic_name_runs_to_separator(n: Seq<char>, w: Seq<char>, sec: SectionsModel)
    requires
        n.len() > 0,
        forall|i: int| 0 <= i < n.len() ==> #[trigger] n[i] != ' ' && n[i] != '/' && n[i] != '\n',
        !starts_with(generic_document(n, w).skip(3), json_tag_text()),
        !starts_with(generic_document(n, w).skip(3), yaml_tag_text()),
        begins_with_none_of(generic_document(n, w).skip(3), sec.checklist),
        begins_with_none_of(generic_document(n, w).skip(3), sec.list),
    ensures
        spec_start_or_full_section(generic_document(n, w), sec) matches Some(
            (_, NodeModel::Generic { kind, bounds, .. }),
        ) && kind == n && bounds == "full"@,
{
    let t = generic_document(n, w);
    let r = t.skip(3);
    let k = n.len() as int;
    reveal_with_fuel(spec_start_or_full_section, 1);
    assert(t.take(3) =~= section_mark());
    lemma_no_named_section(t, sec);
    assert(r =~= n + seq!['\n', '\n'] + w);
    assert forall|i: int| 0 <= i < k implies (|c: char| !ends_type_name(c))(#[trigger] r[i]) by {
        assert(r[i] == n[i]);
    }
    assert(r[k] == '\n');
    lemma_run_len_exact(r, |c: char| !ends_type_name(c), k);
    let x = r.skip(k);
    assert(x =~= seq!['\n', '\n'] + w);
    assert(t.skip(3 + k) =~= x);
    assert(x.skip(1) =~= seq!['\n'] + w);
    assert(x.skip(2) =~= w);
    assert(x.skip(1).skip(1) =~= w);
    assert(space0(x) == 0);
    assert(space0(x.skip(1)) == 0);
    assert(spec_empty_until_newline_or_eof(x) == Some(1int));
    assert(spec_empty_until_newline_or_eof(x.skip(1)) == Some(1int));
    let h = 2 + multispace0(w) as int;
    assert(spec_header_tail(x) == Some(h as int));
    lemma_blocks_some(BlockGuard::Anything, t.skip(3 + k + h));
    assert(t.subrange(3, 3 + k) =~= n);
    assert(spec_generic_section_full(t) is Some);
}

/// The end tag of a JSON section.
pub open spec fn json_end_tag() -> Seq<char> {
    seq!['-', '-', ' ', '/', 'm', 'e', 't', 'a', 'd', 'a', 't', 'a']
}

/// A document made of the header `-- metadata/`, a blank line, data `d`, the
/// end tag `-- /metadata` and text `w`.
pub open spec fn json_start_document(d: Seq<char>, w: Seq<char>) -> Seq<char> {
    seq!['-', '-', ' ', 'm', 'e', 't', 'a', 'd', 'a', 't', 'a', '/', '\n', '\n'] + d
        + json_end_tag() + w
}

/// A JSON section with an end tag holds the data up to its first end tag,
/// reads that tag and the whitespace after it, keeps no child, and leaves
/// the rest of the text: after the header `-- metadata/`, a blank line and
/// data `d` (whose first line is not blank and in which no end tag starts),
/// the section read holds `d` without trailing whitespace and stops after
/// `-- /metadata` and the whitespace that follows it.
#[verifier::spinoff_prover]
pub proof fn lemma_json_start_reads_to_its_end_tag(d: Seq<char>, w: Seq<char>)
    requires
        d.len() > 0,
        !blank_char(d[0]),
        forall|j: int| 0 <= j < d.len() ==> !starts_with(
            #[trigger] (d + json_end_tag() + w).skip(j),
            json_end_tag(),
        ),
    ensures
        spec_json_section_start(json_start_document(d, w)) == Some(
            (
                14 + d.len() + 12 + multispace0(w) as int,
                NodeModel::Json {
                    bounds: "start"@,
                    kind: json_tag_text(),
                    data: Some(trim_end(d)),
                    children: Seq::empty(),
                },
            ),
        ),
        json_start_document(d, w).skip(14 + d.len() + 12 + multispace0(w) as int) == w.skip(
            multispace0(w) as int,
        ),
{
    let t = json_start_document(d, w);
    let r = t.skip(3);
    let u = d + json_end_tag() + w;
    let len = d.len() as int;
    assert(t.take(3) =~= section_mark());
    assert(r.take(8) =~= json_tag_text());
    assert(t.skip(11).take(1) =~= seq!['/']);
    assert(t.skip(12) =~= seq!['\n', '\n'] + u);
    lemma_data_header_gap(u);
    assert(t.skip(14) =~= u);
    assert(end_mark() + json_tag_text() =~= json_end_tag());
    assert(u.skip(len).take(12) =~= json_end_tag());
    lemma_find_first(u, json_end_tag(), len);
    assert(u.take(len) =~= d);
    assert(u.skip(len + 12) =~= w);
    lemma_run_len_bound(w, |c: char| is_multispace(c));
    assert(t.skip(14 + len + 12 + multispace0(w) as int) =~= w.skip(multispace0(w) as int));
}

/// Trimming the end of a text removes its trailing whitespace and nothing
/// else: what is left is a prefix of the text that is empty or ends in a
/// character that is not whitespace, and every character removed is
/// whitespace.
pub proof fn lemma_trim_end_removes_trailing_whitespace(t: Seq<char>)
    ensures
        trim_end(t).len() <= t.len(),
        trim_end(t) == t.take(trim_end(t).len() as int),
        trim_end(t).len() > 0 ==> !is_unicode_whitespace(trim_end(t).last()),
        forall|i: int| trim_end(t).len() <= i < t.len() ==> is_unicode_whitespace(#[trigger] t[i]),
    decreases t.len(),
{
    lemma_trimmed_len_bound(t);
    if t.len() > 0 && is_unicode_whitespace(t.last()) {
        let s = t.drop_last();
        lemma_trim_end_removes_trailing_whitespace(s);
        lemma_trimmed_len_bound(s);
        assert(trimmed_len(t) == trimmed_len(s));
        assert(t.take(trimmed_len(t) as int) =~= s.take(trimmed_len(s) as int));
        assert forall|i: int| trim_end(t).len() <= i < t.len() implies is_unicode_whitespace(
            #[trigger] t[i],
        ) by {
            if i < s.len() {
                assert(t[i] == s[i]);
            }
        }
    } else {
        assert(t.take(t.len() as int) =~= t);
    }
}

/// A line feed ends a line: the position after it is on the next line, at
/// column 1.
pub proof fn lemma_line_feed_starts_a_line(t: Seq<char>)
    ensures
        line_of(t.push('\n'), t.len() + 1int) == line_of(t, t.len() as int) + 1,
        column_of(t.push('\n'), t.len() + 1int) == 1,
{
    assert(t.push('\n').take(t.len() + 1int) =~= t.push('\n'));
    assert(t.take(t.len() as int) =~= t);
    assert(t.push('\n').drop_last() =~= t);
    assert(encode_utf8(Seq::<char>::empty()) =~= Seq::<u8>::empty());
}

/// Any other character stays on the line and moves the column on by the
/// number of bytes it takes in UTF-8.
pub proof fn lemma_character_advances_column(t: Seq<char>, c: char)
    requires
        c != '\n',
    ensures
        line_of(t.push(c), t.len() + 1int) == line_of(t, t.len() as int),
        column_of(t.push(c), t.len() + 1int) == column_of(t, t.len() as int) + encode_scalar(
            c as u32,
        ).len(),
{
    assert(t.push(c).take(t.len() + 1int) =~= t.push(c));
    assert(t.take(t.len() as int) =~= t);
    assert(t.push(c).drop_last() =~= t);
    let l = last_line(t);
    assert(last_line(t.push(c)) == l.push(c));
    lemma_encode_utf8_concat(l, seq![c]);
    assert(l.push(c) =~= l + seq![c]);
    vstd::utf8::char_is_scalar(c);
    assert(seq![c].drop_first() =~= Seq::<char>::empty());
    assert(encode_utf8(seq![c]) =~= encode_scalar(c as u32) + encode_utf8(seq![c].drop_first()));
}

} // verus!
