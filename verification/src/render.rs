//! Rendering a tree of nodes, and the spans of its blocks, as HTML.
use crate::section::node::{Node, NodeModel, lemma_nodes_model, nodes_model};
use crate::span::{Span, SpanModel, attrs_model, flags_model, spans_model};
use vstd::prelude::*;

verus! {

/// ` name="value"` for each attribute, in order.
pub open spec fn attrs_text(a: Seq<(Seq<char>, Seq<char>)>) -> Seq<char>
    decreases a.len(),
{
    if a.len() == 0 {
        Seq::empty()
    } else {
        attrs_text(a.drop_last()) + " "@ + a.last().0 + "=\""@ + a.last().1 + "\""@
    }
}

/// ` flag` for each flag, in order.
pub open spec fn flags_text(f: Seq<Seq<char>>) -> Seq<char>
    decreases f.len(),
{
    if f.len() == 0 {
        Seq::empty()
    } else {
        flags_text(f.drop_last()) + " "@ + f.last()
    }
}

/// The HTML of a sequence of spans: each span's HTML, in order.
pub open spec fn spec_output_spans(ss: Seq<SpanModel>) -> Seq<char>
    decreases ss,
{
    if ss.len() == 0 {
        Seq::empty()
    } else {
        spec_output_spans(ss.drop_last()) + spec_output_span(ss.last())
    }
}

/// The HTML of one span. Line endings and runs of spaces become a single
/// space; word parts are written as they are.
pub open spec fn spec_output_span(sp: SpanModel) -> Seq<char>
    decreases sp,
{
    match sp {
        SpanModel::Button { attrs, flags, text } => "<button"@ + attrs_text(attrs) + flags_text(
            flags,
        ) + ">"@ + text + "</button>"@,
        SpanModel::Code { attrs, flags, text } => "<code"@ + attrs_text(attrs) + flags_text(flags)
            + ">"@ + text + "</code>"@,
        SpanModel::Em { attrs, flags, text } => "<em"@ + attrs_text(attrs) + flags_text(flags)
            + ">"@ + text + "</em>"@,
        SpanModel::KnownSpan { kind, spans, attrs, flags } => "<"@ + kind + attrs_text(attrs)
            + flags_text(flags) + ">"@ + spec_output_spans(spans) + "</"@ + kind + ">"@,
        SpanModel::Newline { .. } => " "@,
        SpanModel::Space { .. } => " "@,
        SpanModel::Strong { attrs, flags, text } => "<strong"@ + attrs_text(attrs) + flags_text(
            flags,
        ) + ">"@ + text + "</strong>"@,
        SpanModel::UnknownSpan { kind, spans, attrs, flags } => "<span"@ + attrs_text(attrs)
            + flags_text(flags) + ">"@ + spec_output_spans(spans) + "</span>"@,
        SpanModel::WordPart { text } => text,
    }
}

/// `"true"` or `"false"`.
pub open spec fn bool_text(b: bool) -> Seq<char> {
    if b {
        "true"@
    } else {
        "false"@
    }
}

/// The HTML of a sequence of nodes: each node's HTML, in order.
pub open spec fn spec_output(ns: Seq<NodeModel>) -> Seq<char>
    decreases ns,
{
    if ns.len() == 0 {
        Seq::empty()
    } else {
        spec_output(ns.drop_last()) + spec_output_node(ns.last())
    }
}

/// The HTML of one node. A section whose bounds are `"full"` is opened and
/// closed, one whose bounds are `"start"` is opened, and one whose bounds are
/// `"end"` closes what its start opened; the children follow.
pub open spec fn spec_output_node(n: NodeModel) -> Seq<char>
    decreases n,
{
    match n {
        NodeModel::Basic { kind, children, bounds } => if bounds == "full"@ {
            "<div class=\""@ + "basic-"@ + bounds + "-"@ + kind + "\">"@ + spec_output(children)
                + "</div>"@
        } else if bounds == "start"@ {
            "<div class=\""@ + "basic-"@ + bounds + "-"@ + kind + "\">"@ + spec_output(children)
        } else if bounds == "end"@ {
            "<!-- "@ + "basic-"@ + bounds + "-"@ + kind + " -->"@ + "</div>"@ + spec_output(
                children,
            )
        } else {
            Seq::empty()
        },
        NodeModel::Block { spans } => "<p>"@ + spec_output_spans(spans) + "</p>"@,
        NodeModel::Checklist { kind, children, bounds } => if bounds == "full"@ {
            "<ul class=\"checklist-"@ + bounds + "-"@ + kind + "\">"@ + spec_output(children)
                + "</ul>"@
        } else if bounds == "start"@ {
            "<ul class=\"checklist-"@ + bounds + "-"@ + kind + "\">"@ + spec_output(children)
        } else if bounds == "end"@ {
            "<!-- checklist-"@ + bounds + "-"@ + kind + " -->"@ + "</ul>"@ + spec_output(children)
        } else {
            Seq::empty()
        },
        NodeModel::ChecklistItem { children, status, .. } => "<li class=\"status-"@ + bool_text(
            status,
        ) + "\">"@ + spec_output(children) + "</li>"@,
        NodeModel::Comment { bounds, kind, children, .. } => if bounds == "end"@ {
            "<!-- comment-"@ + bounds + "-"@ + kind + " -->"@ + spec_output(children)
        } else if bounds == "full"@ {
            "<!-- comment-"@ + bounds + "-"@ + kind + " -->"@
        } else if bounds == "start"@ {
            "<!-- comment-"@ + bounds + "-"@ + kind + " -->"@ + spec_output(children)
        } else {
            Seq::empty()
        },
        NodeModel::Generic { kind, children, bounds } => if bounds == "full"@ {
            "<div class=\"generic-"@ + bounds + "-"@ + kind + "\">"@ + spec_output(children)
                + "</div>"@
        } else if bounds == "start"@ {
            "<div class=\"generic-"@ + bounds + "-"@ + kind + "\">"@ + spec_output(children)
        } else if bounds == "end"@ {
            "<!-- generic-"@ + bounds + "-"@ + kind + " -->"@ + "</div>"@ + spec_output(children)
        } else {
            Seq::empty()
        },
        NodeModel::Json { bounds, kind, data, children } => if bounds == "end"@ {
            "<!-- json-end-"@ + kind + " -->"@ + spec_output(children)
        } else if bounds == "full"@ {
            "<!-- json-full-"@ + kind + " -->"@ + data.unwrap()
        } else if bounds == "start"@ {
            "<!-- json-start-"@ + kind + " -->"@ + data.unwrap() + spec_output(children)
        } else {
            Seq::empty()
        },
        NodeModel::List { kind, children, bounds } => if bounds == "full"@ {
            "<ul class=\"list"@ + "-"@ + bounds + "-"@ + kind + "\">"@ + spec_output(children)
                + "</ul>"@
        } else if bounds == "start"@ {
            "<ul class=\"list"@ + "-"@ + bounds + "-"@ + kind + "\">"@ + spec_output(children)
        } else if bounds == "end"@ {
            "<!-- list "@ + "-"@ + bounds + "-"@ + kind + " -->"@ + "</ul>"@ + spec_output(
                children,
            )
        } else {
            Seq::empty()
        },
        NodeModel::ListItem { children } => "<li>"@ + spec_output(children) + "</li>"@,
        NodeModel::Raw { bounds, kind, text, children } => if bounds == "full"@ {
            "<pre class=\""@ + "raw-"@ + bounds + "-"@ + kind + "\">"@ + text.unwrap()
                + "</pre>"@
        } else if bounds == "start"@ {
            "<pre class=\""@ + "raw-"@ + bounds + "-"@ + kind + "\">"@ + text.unwrap()
                + spec_output(children)
        } else if bounds == "end"@ {
            "</pre>"@ + "<!-- "@ + "raw-"@ + bounds + "-"@ + kind + " -->"@ + spec_output(children)
        } else {
            Seq::empty()
        },
        NodeModel::TagFinderInit => Seq::empty(),
        NodeModel::Yaml { bounds, kind, data, children } => if bounds == "end"@ {
            "<!-- yaml-end-"@ + kind + " -->"@ + spec_output(children)
        } else if bounds == "full"@ {
            "<!-- yaml-full-"@ + kind + " -->"@ + data.unwrap()
        } else if bounds == "start"@ {
            "<!-- yaml-start-"@ + kind + " -->"@ + data.unwrap() + spec_output(children)
        } else {
            Seq::empty()
        },
    }
}

/// Every node of `ns` can be rendered: where the HTML of a node holds its
/// data or text, it has some.
pub open spec fn renderable(ns: Seq<NodeModel>) -> bool
    decreases ns,
{
    if ns.len() == 0 {
        true
    } else {
        renderable(ns.drop_last()) && renderable_node(ns.last())
    }
}

/// `n` can be rendered: the data of a JSON or YAML section and the text of a
/// raw section are there where its bounds are `"full"` or `"start"`, and the
/// children that its HTML holds can be rendered.
pub open spec fn renderable_node(n: NodeModel) -> bool
    decreases n,
{
    match n {
        NodeModel::Basic { children, bounds, .. } => (bounds == "full"@ || bounds == "start"@
            || bounds == "end"@) ==> renderable(children),
        NodeModel::Block { .. } => true,
        NodeModel::Checklist { children, bounds, .. } => (bounds == "full"@ || bounds
            == "start"@ || bounds == "end"@) ==> renderable(children),
        NodeModel::ChecklistItem { children, .. } => renderable(children),
        NodeModel::Comment { bounds, children, .. } => (bounds == "end"@ || bounds == "start"@)
            ==> renderable(children),
        NodeModel::Generic { children, bounds, .. } => (bounds == "full"@ || bounds == "start"@
            || bounds == "end"@) ==> renderable(children),
        NodeModel::Json { bounds, data, children, .. } => {
            &&& (bounds == "full"@ || bounds == "start"@) ==> data is Some
            &&& (bounds == "end"@ || bounds == "start"@) ==> renderable(children)
        },
        NodeModel::List { children, bounds, .. } => (bounds == "full"@ || bounds == "start"@
            || bounds == "end"@) ==> renderable(children),
        NodeModel::ListItem { children } => renderable(children),
        NodeModel::Raw { bounds, text, children, .. } => {
            &&& (bounds == "full"@ || bounds == "start"@) ==> text is Some
            &&& (bounds == "end"@ || bounds == "start"@) ==> renderable(children)
        },
        NodeModel::TagFinderInit => true,
        NodeModel::Yaml { bounds, data, children, .. } => {
            &&& (bounds == "full"@ || bounds == "start"@) ==> data is Some
            &&& (bounds == "end"@ || bounds == "start"@) ==> renderable(children)
        },
    }
}

fn push_attrs(r: &mut String, attrs: &Vec<(String, String)>)
    ensures
        final(r)@ == old(r)@ + attrs_text(attrs_model(attrs@)),
{
    let ghost start = r@;
    let mut i: usize = 0;
    assert(attrs_model(attrs@.take(0)) =~= Seq::<(Seq<char>, Seq<char>)>::empty());
    assert(start + Seq::<char>::empty() =~= start);
    while i < attrs.len()
        invariant
            i <= attrs@.len(),
            r@ == start + attrs_text(attrs_model(attrs@.take(i as int))),
        decreases attrs.len() - i,
    {
        let ghost before = r@;
        r.append(" ");
        r.append(attrs[i].0.as_str());
        r.append("=\"");
        r.append(attrs[i].1.as_str());
        r.append("\"");
        proof {
            let m = attrs_model(attrs@.take(i + 1));
            assert(m.drop_last() =~= attrs_model(attrs@.take(i as int)));
            assert(m.last() == (attrs@[i as int].0@, attrs@[i as int].1@));
            assert(r@ =~= start + attrs_text(m));
        }
        i = i + 1;
    }
    assert(attrs@.take(attrs@.len() as int) =~= attrs@);
}

fn push_flags(r: &mut String, flags: &Vec<String>)
    ensures
        final(r)@ == old(r)@ + flags_text(flags_model(flags@)),
{
    let ghost start = r@;
    let mut i: usize = 0;
    assert(flags_model(flags@.take(0)) =~= Seq::<Seq<char>>::empty());
    assert(start + Seq::<char>::empty() =~= start);
    while i < flags.len()
        invariant
            i <= flags@.len(),
            r@ == start + flags_text(flags_model(flags@.take(i as int))),
        decreases flags.len() - i,
    {
        r.append(" ");
        r.append(flags[i].as_str());
        proof {
            let m = flags_model(flags@.take(i + 1));
            assert(m.drop_last() =~= flags_model(flags@.take(i as int)));
            assert(m.last() == flags@[i as int]@);
            assert(r@ =~= start + flags_text(m));
        }
        i = i + 1;
    }
    assert(flags@.take(flags@.len() as int) =~= flags@);
}

/// Renders one span as HTML.
pub fn output_span(span: &Span) -> (r: String)
    ensures
        r@ == spec_output_span(span.model()),
    decreases span,
{
    let mut response = String::new();
    match span {
        Span::Button { attrs, flags, text } => {
            response.append("<button");
            push_attrs(&mut response, attrs);
            push_flags(&mut response, flags);
            response.append(">");
            response.append(text.as_str());
            response.append("</button>");
        },
        Span::Code { attrs, flags, text } => {
            response.append("<code");
            push_attrs(&mut response, attrs);
            push_flags(&mut response, flags);
            response.append(">");
            response.append(text.as_str());
            response.append("</code>");
        },
        Span::Em { attrs, flags, text } => {
            response.append("<em");
            push_attrs(&mut response, attrs);
            push_flags(&mut response, flags);
            response.append(">");
            response.append(text.as_str());
            response.append("</em>");
        },
        Span::KnownSpan { kind, spans: inner, attrs, flags } => {
            response.append("<");
            response.append(kind.as_str());
            push_attrs(&mut response, attrs);
            push_flags(&mut response, flags);
            response.append(">");
            let inside = output_spans(inner);
            response.append(inside.as_str());
            response.append("</");
            response.append(kind.as_str());
            response.append(">");
        },
        Span::Newline { .. } => {
            response.append(" ");
        },
        Span::Space { .. } => {
            response.append(" ");
        },
        Span::Strong { attrs, flags, text } => {
            response.append("<strong");
            push_attrs(&mut response, attrs);
            push_flags(&mut response, flags);
            response.append(">");
            response.append(text.as_str());
            response.append("</strong>");
        },
        Span::UnknownSpan { kind, spans: inner, attrs, flags } => {
            response.append("<span");
            push_attrs(&mut response, attrs);
            push_flags(&mut response, flags);
            response.append(">");
            let inside = output_spans(inner);
            response.append(inside.as_str());
            response.append("</span>");
        },
        Span::WordPart { text } => {
            response.append(text.as_str());
        },
    }
    assert(response@ =~= spec_output_span(span.model()));
    response
}

/// Renders a sequence of spans as HTML: each span's HTML, in order.
pub fn output_spans(spans: &Vec<Span>) -> (r: String)
    ensures
        r@ == spec_output_spans(spans_model(spans@)),
    decreases spans,
{
    let mut response = String::new();
    let mut i: usize = 0;
    while i < spans.len()
        invariant
            i <= spans@.len(),
            response@ == spec_output_spans(spans_model(spans@.take(i as int))),
        decreases spans.len() - i,
    {
        proof {
            assert(decreases_to!(spans => spans[i as int]));
        }
        let one = output_span(&spans[i]);
        response.append(one.as_str());
        proof {
            assert(spans@.take(i + 1).drop_last() =~= spans@.take(i as int));
            let ms = spans_model(spans@.take(i as int));
            let mi = spans@[i as int].model();
            assert(spans_model(spans@.take(i + 1)) == ms.push(mi));
            assert(ms.push(mi).drop_last() =~= ms);
            assert(spec_output_spans(ms.push(mi)) == spec_output_spans(ms) + spec_output_span(mi));
        }
        i = i + 1;
    }
    assert(spans@.take(spans@.len() as int) =~= spans@);
    response
}

pub proof fn lemma_renderable(ns: Seq<NodeModel>)
    ensures
        renderable(ns) <==> forall|i: int| 0 <= i < ns.len() ==> renderable_node(#[trigger] ns[i]),
    decreases ns.len(),
{
    if ns.len() > 0 {
        lemma_renderable(ns.drop_last());
        if renderable(ns) {
            assert forall|i: int| 0 <= i < ns.len() implies renderable_node(#[trigger] ns[i]) by {
                if i < ns.len() - 1 {
                    assert(ns[i] == ns.drop_last()[i]);
                }
            }
        }
        if forall|i: int| 0 <= i < ns.len() ==> renderable_node(#[trigger] ns[i]) {
            assert forall|i: int| 0 <= i < ns.drop_last().len() implies renderable_node(
                #[trigger] ns.drop_last()[i],
            ) by {
                assert(ns.drop_last()[i] == ns[i]);
            }
            assert(renderable_node(ns[ns.len() - 1]));
        }
    }
}

/// Whether `b` holds exactly the characters of `lit`.
fn bounds_is(b: &String, lit: &str) -> (r: bool)
    ensures
        r == (b@ == lit@),
{
    let l = String::from_str(lit);
    *b == l
}

/// Renders one node as HTML.
pub fn output_node(node: &Node) -> (r: String)
    requires
        renderable_node(node.model()),
    ensures
        r@ == spec_output_node(node.model()),
    decreases node,
{
    let mut response = String::new();
    match node {
        Node::Basic { kind, children, bounds } => {
            if bounds_is(bounds, "full") {
                response.append("<div class=\"");
                response.append("basic-");
                response.append(bounds.as_str());
                response.append("-");
                response.append(kind.as_str());
                response.append("\">");
                response.append(output(children).as_str());
                response.append("</div>");
            } else if bounds_is(bounds, "start") {
                response.append("<div class=\"");
                response.append("basic-");
                response.append(bounds.as_str());
                response.append("-");
                response.append(kind.as_str());
                response.append("\">");
                response.append(output(children).as_str());
            } else if bounds_is(bounds, "end") {
                response.append("<!-- ");
                response.append("basic-");
                response.append(bounds.as_str());
                response.append("-");
                response.append(kind.as_str());
                response.append(" -->");
                response.append("</div>");
                response.append(output(children).as_str());
            }
        },
        Node::Block { spans } => {
            response.append("<p>");
            response.append(output_spans(spans).as_str());
            response.append("</p>");
        },
        Node::Checklist { kind, children, bounds } => {
            if bounds_is(bounds, "full") {
                response.append("<ul class=\"checklist-");
                response.append(bounds.as_str());
                response.append("-");
                response.append(kind.as_str());
                response.append("\">");
                response.append(output(children).as_str());
                response.append("</ul>");
            } else if bounds_is(bounds, "start") {
                response.append("<ul class=\"checklist-");
                response.append(bounds.as_str());
                response.append("-");
                response.append(kind.as_str());
                response.append("\">");
                response.append(output(children).as_str());
            } else if bounds_is(bounds, "end") {
                response.append("<!-- checklist-");
                response.append(bounds.as_str());
                response.append("-");
                response.append(kind.as_str());
                response.append(" -->");
                response.append("</ul>");
                response.append(output(children).as_str());
            }
        },
        Node::ChecklistItem { children, status, .. } => {
            response.append("<li class=\"status-");
            if *status {
                response.append("true");
            } else {
                response.append("false");
            }
            response.append("\">");
            response.append(output(children).as_str());
            response.append("</li>");
        },
        Node::Comment { bounds, kind, children, .. } => {
            if bounds_is(bounds, "end") {
                response.append("<!-- comment-");
                response.append(bounds.as_str());
                response.append("-");
                response.append(kind.as_str());
                response.append(" -->");
                response.append(output(children).as_str());
            } else if bounds_is(bounds, "full") {
                response.append("<!-- comment-");
                response.append(bounds.as_str());
                response.append("-");
                response.append(kind.as_str());
                response.append(" -->");
            } else if bounds_is(bounds, "start") {
                response.append("<!-- comment-");
                response.append(bounds.as_str());
                response.append("-");
                response.append(kind.as_str());
                response.append(" -->");
                response.append(output(children).as_str());
            }
        },
        Node::Generic { kind, children, bounds } => {
            if bounds_is(bounds, "full") {
                response.append("<div class=\"generic-");
                response.append(bounds.as_str());
                response.append("-");
                response.append(kind.as_str());
                response.append("\">");
                response.append(output(children).as_str());
                response.append("</div>");
            } else if bounds_is(bounds, "start") {
                response.append("<div class=\"generic-");
                response.append(bounds.as_str());
                response.append("-");
                response.append(kind.as_str());
                response.append("\">");
                response.append(output(children).as_str());
            } else if bounds_is(bounds, "end") {
                response.append("<!-- generic-");
                response.append(bounds.as_str());
                response.append("-");
                response.append(kind.as_str());
                response.append(" -->");
                response.append("</div>");
                response.append(output(children).as_str());
            }
        },
        Node::Json { bounds, kind, data, children } => {
            if bounds_is(bounds, "end") {
                response.append("<!-- json-end-");
                response.append(kind.as_str());
                response.append(" -->");
                response.append(output(children).as_str());
            } else if bounds_is(bounds, "full") {
                response.append("<!-- json-full-");
                response.append(kind.as_str());
                response.append(" -->");
                if let Some(d) = data {
                    response.append(d.as_str());
                }
            } else if bounds_is(bounds, "start") {
                response.append("<!-- json-start-");
                response.append(kind.as_str());
                response.append(" -->");
                if let Some(d) = data {
                    response.append(d.as_str());
                }
                response.append(output(children).as_str());
            }
        },
        Node::List { kind, children, bounds } => {
            if bounds_is(bounds, "full") {
                response.append("<ul class=\"list");
                response.append("-");
                response.append(bounds.as_str());
                response.append("-");
                response.append(kind.as_str());
                response.append("\">");
                response.append(output(children).as_str());
                response.append("</ul>");
            } else if bounds_is(bounds, "start") {
                response.append("<ul class=\"list");
                response.append("-");
                response.append(bounds.as_str());
                response.append("-");
                response.append(kind.as_str());
                response.append("\">");
                response.append(output(children).as_str());
            } else if bounds_is(bounds, "end") {
                response.append("<!-- list ");
                response.append("-");
                response.append(bounds.as_str());
                response.append("-");
                response.append(kind.as_str());
                response.append(" -->");
                response.append("</ul>");
                response.append(output(children).as_str());
            }
        },
        Node::ListItem { children } => {
            response.append("<li>");
            response.append(output(children).as_str());
            response.append("</li>");
        },
        Node::Raw { bounds, kind, text, children } => {
            if bounds_is(bounds, "full") {
                response.append("<pre class=\"");
                response.append("raw-");
                response.append(bounds.as_str());
                response.append("-");
                response.append(kind.as_str());
                response.append("\">");
                if let Some(t) = text {
                    response.append(t.as_str());
                }
                response.append("</pre>");
            } else if bounds_is(bounds, "start") {
                response.append("<pre class=\"");
                response.append("raw-");
                response.append(bounds.as_str());
                response.append("-");
                response.append(kind.as_str());
                response.append("\">");
                if let Some(t) = text {
                    response.append(t.as_str());
                }
                response.append(output(children).as_str());
            } else if bounds_is(bounds, "end") {
                response.append("</pre>");
                response.append("<!-- ");
                response.append("raw-");
                response.append(bounds.as_str());
                response.append("-");
                response.append(kind.as_str());
                response.append(" -->");
                response.append(output(children).as_str());
            }
        },
        Node::TagFinderInit => {},
        Node::Yaml { bounds, kind, data, children } => {
            if bounds_is(bounds, "end") {
                response.append("<!-- yaml-end-");
                response.append(kind.as_str());
                response.append(" -->");
                response.append(output(children).as_str());
            } else if bounds_is(bounds, "full") {
                response.append("<!-- yaml-full-");
                response.append(kind.as_str());
                response.append(" -->");
                if let Some(d) = data {
                    response.append(d.as_str());
                }
            } else if bounds_is(bounds, "start") {
                response.append("<!-- yaml-start-");
                response.append(kind.as_str());
                response.append(" -->");
                if let Some(d) = data {
                    response.append(d.as_str());
                }
                response.append(output(children).as_str());
            }
        },
    }
    assert(response@ =~= spec_output_node(node.model()));
    response
}

/// Renders a tree of nodes as HTML: each node's HTML, in order.
pub fn output(ast: &Vec<Node>) -> (r: String)
    requires
        renderable(nodes_model(ast@)),
    ensures
        r@ == spec_output(nodes_model(ast@)),
    decreases ast,
{
    let mut response = String::new();
    let mut i: usize = 0;
    proof {
        lemma_renderable(nodes_model(ast@));
        lemma_nodes_model(ast@);
        assert forall|j: int| 0 <= j < ast@.len() implies renderable_node(
            #[trigger] ast@[j].model(),
        ) by {
            assert(nodes_model(ast@)[j] == ast@[j].model());
        }
    }
    while i < ast.len()
        invariant
            i <= ast@.len(),
            forall|j: int| 0 <= j < ast@.len() ==> renderable_node(#[trigger] ast@[j].model()),
            response@ == spec_output(nodes_model(ast@.take(i as int))),
        decreases ast.len() - i,
    {
        proof {
            assert(decreases_to!(ast => ast[i as int]));
        }
        let one = output_node(&ast[i]);
        response.append(one.as_str());
        proof {
            let ms = nodes_model(ast@.take(i as int));
            let mi = ast@[i as int].model();
            assert(ast@.take(i + 1).drop_last() =~= ast@.take(i as int));
            assert(nodes_model(ast@.take(i + 1)) == ms.push(mi));
            assert(ms.push(mi).drop_last() =~= ms);
            assert(spec_output(ms.push(mi)) == spec_output(ms) + spec_output_node(mi));
        }
        i = i + 1;
    }
    assert(ast@.take(ast@.len() as int) =~= ast@);
    response
}

} // verus!
