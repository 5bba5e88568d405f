use neopoligen_parser::render::{output, output_node, output_span, output_spans};
use neopoligen_parser::section::node::Node;
use neopoligen_parser::span::Span;

fn s(x: &str) -> String {
    x.to_string()
}

fn word(x: &str) -> Span {
    Span::WordPart { text: s(x) }
}

fn para(x: &str) -> Node {
    Node::Block { spans: vec![word(x)] }
}

#[test]
fn basic_bounds() {
    let full = Node::Basic { kind: s("div"), children: vec![para("a")], bounds: s("full") };
    assert_eq!(output(&vec![full]), "<div class=\"basic-full-div\"><p>a</p></div>");
    let start = Node::Basic { kind: s("div"), children: vec![para("a")], bounds: s("start") };
    assert_eq!(output(&vec![start]), "<div class=\"basic-start-div\"><p>a</p>");
    let end = Node::Basic { kind: s("div"), children: vec![para("b")], bounds: s("end") };
    assert_eq!(output(&vec![end]), "<!-- basic-end-div --></div><p>b</p>");
    let other = Node::Basic { kind: s("div"), children: vec![para("a")], bounds: s("other") };
    assert_eq!(output(&vec![other]), "");
}

#[test]
fn comment_bounds() {
    let full = Node::Comment { bounds: s("full"), kind: s("note"), text: None, children: vec![para("a")] };
    assert_eq!(output_node(&full), "<!-- comment-full-note -->");
    let start = Node::Comment { bounds: s("start"), kind: s("note"), text: None, children: vec![para("a")] };
    assert_eq!(output_node(&start), "<!-- comment-start-note --><p>a</p>");
    let end = Node::Comment { bounds: s("end"), kind: s("note"), text: None, children: vec![para("a")] };
    assert_eq!(output_node(&end), "<!-- comment-end-note --><p>a</p>");
}

#[test]
fn raw_bounds() {
    let full = Node::Raw { bounds: s("full"), kind: s("pre"), text: Some(s("x < y")), children: vec![] };
    assert_eq!(output_node(&full), "<pre class=\"raw-full-pre\">x < y</pre>");
    let start = Node::Raw { bounds: s("start"), kind: s("pre"), text: Some(s("t")), children: vec![para("a")] };
    assert_eq!(output_node(&start), "<pre class=\"raw-start-pre\">t<p>a</p>");
    let end = Node::Raw { bounds: s("end"), kind: s("pre"), text: None, children: vec![] };
    assert_eq!(output_node(&end), "</pre><!-- raw-end-pre -->");
}

#[test]
fn data_sections() {
    let j = Node::Json { bounds: s("full"), kind: s("m"), data: Some(s("{}")), children: vec![] };
    assert_eq!(output_node(&j), "<!-- json-full-m -->{}");
    let y = Node::Yaml { bounds: s("end"), kind: s("y"), data: None, children: vec![para("z")] };
    assert_eq!(output_node(&y), "<!-- yaml-end-y --><p>z</p>");
}

#[test]
fn generic_checklist_and_items() {
    let g = Node::Generic { kind: s("g"), children: vec![], bounds: s("end") };
    assert_eq!(output_node(&g), "<!-- generic-end-g --></div>");
    let done = Node::ChecklistItem { children: vec![para("a")], status: true, status_value: None };
    assert_eq!(output_node(&done), "<li class=\"status-true\"><p>a</p></li>");
    let c = Node::Checklist { kind: s("todo"), children: vec![], bounds: s("end") };
    assert_eq!(output_node(&c), "<!-- checklist-end-todo --></ul>");
    assert_eq!(output_node(&Node::TagFinderInit), "");
    assert_eq!(output(&vec![]), "");
}

#[test]
fn inline_spans() {
    let button = Span::Button {
        attrs: vec![(s("id"), s("x")), (s("class"), s("big"))],
        flags: vec![s("disabled")],
        text: s("go"),
    };
    assert_eq!(output_span(&button), "<button id=\"x\" class=\"big\" disabled>go</button>");
    let code = Span::Code { attrs: vec![], flags: vec![], text: s("c") };
    assert_eq!(output_span(&code), "<code>c</code>");
    let em = Span::Em { attrs: vec![], flags: vec![s("f")], text: s("e") };
    assert_eq!(output_span(&em), "<em f>e</em>");
    let strong = Span::Strong { attrs: vec![(s("a"), s("b"))], flags: vec![], text: s("s") };
    assert_eq!(output_span(&strong), "<strong a=\"b\">s</strong>");
    let known = Span::KnownSpan {
        kind: s("kbd"),
        spans: vec![word("a"), Span::Space { text: s("\t") }, word("b")],
        attrs: vec![],
        flags: vec![],
    };
    assert_eq!(output_span(&known), "<kbd>a b</kbd>");
    let unknown = Span::UnknownSpan {
        kind: s("zz"),
        spans: vec![Span::Newline { text: s("\n") }],
        attrs: vec![],
        flags: vec![s("q")],
    };
    assert_eq!(output_span(&unknown), "<span q> </span>");
    assert_eq!(output_spans(&vec![word("a"), code, word("b")]), "a<code>c</code>b");
}
