use neopoligen_parser::render::{output, output_spans};
use neopoligen_parser::section::node::Node;
use neopoligen_parser::span::Span;
use neopoligen_parser::{parse, Sections};

fn sections() -> Sections {
    Sections {
        basic: vec![],
        checklist: vec!["todo".to_string()],
        comment: vec![],
        detail: vec![],
        generic: vec![],
        json: vec![],
        list: vec!["list".to_string()],
        raw: vec![],
        table: vec![],
        yaml: vec![],
    }
}

fn para(x: &str) -> Node {
    Node::Block { spans: vec![Span::WordPart { text: x.to_string() }] }
}

#[test]
fn output_of_concatenation_is_concatenation_of_outputs() {
    let a = vec![para("a"), Node::ListItem { children: vec![para("b")] }];
    let b = vec![Node::Generic { kind: "g".to_string(), children: vec![para("c")], bounds: "full".to_string() }];
    let both = vec![
        para("a"),
        Node::ListItem { children: vec![para("b")] },
        Node::Generic { kind: "g".to_string(), children: vec![para("c")], bounds: "full".to_string() },
    ];
    assert_eq!(output(&both), output(&a) + &output(&b));
}

#[test]
fn output_spans_of_concatenation_is_concatenation() {
    let w = |x: &str| Span::WordPart { text: x.to_string() };
    let a = vec![w("x"), Span::Space { text: " ".to_string() }];
    let b = vec![w("y")];
    let both = vec![w("x"), Span::Space { text: " ".to_string() }, w("y")];
    assert_eq!(output_spans(&both), output_spans(&a) + &output_spans(&b));
}

#[test]
fn every_parsed_document_renders() {
    for src in [
        "-- yaml-example\n\na: b",
        "-- metadata/\n\n{}\n\n-- /metadata",
        "-- todo/\n\n[] x\n\n-- /todo",
        "-- any\n\n",
    ] {
        let ast = parse(src, &sections(), &vec![]).unwrap();
        let _ = output(&ast);
    }
}

fn bounds_and_kind(n: &Node) -> Option<(&str, &str, &str)> {
    match n {
        Node::Checklist { kind, bounds, .. } => Some(("checklist", kind, bounds)),
        Node::Generic { kind, bounds, .. } => Some(("generic", kind, bounds)),
        Node::List { kind, bounds, .. } => Some(("list", kind, bounds)),
        Node::Yaml { kind, bounds, .. } => Some(("yaml", kind, bounds)),
        _ => None,
    }
}

fn children(n: &Node) -> &[Node] {
    match n {
        Node::Basic { children, .. }
        | Node::Checklist { children, .. }
        | Node::ChecklistItem { children, .. }
        | Node::Comment { children, .. }
        | Node::Generic { children, .. }
        | Node::Json { children, .. }
        | Node::List { children, .. }
        | Node::ListItem { children }
        | Node::Raw { children, .. }
        | Node::Yaml { children, .. } => children,
        _ => &[],
    }
}

fn count_closed_starts(ns: &[Node]) -> usize {
    let mut starts = 0;
    for n in ns {
        if let Some((variant, kind, "start")) = bounds_and_kind(n) {
            let last = children(n).last().and_then(bounds_and_kind);
            assert_eq!(last, Some((variant, kind, "end")));
            starts += 1;
        }
        starts += count_closed_starts(children(n));
    }
    starts
}

#[test]
fn start_sections_end_with_their_own_end_tag() {
    let src = "-- todo/\n\n[] x\n\n-- list/\n\n- y\n\n-- /list\n\n-- /todo\n\n-- note/\n\n-- metadata/\n\n{}\n\n-- /metadata\n\n-- /note";
    let ast = parse(src, &sections(), &vec![]).unwrap();
    assert_eq!(ast.len(), 2);
    assert_eq!(count_closed_starts(&ast), 3);
}
