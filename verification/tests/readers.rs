use neopoligen_parser::block::{block_of_anything, block_of_end_content};
use neopoligen_parser::render::{output, output_spans};
use neopoligen_parser::section::checklist::{checklist_item, checklist_item_block, checklist_section_tag};
use neopoligen_parser::section::json::{json_section_end, json_section_start, json_section_tag};
use neopoligen_parser::section::list::{list_item, list_item_block, list_section_end};
use neopoligen_parser::section::node::Node;
use neopoligen_parser::section::yaml::yaml_section_tag;
use neopoligen_parser::section::{empty_until_newline_or_eof, start_or_full_section, tag_finder};
use neopoligen_parser::span::{newline, space, span, span_finder, word_part, Span};
use neopoligen_parser::{get_error, parse_runner, Sections};

fn chars(s: &str) -> Vec<char> {
    s.chars().collect()
}

fn sections() -> Sections {
    Sections {
        basic: vec![],
        checklist: vec!["todo".to_string(), "done".to_string()],
        comment: vec![],
        detail: vec![],
        generic: vec![],
        json: vec![],
        list: vec!["list".to_string()],
        raw: vec![],
        table: vec![],
        yaml: vec![],
    }
}

fn text_of(sp: &Span) -> (&'static str, String) {
    match sp {
        Span::Space { text } => ("space", text.clone()),
        Span::WordPart { text } => ("word", text.clone()),
        Span::Newline { text } => ("newline", text.clone()),
        _ => ("other", String::new()),
    }
}

#[test]
fn newline_keeps_only_the_line_ending() {
    let s = chars("  \nx");
    let (e, sp) = newline(&s, 0).unwrap();
    assert_eq!(e, 3);
    assert_eq!(text_of(&sp), ("space", "\n".to_string()));
    let s = chars("\r\nx");
    let (e, sp) = newline(&s, 0).unwrap();
    assert_eq!(e, 2);
    assert_eq!(text_of(&sp), ("space", "\r\n".to_string()));
    assert!(newline(&chars("  x"), 0).is_none());
}

#[test]
fn space_reads_spaces_and_tabs() {
    let s = chars("\t x");
    let (e, sp) = space(&s, 0).unwrap();
    assert_eq!(e, 2);
    assert_eq!(text_of(&sp), ("space", "\t ".to_string()));
    assert!(space(&chars("x"), 0).is_none());
}

#[test]
fn word_part_stops_at_space_or_line_feed() {
    let s = chars("ab\tc d");
    let (e, sp) = word_part(&s, 0).unwrap();
    assert_eq!(e, 4);
    assert_eq!(text_of(&sp), ("word", "ab\tc".to_string()));
    assert!(word_part(&chars(" a"), 0).is_none());
    assert!(word_part(&chars(""), 0).is_none());
}

#[test]
fn span_tries_newline_then_space_then_word() {
    let s = chars("x  \ny");
    let (e, sp) = span(&s, 1).unwrap();
    assert_eq!(e, 4);
    assert_eq!(text_of(&sp), ("space", "\n".to_string()));
    let (e, sp) = span(&s, 4).unwrap();
    assert_eq!(e, 5);
    assert_eq!(text_of(&sp), ("word", "y".to_string()));
    assert!(span(&s, 5).is_none());
}

#[test]
fn span_finder_stops_at_a_blank_line() {
    assert!(span_finder(&chars("\n\nx"), 0).is_none());
    assert!(span_finder(&chars(" \n \t\nx"), 0).is_none());
    let (e, _) = span_finder(&chars("\nx"), 0).unwrap();
    assert_eq!(e, 1);
}

#[test]
fn empty_until_newline_or_eof_cases() {
    assert_eq!(empty_until_newline_or_eof(&chars("  \nx"), 0), Some(3));
    assert_eq!(empty_until_newline_or_eof(&chars("  \t\n\n"), 0), Some(4));
    assert_eq!(empty_until_newline_or_eof(&chars("  \t"), 0), Some(3));
    assert_eq!(empty_until_newline_or_eof(&chars(""), 0), Some(0));
    assert_eq!(empty_until_newline_or_eof(&chars("  x"), 0), None);
}

#[test]
fn tag_finder_takes_the_first_name_that_matches() {
    let names = vec!["to".to_string(), "todo".to_string()];
    let (e, name) = tag_finder(&chars("todo"), 0, &names).unwrap();
    assert_eq!((e, name.as_str()), (2, "to"));
    assert!(tag_finder(&chars("x"), 0, &names).is_none());
    assert!(tag_finder(&chars("x"), 0, &vec![]).is_none());
}

#[test]
fn checklist_section_tag_reads_checklist_names() {
    let (e, name) = checklist_section_tag(&chars("-- done"), 3, &sections()).unwrap();
    assert_eq!((e, name.as_str()), (7, "done"));
    assert!(checklist_section_tag(&chars("-- list"), 3, &sections()).is_none());
}

#[test]
fn data_section_tags() {
    assert_eq!(yaml_section_tag(&chars("yaml-example/"), 0), Some(12));
    assert_eq!(yaml_section_tag(&chars("yaml"), 0), None);
    assert_eq!(json_section_tag(&chars("metadata"), 0), Some(8));
    assert_eq!(json_section_tag(&chars("meta"), 0), None);
}

#[test]
fn block_guards() {
    assert!(block_of_anything(&chars("-- x"), 0).is_none());
    assert!(block_of_anything(&chars(""), 0).is_none());
    assert!(block_of_end_content(&chars("-x"), 0).is_none());
    assert!(block_of_end_content(&chars("[x"), 0).is_none());
    assert!(checklist_item_block(&chars("[x"), 0).is_none());
    assert!(checklist_item_block(&chars("--x"), 0).is_none());
    assert!(list_item_block(&chars("-x"), 0).is_none());
    let (e, b) = block_of_anything(&chars("one two\n\nthree"), 0).unwrap();
    assert_eq!(e, 9);
    assert_eq!(output(&vec![b]), "<p>one two</p>");
    let (e, b) = block_of_end_content(&chars("- not a list\n"), 1).unwrap();
    assert_eq!(e, 13);
    match b {
        Node::Block { spans } => assert_eq!(output_spans(&spans), " not a list "),
        _ => panic!("not a block"),
    }
}

#[test]
fn items() {
    let (e, item) = list_item(&chars("- a\n\n- b"), 0).unwrap();
    assert_eq!(e, 5);
    assert_eq!(output(&vec![item]), "<li><p>a</p></li>");
    let (e, item) = checklist_item(&chars("[]x\n\n[] y"), 0).unwrap();
    assert_eq!(e, 5);
    assert_eq!(output(&vec![item]), "<li class=\"status-false\"><p>x</p></li>");
    assert!(list_item(&chars("-a"), 0).is_none());
    assert!(checklist_item(&chars("[x]"), 0).is_none());
}

#[test]
fn end_tag_must_name_its_section() {
    let s = chars("-- /list\n\nafter");
    let (e, end) = list_section_end(&s, 0, &chars("list")).unwrap();
    assert_eq!(e, s.len());
    assert_eq!(output(&vec![end]), "<!-- list -end-list --></ul><p>after</p>");
    assert!(list_section_end(&s, 0, &chars("todo")).is_none());
}

#[test]
fn sections_one_after_another() {
    let s = chars("-- list\n\n- a\n\n-- done\n\n[] b\n\nrest");
    let (e, nodes) = parse_runner(&s, &sections()).unwrap();
    assert_eq!(e, s.len());
    assert_eq!(nodes.len(), 2);
    let (e1, _) = start_or_full_section(&s, 0, &sections()).unwrap();
    assert_eq!(e1, 14);
    assert!(parse_runner(&chars("text"), &sections()).is_none());
}

#[test]
fn error_location() {
    let src = "ab\ncd";
    let e = get_error(src, &chars(src), 4, "m");
    assert_eq!((e.line, e.column), (2, 2));
    assert_eq!(e.remainder, "d");
    assert_eq!(e.source, src);
    assert_eq!(e.message, "m");
    let src = "\u{e9}\u{e9}x";
    let e = get_error(src, &chars(src), 2, "m");
    assert_eq!((e.line, e.column), (1, 5));
    assert_eq!(e.remainder, "x");
}

#[test]
fn json_start_reads_its_end_tag_and_leaves_the_rest() {
    let s = chars("-- metadata/\n\n[1, 2]\n\n-- /metadata\n\nnext");
    let (e, node) = json_section_start(&s, 0).unwrap();
    assert_eq!(s[e..].iter().collect::<String>(), "next");
    match node {
        Node::Json { bounds, kind, data, children } => {
            assert_eq!(bounds, "start");
            assert_eq!(kind, "metadata");
            assert_eq!(data.as_deref(), Some("[1, 2]"));
            assert!(children.is_empty());
        }
        _ => panic!("not a JSON node"),
    }
}

#[test]
fn json_start_without_end_tag_fails() {
    assert!(json_section_start(&chars("-- metadata/\n\n[1, 2]\n"), 0).is_none());
}

#[test]
fn json_section_end_reads_nothing() {
    json_section_end();
}
