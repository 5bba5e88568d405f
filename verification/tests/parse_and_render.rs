use neopoligen_parser::{output, parse, Sections};

fn sections() -> Sections {
    Sections {
        basic: vec!["div".to_string()],
        checklist: vec!["todo".to_string()],
        comment: vec!["comment".to_string()],
        detail: vec![],
        generic: vec![],
        json: vec!["json-example".to_string()],
        list: vec!["list".to_string()],
        raw: vec!["pre".to_string()],
        table: vec![],
        yaml: vec![],
    }
}

fn render(source: &str) -> String {
    let spans = vec!["em".to_string()];
    output(&parse(source, &sections(), &spans).unwrap())
}

#[test]
fn unclaimed_name_is_generic() {
    assert_eq!(
        render("-- div\n\none ping only\n    "),
        "<div class=\"generic-full-div\"><p>one ping only  </p></div>"
    );
}

#[test]
fn list_full() {
    assert_eq!(
        render("-- list\n\n- alfa\n\n- bravo"),
        "<ul class=\"list-full-list\"><li><p>alfa</p></li><li><p>bravo</p></li></ul>"
    );
}

#[test]
fn list_start_with_end_content() {
    assert_eq!(
        render("-- list/\n\n- alfa\n\n- bravo\n\n-- /list\n\nafter"),
        "<ul class=\"list-start-list\"><li><p>alfa</p></li><li><p>bravo</p></li><!-- list -end-list --></ul><p>after</p>"
    );
}

#[test]
fn checklist_full() {
    assert_eq!(
        render("-- todo\n\n[] alfa\n\n[] bravo"),
        "<ul class=\"checklist-full-todo\"><li class=\"status-false\"><p> alfa</p></li><li class=\"status-false\"><p> bravo</p></li></ul>"
    );
}

#[test]
fn checklist_start_with_nested_section() {
    assert_eq!(
        render("-- todo/\n\n[] alfa\n\n-- list\n\n- bravo\n\n-- /todo\n\nafter"),
        "<ul class=\"checklist-start-todo\"><li class=\"status-false\"><p>alfa</p><ul class=\"list-full-list\"><li><p>bravo</p></li></ul></li><!-- checklist-end-todo --></ul><p>after</p>"
    );
}

#[test]
fn yaml_full_then_generic() {
    assert_eq!(
        render("-- yaml-example\n\nkey: value\n\n-- div\n\ntext"),
        "<!-- yaml-full-yaml-example -->key: value<div class=\"generic-full-div\"><p>text</p></div>"
    );
}

#[test]
fn yaml_start() {
    assert_eq!(
        render("-- yaml-example/\n\na: 1\n\n-- /yaml-example\n\nafter"),
        "<!-- yaml-start-yaml-example -->a: 1<!-- yaml-end-yaml-example --><p>after</p>"
    );
}

#[test]
fn json_full() {
    assert_eq!(
        render("-- metadata\n\n{\"a\": 1}"),
        "<!-- json-full-metadata -->{\"a\": 1}"
    );
}

#[test]
fn json_start() {
    assert_eq!(
        render("-- metadata/\n\n{}\n\n-- /metadata"),
        "<!-- json-start-metadata -->{}"
    );
}

#[test]
fn json_header_with_nothing_after_falls_back_to_generic() {
    assert_eq!(
        render("-- metadata\n\n"),
        "<div class=\"generic-full-metadata\"></div>"
    );
}

#[test]
fn generic_start_with_nested_list() {
    assert_eq!(
        render("-- note/\n\nintro\n\n-- list\n\n- item\n\n-- /note\n\ntail"),
        "<div class=\"generic-start-note\"><p>intro</p><ul class=\"list-full-list\"><li><p>item</p></li></ul><!-- generic-end-note --></div><p>tail</p>"
    );
}

#[test]
fn blocks_split_at_blank_lines() {
    assert_eq!(
        render("-- div\n\none\ntwo\n\nthree"),
        "<div class=\"generic-full-div\"><p>one two</p><p>three</p></div>"
    );
}

#[test]
fn empty_document_is_an_error() {
    let e = parse("", &sections(), &vec![]).unwrap_err();
    assert_eq!(e.line, 1);
    assert_eq!(e.column, 1);
    assert_eq!(e.remainder, "");
    assert_eq!(e.source, "");
    assert_eq!(e.message, "in section \"\"");
}

#[test]
fn text_without_section_is_an_error() {
    let e = parse("hello", &sections(), &vec![]).unwrap_err();
    assert_eq!((e.line, e.column), (1, 1));
    assert_eq!(e.remainder, "hello");
    assert_eq!(e.source, "hello");
    assert_eq!(e.message, "in section \"\"");
}

#[test]
fn header_without_blank_line_is_an_error() {
    let e = parse("-- div\nno blank line", &sections(), &vec![]).unwrap_err();
    assert_eq!(e.message, "in section \"\"");
    assert_eq!(e.remainder, "-- div\nno blank line");
}

#[test]
fn unmatched_end_tag_is_expected_eof() {
    let src = "-- div\n\ntext\n\n-- /other";
    let e = parse(src, &sections(), &vec![]).unwrap_err();
    assert_eq!(e.message, "expected eof");
    assert_eq!((e.line, e.column), (5, 1));
    assert_eq!(e.remainder, "-- /other");
    assert_eq!(e.source, src);
}

#[test]
fn error_column_counts_from_line_start() {
    let e = parse("-- div\n\ntext\n\n  -- /other", &sections(), &vec![]).unwrap_err();
    assert_eq!(e.message, "expected eof");
    assert_eq!((e.line, e.column), (5, 3));
    assert_eq!(e.remainder, "-- /other");
}

#[test]
fn span_names_do_not_change_the_result() {
    let src = "-- list\n\n- alfa beta\n\n- gamma";
    let a = output(&parse(src, &sections(), &vec![]).unwrap());
    let b = output(&parse(src, &sections(), &vec!["em".to_string(), "strong".to_string()]).unwrap());
    assert_eq!(a, b);
}

#[test]
fn words_keep_their_characters() {
    assert_eq!(
        render("-- div\n\nna\u{ef}ve caf\u{e9} <b>"),
        "<div class=\"generic-full-div\"><p>na\u{ef}ve caf\u{e9} <b></p></div>"
    );
}

#[test]
fn text_after_json_end_tag_is_expected_eof() {
    let src = "-- metadata/\n\n[1, 2]\n\n-- /metadata\n\nnext";
    let e = parse(src, &sections(), &vec![]).unwrap_err();
    assert_eq!(e.message, "expected eof");
    assert_eq!((e.line, e.column), (7, 1));
    assert_eq!(e.remainder, "next");
}
