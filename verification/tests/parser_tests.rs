use object_search::parser::parse;

fn names_of(text: &str) -> Vec<String> {
    parse(text).unwrap().into_iter().map(|s| s.name).collect()
}

#[test]
fn parse_order_is_file_order() {
    let text = "[One]\na=1\nb=2\n[Two]\nc=3\n[Three]\nd=4\n";
    let secs = parse(text).unwrap();
    assert_eq!(names_of(text), vec!["One", "Two", "Three"]);
    assert_eq!(
        secs[0].entries,
        vec![
            ("a".to_string(), "1".to_string()),
            ("b".to_string(), "2".to_string()),
        ]
    );
    assert_eq!(secs[1].entries, vec![("c".to_string(), "3".to_string())]);
    assert_eq!(secs[2].entries, vec![("d".to_string(), "4".to_string())]);
}

#[test]
fn parse_twice_is_identical() {
    let text = "; catalog\n[Effect.A]\nlabel=Alpha\nx=y\n\n[Effect.B]\nlabel=Beta\n";
    let first = parse(text).unwrap();
    let second = parse(text).unwrap();
    assert_eq!(first.len(), second.len());
    for (a, b) in first.iter().zip(second.iter()) {
        assert_eq!(a.name, b.name);
        assert_eq!(a.entries, b.entries);
    }
}

#[test]
fn crlf_and_lf_both_accepted() {
    let unix = parse("[S]\nk=v\n").unwrap();
    let windows = parse("[S]\r\nk=v\r\n").unwrap();
    assert_eq!(unix.len(), 1);
    assert_eq!(windows.len(), 1);
    assert_eq!(unix[0].name, windows[0].name);
    assert_eq!(unix[0].entries, windows[0].entries);
}

#[test]
fn final_line_without_terminator_counts() {
    let secs = parse("[S]\nk=v").unwrap();
    assert_eq!(secs[0].entries, vec![("k".to_string(), "v".to_string())]);
}

#[test]
fn leading_blank_and_comment_lines_skipped() {
    let text = "\n   \n; a comment\n# another\n[S]\nk=v\n";
    let secs = parse(text).unwrap();
    assert_eq!(secs.len(), 1);
    assert_eq!(secs[0].name, "S");
}

#[test]
fn comments_inside_sections_skipped() {
    let secs = parse("[S]\n; skip me\nk=v\n  # also me\nl=w\n").unwrap();
    assert_eq!(
        secs[0].entries,
        vec![
            ("k".to_string(), "v".to_string()),
            ("l".to_string(), "w".to_string()),
        ]
    );
}

#[test]
fn duplicate_keys_all_preserved() {
    let secs = parse("[S]\nk=1\nk=2\n").unwrap();
    assert_eq!(
        secs[0].entries,
        vec![
            ("k".to_string(), "1".to_string()),
            ("k".to_string(), "2".to_string()),
        ]
    );
}

#[test]
fn empty_value_is_kept_verbatim() {
    let secs = parse("[S]\nlabel=\n").unwrap();
    assert_eq!(secs[0].entries, vec![("label".to_string(), String::new())]);
}

#[test]
fn value_keeps_everything_after_the_separator() {
    // Whitespace around `=` belongs to the separator; the value itself is
    // verbatim from its first character on, trailing whitespace included.
    let secs = parse("[S]\nk= spaced = value \n").unwrap();
    assert_eq!(
        secs[0].entries,
        vec![("k".to_string(), "spaced = value ".to_string())]
    );
}

#[test]
fn key_may_have_surrounding_whitespace() {
    let secs = parse("[S]\n  k\t= v\n").unwrap();
    assert_eq!(secs[0].entries, vec![("k".to_string(), "v".to_string())]);
}

#[test]
fn malformed_line_is_a_hard_error_with_its_line() {
    let err = parse("[S]\nok=1\nthis is no pair\n").unwrap_err();
    assert_eq!(err.line, 2);
}

#[test]
fn key_value_before_any_section_is_an_error() {
    let err = parse("k=v\n[S]\n").unwrap_err();
    assert_eq!(err.line, 0);
}

#[test]
fn empty_input_yields_no_sections() {
    assert!(parse("").unwrap().is_empty());
}

#[test]
fn section_name_may_contain_spaces_and_dots() {
    let secs = parse("[Effect.Fire A]\nlabel=x\n").unwrap();
    assert_eq!(secs[0].name, "Effect.Fire A");
}

#[test]
fn empty_section_name_is_rejected() {
    let err = parse("[]\n").unwrap_err();
    assert_eq!(err.line, 0);
}
