use object_search::index::{build, parse_candicates};
use object_search::parser::parse;

#[test]
fn index_extraction_example() {
    let text = "[Effect.Fire_A]\nlabel=Fire Effect Alpha\n[Effect.Water_B]\nlabel=Water Effect Beta\n";
    let cands = parse_candicates(text).unwrap();
    assert_eq!(cands.len(), 2);
    assert_eq!(cands[0].identifier, "Fire_A");
    assert_eq!(cands[0].label, "Fire Effect Alpha");
    assert_eq!(cands[1].identifier, "Water_B");
    assert_eq!(cands[1].label, "Water Effect Beta");
}

#[test]
fn section_without_label_yields_no_candidate() {
    let cands = parse_candicates("[Effect.X]\nother=1\n").unwrap();
    assert!(cands.is_empty());
}

#[test]
fn empty_label_yields_no_candidate() {
    let cands = parse_candicates("[Effect.X]\nlabel=\n").unwrap();
    assert!(cands.is_empty());
}

#[test]
fn first_label_entry_wins() {
    let cands = parse_candicates("[Effect.X]\nlabel=First\nlabel=Second\n").unwrap();
    assert_eq!(cands.len(), 1);
    assert_eq!(cands[0].label, "First");
}

#[test]
fn empty_first_label_is_not_rescued_by_a_later_one() {
    let cands = parse_candicates("[Effect.X]\nlabel=\nlabel=Second\n").unwrap();
    assert!(cands.is_empty());
}

#[test]
fn sections_without_the_prefix_are_ignored() {
    let text = "[General]\nlabel=Not an effect\n[Effect.Y]\nlabel=Yes\n";
    let cands = parse_candicates(text).unwrap();
    assert_eq!(cands.len(), 1);
    assert_eq!(cands[0].identifier, "Y");
}

#[test]
fn index_preserves_section_order() {
    let text = "[Effect.C]\nlabel=c\n[Effect.A]\nlabel=a\n[Effect.B]\nlabel=b\n";
    let ids: Vec<String> = parse_candicates(text)
        .unwrap()
        .into_iter()
        .map(|c| c.identifier)
        .collect();
    assert_eq!(ids, vec!["C", "A", "B"]);
}

#[test]
fn build_works_on_separately_parsed_sections() {
    let secs = parse("[Effect.Z]\nlabel=Zed\n").unwrap();
    let cands = build(&secs);
    assert_eq!(cands.len(), 1);
    assert_eq!(cands[0].identifier, "Z");
    assert_eq!(cands[0].label, "Zed");
}

#[test]
fn malformed_catalog_reports_its_line() {
    let err = parse_candicates("[Effect.X]\nlabel=ok\n!!!\n").unwrap_err();
    assert_eq!(err.line, 2);
}

#[test]
fn duplicate_identifiers_coexist() {
    let text = "[Effect.X]\nlabel=One\n[Effect.X]\nlabel=Two\n";
    let cands = parse_candicates(text).unwrap();
    assert_eq!(cands.len(), 2);
    assert_eq!(cands[0].label, "One");
    assert_eq!(cands[1].label, "Two");
}
