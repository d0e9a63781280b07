use object_search::search::search;
use object_search::Candidate;

fn cand(identifier: &str, label: &str) -> Candidate {
    Candidate {
        identifier: identifier.to_string(),
        label: label.to_string(),
    }
}

fn demo_index() -> Vec<Candidate> {
    vec![
        cand("Fire_A", "Fire Effect Alpha"),
        cand("Water_B", "Water Effect Beta"),
    ]
}

fn ids(results: &[Candidate]) -> Vec<String> {
    results.iter().map(|c| c.identifier.clone()).collect()
}

#[test]
fn empty_query_returns_full_index_in_order() {
    let index = demo_index();
    let results = search(&index, "");
    assert_eq!(ids(&results), vec!["Fire_A", "Water_B"]);
}

#[test]
fn whitespace_only_query_returns_full_index() {
    let index = demo_index();
    let results = search(&index, " \t\r\n");
    assert_eq!(ids(&results), vec!["Fire_A", "Water_B"]);
}

#[test]
fn search_is_deterministic() {
    let index = demo_index();
    let first = search(&index, "effect");
    let second = search(&index, "effect");
    assert_eq!(ids(&first), ids(&second));
    for (a, b) in first.iter().zip(second.iter()) {
        assert_eq!(a.label, b.label);
    }
}

#[test]
fn selective_match_excludes_non_matching_candidates() {
    let index = demo_index();
    let results = search(&index, "fira");
    assert_eq!(ids(&results), vec!["Fire_A"]);
}

#[test]
fn matching_is_case_insensitive_and_trimmed() {
    let index = demo_index();
    let results = search(&index, "  FIRA \n");
    assert_eq!(ids(&results), vec!["Fire_A"]);
}

#[test]
fn identifier_is_part_of_the_match_target() {
    let index = vec![cand("Blur_X", "Soft focus")];
    // "blur" appears only in the identifier, not in the label.
    let results = search(&index, "blur");
    assert_eq!(ids(&results), vec!["Blur_X"]);
}

#[test]
fn no_match_yields_empty_result() {
    let index = demo_index();
    let results = search(&index, "zzzzqq");
    assert!(results.is_empty());
}

#[test]
fn equal_candidates_keep_index_order() {
    // Targets differ only in one letter the query never touches, so all
    // three score the same and the original index order must be kept.
    let index = vec![
        cand("IdA", "Same Label"),
        cand("IdB", "Same Label"),
        cand("IdC", "Same Label"),
    ];
    let results = search(&index, "same");
    assert_eq!(ids(&results), vec!["IdA", "IdB", "IdC"]);
}

#[test]
fn query_matching_everything_keeps_all_candidates() {
    let index = demo_index();
    let results = search(&index, "effect");
    assert_eq!(results.len(), 2);
}

#[test]
fn search_does_not_mutate_the_index() {
    let index = demo_index();
    let _ = search(&index, "fire");
    assert_eq!(index.len(), 2);
    assert_eq!(index[0].identifier, "Fire_A");
}
