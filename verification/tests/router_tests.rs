use object_search::index::parse_candicates;
use object_search::router::{handle_search, route_message, search_result_kind, RoutedRequest};

#[test]
fn search_messages_are_routed_with_their_query() {
    match route_message("search", Some("fire")) {
        RoutedRequest::Search { query } => assert_eq!(query, "fire"),
        _ => panic!("expected a search request"),
    }
}

#[test]
fn select_messages_are_routed_with_their_identifier() {
    match route_message("select", Some("Fire_A")) {
        RoutedRequest::Select { identifier } => assert_eq!(identifier, "Fire_A"),
        _ => panic!("expected a select request"),
    }
}

#[test]
fn unknown_kinds_are_malformed() {
    assert!(matches!(
        route_message("rename", Some("x")),
        RoutedRequest::Malformed
    ));
}

#[test]
fn missing_payload_is_malformed() {
    assert!(matches!(route_message("search", None), RoutedRequest::Malformed));
    assert!(matches!(route_message("select", None), RoutedRequest::Malformed));
}

#[test]
fn search_requests_are_served_from_the_index() {
    let index = parse_candicates(
        "[Effect.Fire_A]\nlabel=Fire Effect Alpha\n[Effect.Water_B]\nlabel=Water Effect Beta\n",
    )
    .unwrap();
    let response = match route_message("search", Some("fira")) {
        RoutedRequest::Search { query } => handle_search(&index, query.as_str()),
        _ => panic!("expected a search request"),
    };
    assert_eq!(response.candidates.len(), 1);
    assert_eq!(response.candidates[0].identifier, "Fire_A");
    assert_eq!(response.candidates[0].label, "Fire Effect Alpha");
}

#[test]
fn search_response_kind_tag() {
    assert_eq!(search_result_kind(), "search_result");
}
