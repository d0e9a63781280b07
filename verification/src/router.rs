//! Request routing.
//!
//! Incoming messages arrive decoded into a kind tag and an optional string
//! payload (the wire framing belongs to the UI-bridge collaborator).  Two
//! shapes are recognized: `search` with a query and `select` with an effect
//! identifier.  Anything else is classified as malformed and must never
//! crash the router — it produces no state change and no response.

use vstd::prelude::*;

use crate::search::{search, search_spec};
use crate::{cands_view, str_eq, Candidate};

verus! {

/// A decoded incoming request: a search with its query, a selection with
/// its effect identifier, or a message matching neither recognized shape.
pub enum RoutedRequest {
    Search { query: String },
    Select { identifier: String },
    Malformed,
}

/// Classifies a decoded message by its kind tag and payload.  Exactly the
/// kinds `search` and `select`, each with a string payload, are recognized.
pub fn route_message(kind: &str, data: Option<&str>) -> (r: RoutedRequest)
    ensures
        match r {
            RoutedRequest::Search { query } => kind@ == "search"@ && data is Some && query@
                == data->0@,
            RoutedRequest::Select { identifier } => kind@ == "select"@ && data is Some
                && identifier@ == data->0@,
            RoutedRequest::Malformed => !(data is Some && (kind@ == "search"@ || kind@
                == "select"@)),
        },
{
    match data {
        Some(d) => {
            if str_eq(kind, "search") {
                RoutedRequest::Search { query: String::from_str(d) }
            } else if str_eq(kind, "select") {
                RoutedRequest::Select { identifier: String::from_str(d) }
            } else {
                RoutedRequest::Malformed
            }
        },
        None => RoutedRequest::Malformed,
    }
}

/// The response to a search request: the ranked candidates, each carried
/// under the protocol's two field names, `identifier` and `label`.
pub struct SearchResponse {
    pub candidates: Vec<Candidate>,
}

/// Serves a search request against the shared index.
pub fn handle_search(index: &Vec<Candidate>, query: &str) -> (r: SearchResponse)
    ensures
        cands_view(r.candidates@) == search_spec(cands_view(index@), query@),
{
    SearchResponse { candidates: search(index, query) }
}

/// The protocol kind tag of a search response.
pub fn search_result_kind() -> (r: &'static str)
    ensures
        r@ == "search_result"@,
{
    "search_result"
}

} // verus!
