//! Catalog ingestion, fuzzy search, and slot placement for an effect picker.
//!
//! The library parses an INI-like effect catalog into ordered sections
//! (`parser`), extracts the searchable candidate index from it (`index`),
//! ranks the index against a query by fuzzy subsequence matching (`search`),
//! plans timeline insertion with a bounded retry over layers (`placement`),
//! and classifies incoming requests (`router`).  Windowing, content serving
//! and transport framing are collaborators outside this crate.

use vstd::prelude::*;

pub mod index;
pub mod parser;
pub mod placement;
pub mod router;
pub mod search;

verus! {

/// One searchable catalog entry: the stable identifier used when inserting
/// the effect, and the human-readable label shown to the user.
#[derive(Debug)]
pub struct Candidate {
    pub identifier: String,
    pub label: String,
}

/// Mathematical model of a [`Candidate`]: both fields as character sequences.
pub ghost struct CandidateModel {
    pub identifier: Seq<char>,
    pub label: Seq<char>,
}

impl View for Candidate {
    type V = CandidateModel;

    open spec fn view(&self) -> CandidateModel {
        CandidateModel { identifier: self.identifier@, label: self.label@ }
    }
}

impl Clone for Candidate {
    fn clone(&self) -> (r: Self)
        ensures
            r@ == self@,
    {
        Candidate { identifier: self.identifier.clone(), label: self.label.clone() }
    }
}

/// The model of a candidate sequence: each element as its model.
pub open spec fn cands_view(v: Seq<Candidate>) -> Seq<CandidateModel> {
    v.map_values(|c: Candidate| c@)
}

/// Character-wise string equality.
pub fn str_eq(a: &str, b: &str) -> (r: bool)
    ensures
        r == (a@ == b@),
{
    let na = a.unicode_len();
    let nb = b.unicode_len();
    if na != nb {
        return false;
    }
    let mut i: usize = 0;
    while i < na
        invariant
            na == a@.len(),
            nb == b@.len(),
            na == nb,
            i <= na,
            forall|k: int| 0 <= k < i ==> a@[k] == b@[k],
        decreases na - i,
    {
        if a.get_char(i) != b.get_char(i) {
            return false;
        }
        i += 1;
    }
    proof {
        assert(a@ =~= b@);
    }
    true
}

/// Whether `p` is a character-wise prefix of `s`.
pub fn str_starts_with(s: &str, p: &str) -> (r: bool)
    ensures
        r == p@.is_prefix_of(s@),
{
    let ns = s.unicode_len();
    let np = p.unicode_len();
    if np > ns {
        return false;
    }
    let mut i: usize = 0;
    while i < np
        invariant
            ns == s@.len(),
            np == p@.len(),
            np <= ns,
            i <= np,
            forall|k: int| 0 <= k < i ==> s@[k] == p@[k],
        decreases np - i,
    {
        if s.get_char(i) != p.get_char(i) {
            proof {
                assert(!(p@ =~= s@.subrange(0, p@.len() as int)));
            }
            return false;
        }
        i += 1;
    }
    proof {
        assert(p@ =~= s@.subrange(0, p@.len() as int));
    }
    true
}

} // verus!
