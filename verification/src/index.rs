//! Candidate extraction: builds the immutable, insertion-ordered candidate
//! index from the parsed catalog sections.
//!
//! A section whose name starts with the literal prefix `Effect.` yields one
//! candidate: the identifier is the section name after the prefix, the label
//! is the value of the section's first `label` entry — provided that entry
//! exists and its value is non-empty.  Everything else yields nothing.

use vstd::prelude::*;

use crate::parser::{parse, parse_spec, ParseError, ParsedSection, SectionModel};
use crate::parser::entries_view;
use crate::parser::secs_view;
use crate::{cands_view, str_eq, str_starts_with, Candidate, CandidateModel};

verus! {

/// The value of the first `label` entry, if any.
pub open spec fn first_label(entries: Seq<(Seq<char>, Seq<char>)>) -> Option<Seq<char>>
    decreases entries.len(),
{
    if entries.len() == 0 {
        None
    } else if entries[0].0 == "label"@ {
        Some(entries[0].1)
    } else {
        first_label(entries.drop_first())
    }
}

/// The candidate a section yields, if any: its name must carry the
/// `Effect.` prefix, and its first `label` entry must exist with a
/// non-empty value.  The first `label` entry wins; later ones are ignored.
pub open spec fn candidate_of(s: SectionModel) -> Option<CandidateModel> {
    if "Effect."@.is_prefix_of(s.name) && first_label(s.entries) is Some && first_label(
        s.entries,
    )->0.len() > 0 {
        Some(
            CandidateModel {
                identifier: s.name.skip("Effect."@.len() as int),
                label: first_label(s.entries)->0,
            },
        )
    } else {
        None
    }
}

/// The candidate index drawn from `ss`, preserving section order.
pub open spec fn build_spec(ss: Seq<SectionModel>) -> Seq<CandidateModel>
    decreases ss.len(),
{
    if ss.len() == 0 {
        Seq::empty()
    } else {
        build_spec(ss.drop_last()) + (match candidate_of(ss.last()) {
            Some(c) => seq![c],
            None => Seq::empty(),
        })
    }
}

/// The value of the section's first `label` entry, if any.
fn first_label_value(sec: &ParsedSection) -> (r: Option<String>)
    ensures
        match r {
            Some(v) => first_label(sec@.entries) == Some(v@),
            None => first_label(sec@.entries) is None,
        },
{
    let ghost ev = entries_view(sec.entries@);
    let mut j: usize = 0;
    proof {
        assert(ev.skip(0) =~= ev);
    }
    while j < sec.entries.len()
        invariant
            ev == entries_view(sec.entries@),
            j <= sec.entries@.len(),
            ev.len() == sec.entries@.len(),
            first_label(ev) == first_label(ev.skip(j as int)),
        decreases sec.entries@.len() - j,
    {
        let e = &sec.entries[j];
        proof {
            assert(ev.skip(j as int)[0] == ev[j as int]);
            assert(ev[j as int] == (e.0@, e.1@));
            assert(ev.skip(j as int).drop_first() =~= ev.skip(j as int + 1));
        }
        if str_eq(e.0.as_str(), "label") {
            return Some(e.1.clone());
        }
        j += 1;
    }
    proof {
        assert(ev.skip(j as int) =~= Seq::<(Seq<char>, Seq<char>)>::empty());
    }
    None
}

/// Builds the candidate index from parsed sections, in section order.
pub fn build(sections: &Vec<ParsedSection>) -> (r: Vec<Candidate>)
    ensures
        cands_view(r@) == build_spec(secs_view(sections@)),
{
    let ghost ss = secs_view(sections@);
    let mut out: Vec<Candidate> = Vec::new();
    let mut i: usize = 0;
    proof {
        assert(cands_view(out@) =~= Seq::<CandidateModel>::empty());
        assert(ss.take(0) =~= Seq::<SectionModel>::empty());
    }
    while i < sections.len()
        invariant
            ss == secs_view(sections@),
            ss.len() == sections@.len(),
            i <= sections@.len(),
            cands_view(out@) == build_spec(ss.take(i as int)),
        decreases sections@.len() - i,
    {
        let sec = &sections[i];
        let ghost s = ss[i as int];
        proof {
            assert(s == sec@);
        }
        let mut cand: Option<Candidate> = None;
        if str_starts_with(sec.name.as_str(), "Effect.") {
            match first_label_value(sec) {
                Some(v) => {
                    if !v.as_str().is_empty() {
                        let plen = "Effect.".unicode_len();
                        let nlen = sec.name.as_str().unicode_len();
                        let ident = String::from_str(
                            sec.name.as_str().substring_char(plen, nlen),
                        );
                        proof {
                            assert(ident@ =~= s.name.skip("Effect."@.len() as int));
                        }
                        cand = Some(Candidate { identifier: ident, label: v });
                    }
                },
                None => {},
            }
        }
        let ghost old_out = cands_view(out@);
        match cand {
            Some(c) => {
                proof {
                    assert(candidate_of(s) == Some(c@));
                }
                out.push(c);
                proof {
                    assert(cands_view(out@) =~= old_out + seq![candidate_of(s)->0]);
                }
            },
            None => {
                proof {
                    assert(candidate_of(s) is None);
                    assert(cands_view(out@) =~= old_out + Seq::<CandidateModel>::empty());
                }
            },
        }
        proof {
            assert(ss.take(i as int + 1).drop_last() =~= ss.take(i as int));
            assert(ss.take(i as int + 1).last() == s);
        }
        i += 1;
    }
    proof {
        assert(ss.take(sections@.len() as int) =~= ss);
    }
    out
}

/// Parses the catalog text and extracts its candidate index: one candidate
/// per labelled `Effect.` section, in file order.  A malformed catalog is
/// reported with the offending line.
pub fn parse_candicates(ini_content: &str) -> (r: Result<Vec<Candidate>, ParseError>)
    ensures
        match r {
            Ok(cands) => parse_spec(ini_content@) is Ok && cands_view(cands@) == build_spec(
                parse_spec(ini_content@)->Ok_0,
            ),
            Err(e) => parse_spec(ini_content@) == Err::<Seq<SectionModel>, int>(e.line as int),
        },
{
    match parse(ini_content) {
        Ok(secs) => Ok(build(&secs)),
        Err(e) => Err(e),
    }
}

/// Empty-section exclusion: a section with no `label` entry, or whose first
/// `label` entry has an empty value, contributes no candidate to the index.
pub proof fn lemma_unlabelled_section_excluded(ss: Seq<SectionModel>, s: SectionModel)
    requires
        first_label(s.entries) is None || first_label(s.entries)->0.len() == 0,
    ensures
        build_spec(ss.push(s)) == build_spec(ss),
{
    assert(ss.push(s).drop_last() =~= ss);
    assert(ss.push(s).last() == s);
    assert(candidate_of(s) is None);
    assert(build_spec(ss) + Seq::<CandidateModel>::empty() =~= build_spec(ss));
}

} // verus!
