//! Fuzzy search over the candidate index.
//!
//! The query is normalized (surrounding whitespace trimmed, ASCII letters
//! lower-cased).  An empty normalized query returns the whole index in its
//! original order.  Otherwise each candidate is matched as the target string
//! `label + " (" + identifier + ")"` by the fuzzy matcher; candidates with
//! no match are excluded, and the rest are ordered by descending score with
//! ties kept in index order (a stable ranking).

use vstd::prelude::*;

use crate::{cands_view, Candidate, CandidateModel};

verus! {

/// Whitespace trimmed from around a query.
pub open spec fn is_query_ws(c: char) -> bool {
    c == ' ' || c == '\t' || c == '\r' || c == '\n'
}

/// Length of the whitespace run at the front of `l`.
pub open spec fn lead_qws(l: Seq<char>) -> int
    decreases l.len(),
{
    if l.len() == 0 || !is_query_ws(l[0]) {
        0
    } else {
        1 + lead_qws(l.drop_first())
    }
}

/// Length of the whitespace run at the back of `l`.
pub open spec fn trail_qws(l: Seq<char>) -> int
    decreases l.len(),
{
    if l.len() == 0 || !is_query_ws(l.last()) {
        0
    } else {
        1 + trail_qws(l.drop_last())
    }
}

proof fn lemma_lead_qws_is(l: Seq<char>, i: int)
    requires
        0 <= i <= l.len(),
        forall|k: int| 0 <= k < i ==> is_query_ws(l[k]),
        i < l.len() ==> !is_query_ws(l[i]),
    ensures
        lead_qws(l) == i,
    decreases l.len(),
{
    if i == 0 {
    } else {
        assert(is_query_ws(l[0]));
        assert forall|k: int| 0 <= k < i - 1 implies is_query_ws(l.drop_first()[k]) by {
            assert(l.drop_first()[k] == l[k + 1]);
        }
        assert(i - 1 < l.drop_first().len() ==> !is_query_ws(l.drop_first()[i - 1]));
        lemma_lead_qws_is(l.drop_first(), i - 1);
    }
}

proof fn lemma_trail_qws_is(l: Seq<char>, i: int)
    requires
        0 <= i <= l.len(),
        forall|k: int| l.len() - i <= k < l.len() ==> is_query_ws(l[k]),
        i < l.len() ==> !is_query_ws(l[l.len() - 1 - i]),
    ensures
        trail_qws(l) == i,
    decreases l.len(),
{
    if i == 0 {
    } else {
        assert(is_query_ws(l.last()));
        assert forall|k: int| l.drop_last().len() - (i - 1) <= k < l.drop_last().len()
            implies is_query_ws(l.drop_last()[k]) by {
            assert(l.drop_last()[k] == l[k]);
        }
        assert(i - 1 < l.drop_last().len() ==> !is_query_ws(
            l.drop_last()[l.drop_last().len() - 1 - (i - 1)],
        ));
        lemma_trail_qws_is(l.drop_last(), i - 1);
    }
}

/// The query with surrounding whitespace removed.
pub open spec fn trimmed(q: Seq<char>) -> Seq<char> {
    let s = q.skip(lead_qws(q));
    s.take(s.len() - trail_qws(s))
}

/// ASCII lower-casing of one character; other characters are unchanged.
pub open spec fn lower_char(c: char) -> char {
    if 'A' <= c && c <= 'Z' {
        ((c as u8 + 32) as u8) as char
    } else {
        c
    }
}

/// ASCII lower-casing of a whole sequence.
pub open spec fn lower_all(s: Seq<char>) -> Seq<char> {
    s.map_values(|c: char| lower_char(c))
}

/// The normalized query: trimmed, then lower-cased.
pub open spec fn normalized_query(q: Seq<char>) -> Seq<char> {
    lower_all(trimmed(q))
}

fn is_query_ws_char(c: char) -> (b: bool)
    ensures
        b == is_query_ws(c),
{
    c == ' ' || c == '\t' || c == '\r' || c == '\n'
}

fn lower_char_exec(c: char) -> (r: char)
    ensures
        r == lower_char(c),
{
    if 'A' <= c && c <= 'Z' {
        proof {
            assert(c as u8 + 32 <= 122);
        }
        (c as u8 + 32) as char
    } else {
        c
    }
}

/// Relies on `String::push`: appends exactly the one given character.
#[verifier::external_body]
fn push_char(s: &mut String, c: char)
    ensures
        final(s)@ == old(s)@.push(c),
{
    s.push(c);
}

/// Trims surrounding whitespace and lower-cases ASCII letters.
fn normalize_query(query: &str) -> (r: String)
    ensures
        r@ == normalized_query(query@),
{
    let n = query.unicode_len();
    let mut a: usize = 0;
    while a < n && is_query_ws_char(query.get_char(a))
        invariant
            n == query@.len(),
            a <= n,
            forall|k: int| 0 <= k < a ==> is_query_ws(query@[k]),
        decreases n - a,
    {
        a += 1;
    }
    proof {
        lemma_lead_qws_is(query@, a as int);
    }
    let mut b: usize = n;
    while b > a && is_query_ws_char(query.get_char(b - 1))
        invariant
            n == query@.len(),
            a <= b <= n,
            forall|k: int| b <= k < n ==> is_query_ws(query@[k]),
        decreases b,
    {
        b -= 1;
    }
    let ghost s = query@.skip(a as int);
    proof {
        assert forall|k: int| s.len() - (n - b) <= k < s.len() implies is_query_ws(s[k]) by {
            assert(s[k] == query@[k + a]);
        }
        if (n - b) < s.len() {
            assert(s[s.len() - 1 - (n - b)] == query@[b as int - 1]);
        }
        lemma_trail_qws_is(s, n as int - b as int);
        assert(trimmed(query@) =~= query@.subrange(a as int, b as int));
    }
    let mut out = String::new();
    let mut i = a;
    while i < b
        invariant
            n == query@.len(),
            a <= i <= b <= n,
            out@ == lower_all(query@.subrange(a as int, i as int)),
        decreases b - i,
    {
        let c = lower_char_exec(query.get_char(i));
        push_char(&mut out, c);
        proof {
            assert(query@.subrange(a as int, i as int + 1).drop_last() =~= query@.subrange(
                a as int,
                i as int,
            ));
            assert(lower_all(query@.subrange(a as int, i as int + 1)) =~= lower_all(
                query@.subrange(a as int, i as int),
            ).push(lower_char(query@[i as int])));
        }
        i += 1;
    }
    proof {
        assert(out@ == lower_all(trimmed(query@)));
    }
    out
}

/// The string a candidate is matched against:
/// `label + " (" + identifier + ")"`.
pub open spec fn target_of(c: CandidateModel) -> Seq<char> {
    c.label + " ("@ + c.identifier + ")"@
}

fn make_target(c: &Candidate) -> (r: String)
    ensures
        r@ == target_of(c@),
{
    let mut t = String::from_str(c.label.as_str());
    t.append(" (");
    t.append(c.identifier.as_str());
    t.append(")");
    t
}

/// The score the fuzzy matcher assigns to `pattern` against `choice`, or
/// `None` when the pattern does not match.  The matcher's scoring weights
/// are not modelled; the name stands for its result, which depends on the
/// two strings alone.
pub uninterp spec fn skim_score(choice: Seq<char>, pattern: Seq<char>) -> Option<i64>;

/// Relies on fuzzy_matcher's `SkimMatcherV2` with default settings:
/// `fuzzy_match` is a deterministic dynamic-programming score of the two
/// strings alone (its thread-local buffers are cleared on every call), so
/// its result is named by `skim_score`.
#[verifier::external_body]
fn fuzzy_score(choice: &str, pattern: &str) -> (r: Option<i64>)
    ensures
        r == skim_score(choice@, pattern@),
{
    let matcher = fuzzy_matcher::skim::SkimMatcherV2::default();
    fuzzy_matcher::FuzzyMatcher::fuzzy_match(&matcher, choice, pattern)
}

/// Scores descending; each pair is `(score, position in the index)`.
pub open spec fn sorted_desc(s: Seq<(i64, int)>) -> bool {
    forall|a: int, b: int| 0 <= a <= b < s.len() ==> s[a].0 >= s[b].0
}

/// Inserts `p` after every pair whose score is at least `p`'s, so that a
/// later index position never overtakes an equal score.
pub open spec fn insert_ranked(s: Seq<(i64, int)>, p: (i64, int)) -> Seq<(i64, int)>
    decreases s.len(),
{
    if s.len() == 0 {
        seq![p]
    } else if s[0].0 >= p.0 {
        seq![s[0]] + insert_ranked(s.drop_first(), p)
    } else {
        seq![p] + s
    }
}

/// The ranked `(score, position)` pairs of the candidates that match `nq`,
/// by descending score, ties in index order.
pub open spec fn rank_pairs(cands: Seq<CandidateModel>, nq: Seq<char>) -> Seq<(i64, int)>
    decreases cands.len(),
{
    if cands.len() == 0 {
        Seq::empty()
    } else {
        let pre = rank_pairs(cands.drop_last(), nq);
        match skim_score(target_of(cands.last()), nq) {
            Some(sc) => insert_ranked(pre, (sc, cands.len() - 1)),
            None => pre,
        }
    }
}

/// What `search` returns: the whole index for a query that normalizes to
/// nothing, otherwise the matching candidates in rank order.
pub open spec fn search_spec(cands: Seq<CandidateModel>, q: Seq<char>) -> Seq<CandidateModel> {
    let nq = normalized_query(q);
    if nq.len() == 0 {
        cands
    } else {
        rank_pairs(cands, nq).map_values(|p: (i64, int)| cands[p.1])
    }
}

proof fn lemma_insert_ranked_at(s: Seq<(i64, int)>, p: (i64, int), j: int)
    requires
        0 <= j <= s.len(),
        forall|k: int| 0 <= k < j ==> s[k].0 >= p.0,
        j < s.len() ==> s[j].0 < p.0,
    ensures
        insert_ranked(s, p) == s.take(j) + seq![p] + s.skip(j),
    decreases s.len(),
{
    if s.len() == 0 {
        assert(s.take(0) + seq![p] + s.skip(0) =~= seq![p]);
    } else if j == 0 {
        assert(s.take(0) + seq![p] + s.skip(0) =~= seq![p] + s);
    } else {
        assert(s[0].0 >= p.0);
        let d = s.drop_first();
        assert forall|k: int| 0 <= k < j - 1 implies d[k].0 >= p.0 by {
            assert(d[k] == s[k + 1]);
        }
        assert(j - 1 < d.len() ==> d[j - 1].0 < p.0);
        lemma_insert_ranked_at(d, p, j - 1);
        assert(seq![s[0]] + (d.take(j - 1) + seq![p] + d.skip(j - 1)) =~= s.take(j) + seq![p]
            + s.skip(j));
    }
}

/// The view of score/position pairs with machine positions.
pub open spec fn pairs_view(v: Seq<(i64, usize)>) -> Seq<(i64, int)> {
    v.map_values(|p: (i64, usize)| (p.0, p.1 as int))
}

/// Ranks the index against the query.  The result is the whole index in
/// original order when the query normalizes to nothing; otherwise exactly
/// the matching candidates, by descending score, ties in index order.
pub fn search(index: &Vec<Candidate>, query: &str) -> (r: Vec<Candidate>)
    ensures
        cands_view(r@) == search_spec(cands_view(index@), query@),
{
    let ghost cands = cands_view(index@);
    let nq = normalize_query(query);
    if nq.as_str().is_empty() {
        let mut out: Vec<Candidate> = Vec::new();
        let mut i: usize = 0;
        proof {
            assert(cands_view(out@) =~= cands.take(0));
        }
        while i < index.len()
            invariant
                cands == cands_view(index@),
                cands.len() == index@.len(),
                i <= index@.len(),
                cands_view(out@) == cands.take(i as int),
            decreases index@.len() - i,
        {
            let ghost old_out = cands_view(out@);
            out.push(index[i].clone());
            proof {
                assert(cands_view(out@) =~= old_out.push(cands[i as int]));
                assert(cands.take(i as int + 1) =~= cands.take(i as int).push(cands[i as int]));
            }
            i += 1;
        }
        proof {
            assert(cands.take(index@.len() as int) =~= cands);
        }
        return out;
    }
    let mut pairs: Vec<(i64, usize)> = Vec::new();
    let mut i: usize = 0;
    proof {
        assert(pairs_view(pairs@) =~= Seq::<(i64, int)>::empty());
        assert(cands.take(0) =~= Seq::<CandidateModel>::empty());
    }
    while i < index.len()
        invariant
            cands == cands_view(index@),
            cands.len() == index@.len(),
            i <= index@.len(),
            nq@ == normalized_query(query@),
            nq@.len() > 0,
            pairs_view(pairs@) == rank_pairs(cands.take(i as int), nq@),
            sorted_desc(pairs_view(pairs@)),
            forall|k: int| 0 <= k < pairs@.len() ==> #[trigger] pairs@[k].1 < i,
        decreases index@.len() - i,
    {
        let target = make_target(&index[i]);
        let sc_opt = fuzzy_score(target.as_str(), nq.as_str());
        proof {
            assert(cands.take(i as int + 1).drop_last() =~= cands.take(i as int));
            assert(cands.take(i as int + 1).last() == cands[i as int]);
            assert(target@ == target_of(cands[i as int]));
        }
        match sc_opt {
            Some(sc) => {
                let ghost old_pv = pairs_view(pairs@);
                let mut j = pairs.len();
                while j > 0 && pairs[j - 1].0 < sc
                    invariant
                        j <= pairs@.len(),
                        old_pv == pairs_view(pairs@),
                        forall|k: int| j <= k < pairs@.len() ==> #[trigger] pairs@[k].0 < sc,
                    decreases j,
                {
                    j -= 1;
                }
                proof {
                    assert forall|k: int| 0 <= k < j implies old_pv[k].0 >= sc by {
                        assert(old_pv[j as int - 1].0 >= sc);
                        assert(old_pv[k].0 >= old_pv[j as int - 1].0);
                    }
                    assert(j < old_pv.len() ==> old_pv[j as int].0 < sc);
                    lemma_insert_ranked_at(old_pv, (sc, i as int), j as int);
                }
                let ghost old_pairs = pairs@;
                pairs.insert(j, (sc, i));
                proof {
                    assert(pairs_view(pairs@) =~= old_pv.take(j as int) + seq![(sc, i as int)]
                        + old_pv.skip(j as int));
                    let pv = pairs_view(pairs@);
                    assert forall|a: int, b: int| 0 <= a <= b < pv.len() implies pv[a].0
                        >= pv[b].0 by {
                        if a < j {
                            assert(pv[a] == old_pv[a]);
                        }
                        if b < j {
                            assert(pv[b] == old_pv[b]);
                        }
                        if a > j {
                            assert(pv[a] == old_pv[a - 1]);
                        }
                        if b > j {
                            assert(pv[b] == old_pv[b - 1]);
                        }
                        if a < j && b > j {
                            assert(old_pv[a].0 >= sc);
                            assert(old_pv[b - 1].0 < sc);
                        }
                    }
                    assert forall|k: int| 0 <= k < pairs@.len() implies #[trigger] pairs@[k].1
                        < i + 1 by {
                        if k < j {
                            assert(pairs@[k] == old_pairs[k]);
                        } else if k > j {
                            assert(pairs@[k] == old_pairs[k - 1]);
                        }
                    }
                }
            },
            None => {},
        }
        i += 1;
    }
    proof {
        assert(cands.take(index@.len() as int) =~= cands);
    }
    let ghost rseq = search_spec(cands, query@);
    proof {
        assert(rseq == rank_pairs(cands, nq@).map_values(|p: (i64, int)| cands[p.1]));
        assert(rseq.len() == pairs_view(pairs@).len());
    }
    let mut out: Vec<Candidate> = Vec::new();
    let mut k: usize = 0;
    proof {
        assert(cands_view(out@) =~= rseq.take(0));
    }
    while k < pairs.len()
        invariant
            cands == cands_view(index@),
            cands.len() == index@.len(),
            rseq == search_spec(cands, query@),
            pairs_view(pairs@) == rank_pairs(cands, normalized_query(query@)),
            rseq == rank_pairs(cands, normalized_query(query@)).map_values(
                |p: (i64, int)| cands[p.1],
            ),
            rseq.len() == pairs@.len(),
            forall|x: int| 0 <= x < pairs@.len() ==> #[trigger] pairs@[x].1 < index@.len(),
            k <= pairs@.len(),
            cands_view(out@) == rseq.take(k as int),
        decreases pairs@.len() - k,
    {
        let pr = pairs[k];
        let ghost old_out = cands_view(out@);
        proof {
            assert(pairs_view(pairs@)[k as int] == (pr.0, pr.1 as int));
            assert(rseq[k as int] == cands[pr.1 as int]);
        }
        out.push(index[pr.1].clone());
        proof {
            assert(cands_view(out@) =~= old_out.push(cands[pr.1 as int]));
            assert(rseq.take(k as int + 1) =~= rseq.take(k as int).push(rseq[k as int]));
        }
        k += 1;
    }
    proof {
        assert(rseq.take(pairs@.len() as int) =~= rseq);
    }
    out
}

/// Well-ranked pairs: scores descending, every index position in range,
/// and equal scores kept in index order (a stable ranking).
pub open spec fn well_ranked(s: Seq<(i64, int)>, bound: int) -> bool {
    &&& sorted_desc(s)
    &&& (forall|k: int| 0 <= k < s.len() ==> 0 <= #[trigger] s[k].1 < bound)
    &&& (forall|a: int, b: int| 0 <= a < b < s.len() && s[a].0 == s[b].0 ==> s[a].1 < s[b].1)
}

/// Where `insert_ranked` puts its new pair: after every score at least as
/// large.
spec fn insert_pos(s: Seq<(i64, int)>, p: (i64, int)) -> int
    decreases s.len(),
{
    if s.len() == 0 {
        0
    } else if s[0].0 >= p.0 {
        1 + insert_pos(s.drop_first(), p)
    } else {
        0
    }
}

proof fn lemma_insert_pos_props(s: Seq<(i64, int)>, p: (i64, int))
    ensures
        0 <= insert_pos(s, p) <= s.len(),
        forall|k: int| 0 <= k < insert_pos(s, p) ==> s[k].0 >= p.0,
        insert_pos(s, p) < s.len() ==> s[insert_pos(s, p)].0 < p.0,
    decreases s.len(),
{
    if s.len() == 0 || s[0].0 < p.0 {
    } else {
        let d = s.drop_first();
        lemma_insert_pos_props(d, p);
        assert forall|k: int| 0 <= k < insert_pos(s, p) implies s[k].0 >= p.0 by {
            if k > 0 {
                assert(d[k - 1] == s[k]);
            }
        }
        if insert_pos(s, p) < s.len() {
            assert(d[insert_pos(d, p)] == s[insert_pos(s, p)]);
        }
    }
}

proof fn lemma_insert_ranked_well(s: Seq<(i64, int)>, p: (i64, int), bound: int)
    requires
        well_ranked(s, bound),
        p.1 == bound,
        bound >= 0,
    ensures
        well_ranked(insert_ranked(s, p), bound + 1),
{
    let j = insert_pos(s, p);
    lemma_insert_pos_props(s, p);
    lemma_insert_ranked_at(s, p, j);
    let r = s.take(j) + seq![p] + s.skip(j);
    assert forall|a: int, b: int| 0 <= a <= b < r.len() implies r[a].0 >= r[b].0 by {
        if a < j {
            assert(r[a] == s[a]);
        } else if a > j {
            assert(r[a] == s[a - 1]);
        }
        if b < j {
            assert(r[b] == s[b]);
        } else if b > j {
            assert(r[b] == s[b - 1]);
            assert(s[b - 1].0 <= s[j].0);
        }
    }
    assert forall|k: int| 0 <= k < r.len() implies 0 <= #[trigger] r[k].1 < bound + 1 by {
        if k < j {
            assert(r[k] == s[k]);
        } else if k > j {
            assert(r[k] == s[k - 1]);
        }
    }
    assert forall|a: int, b: int| 0 <= a < b < r.len() && r[a].0 == r[b].0 implies r[a].1
        < r[b].1 by {
        if a < j {
            assert(r[a] == s[a]);
        } else if a > j {
            assert(r[a] == s[a - 1]);
        }
        if b < j {
            assert(r[b] == s[b]);
        } else if b > j {
            assert(r[b] == s[b - 1]);
            assert(s[b - 1].0 <= s[j].0);
        }
    }
}

/// Stable ranking: the ranked pairs of any index and query have strictly
/// descending-or-equal scores in order, index positions in range, and equal
/// scores kept in the index's original order — the tie-break the contract
/// of `search` promises.
pub proof fn lemma_rank_pairs_well(cands: Seq<CandidateModel>, nq: Seq<char>)
    ensures
        well_ranked(rank_pairs(cands, nq), cands.len() as int),
    decreases cands.len(),
{
    if cands.len() == 0 {
    } else {
        let d = cands.drop_last();
        lemma_rank_pairs_well(d, nq);
        let pre = rank_pairs(d, nq);
        match skim_score(target_of(cands.last()), nq) {
            Some(sc) => {
                lemma_insert_ranked_well(pre, (sc, cands.len() - 1), cands.len() - 1);
            },
            None => {
            },
        }
    }
}

/// Empty query: a query that normalizes to nothing returns the whole index,
/// unranked, in its original order.
pub proof fn lemma_empty_query_returns_index(cands: Seq<CandidateModel>, q: Seq<char>)
    requires
        normalized_query(q).len() == 0,
    ensures
        search_spec(cands, q) == cands,
{
}

/// The empty query is such a query: it normalizes to nothing, so searching
/// with it returns the full index.
pub proof fn lemma_empty_string_query(cands: Seq<CandidateModel>)
    ensures
        search_spec(cands, Seq::empty()) == cands,
{
    assert(trimmed(Seq::<char>::empty()) =~= Seq::<char>::empty());
    lemma_empty_query_returns_index(cands, Seq::empty());
}

/// Determinism: the search result is a function of the index and the query
/// alone, so identical inputs give identical ordered results.
pub proof fn lemma_search_deterministic(
    c1: Seq<CandidateModel>,
    q1: Seq<char>,
    c2: Seq<CandidateModel>,
    q2: Seq<char>,
)
    requires
        c1 == c2,
        q1 == q2,
    ensures
        search_spec(c1, q1) == search_spec(c2, q2),
{
}

} // verus!
