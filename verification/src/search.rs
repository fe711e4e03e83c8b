//! The search itself: from a query and the candidates' display texts to a
//! Match Set.
//!
//! The empty query browses: the candidates come back in the order of
//! enumeration, each with the minimum score, up to the cap. Any other
//! query is matched against every candidate; those that it matches are
//! ranked and the best kept. A raised cancellation token ends the search
//! early with the ranking of the candidates scored until then.

use vstd::prelude::*;
use crate::cancel::CancellationToken;
use crate::rank::{Match, MatchSet, MatchView, descending, enumerated_before,
    in_enumeration_order, lemma_rank_all_descending, lemma_rank_all_permutes,
    lemma_rank_all_stable, lemma_top_matches_from_input, lemma_top_step, outranks, rank_all,
    ranked, top_matches, truncate, views};
use crate::score::{lemma_score_positive_iff_matches, match_score,
    match_text, query_matches};
use crate::text::{chars_of, is_leftmost_embedding, is_subsequence, leftmost_embedding,
    lemma_leftmost_exists};

verus! {

/// The cap on a Match Set that the pickers use.
pub const MAX_RESULTS: usize = 100;

/// The display texts of the candidates, as character sequences.
pub open spec fn text_views(texts: Seq<String>) -> Seq<Seq<char>> {
    texts.map_values(|t: String| t@)
}

/// The match of a candidate that the query matches.
pub open spec fn candidate_match(
    needle: Seq<char>,
    text: Seq<char>,
    source: nat,
    candidate: nat,
) -> MatchView {
    MatchView {
        source,
        candidate,
        score: match_score(needle, text) as nat,
        positions: leftmost_embedding(needle, text),
    }
}

/// The entry of a candidate under the empty query: the minimum score and
/// nothing to highlight.
pub open spec fn browse_entry(source: nat, candidate: nat) -> MatchView {
    MatchView { source, candidate, score: 0, positions: Seq::empty() }
}

/// The matches among the first `k` candidates of a source, in the order
/// of enumeration.
pub open spec fn scored(needle: Seq<char>, texts: Seq<Seq<char>>, source: nat, k: int) -> Seq<
    MatchView,
>
    decreases k,
{
    if k <= 0 {
        Seq::empty()
    } else if query_matches(needle, texts[k - 1]) {
        scored(needle, texts, source, k - 1).push(
            candidate_match(needle, texts[k - 1], source, (k - 1) as nat),
        )
    } else {
        scored(needle, texts, source, k - 1)
    }
}

/// The first `k` candidates of a source as the empty query returns them.
pub open spec fn browsed(source: nat, k: int) -> Seq<MatchView> {
    Seq::new(if k < 0 { 0 } else { k as nat }, |i: int| browse_entry(source, i as nat))
}

/// What a search over one source returns when it has scored the first
/// `k` candidates.
pub open spec fn search_result(needle: Seq<char>, texts: Seq<Seq<char>>, cap: nat, k: int) -> Seq<
    MatchView,
> {
    if needle.len() == 0 {
        truncate(browsed(0, texts.len() as int), cap)
    } else {
        top_matches(scored(needle, texts, 0, k), cap)
    }
}

/// Every scored match belongs to a candidate among the first `k` that
/// the query matches, and the matches stand in the order of enumeration.
pub proof fn lemma_scored(needle: Seq<char>, texts: Seq<Seq<char>>, source: nat, k: int)
    requires
        0 <= k <= texts.len(),
    ensures
        scored(needle, texts, source, k).len() <= k,
        forall|i: int|
            0 <= i < scored(needle, texts, source, k).len() ==> {
                let m = #[trigger] scored(needle, texts, source, k)[i];
                &&& m.source == source
                &&& i <= m.candidate < k
                &&& query_matches(needle, texts[m.candidate as int])
                &&& m == candidate_match(needle, texts[m.candidate as int], source, m.candidate)
            },
        forall|c: int|
            0 <= c < k && query_matches(needle, #[trigger] texts[c]) ==> scored(
                needle,
                texts,
                source,
                k,
            ).contains(candidate_match(needle, texts[c], source, c as nat)),
        in_enumeration_order(scored(needle, texts, source, k)),
    decreases k,
{
    if k > 0 {
        lemma_scored(needle, texts, source, k - 1);
        let before = scored(needle, texts, source, k - 1);
        let now = scored(needle, texts, source, k);
        if query_matches(needle, texts[k - 1]) {
            let m = candidate_match(needle, texts[k - 1], source, (k - 1) as nat);
            assert(now == before.push(m));
            assert forall|i: int| 0 <= i < now.len() implies {
                let x = #[trigger] now[i];
                &&& x.source == source
                &&& i <= x.candidate < k
                &&& query_matches(needle, texts[x.candidate as int])
                &&& x == candidate_match(needle, texts[x.candidate as int], source, x.candidate)
            } by {
                if i < before.len() {
                    assert(now[i] == before[i]);
                }
            }
            assert forall|c: int| 0 <= c < k && query_matches(needle, #[trigger] texts[c]) implies now.contains(
                candidate_match(needle, texts[c], source, c as nat),
            ) by {
                if c < k - 1 {
                    let x = candidate_match(needle, texts[c], source, c as nat);
                    assert(before.contains(x));
                    let w = choose|w: int| 0 <= w < before.len() && before[w] == x;
                    assert(now[w] == x);
                } else {
                    assert(now[now.len() - 1] == m);
                }
            }
            assert forall|i: int, j: int| 0 <= i < j < now.len() implies enumerated_before(
                #[trigger] now[i],
                #[trigger] now[j],
            ) by {
                assert(now[i] == before[i]);
                if j < before.len() {
                    assert(now[j] == before[j]);
                }
            }
        }
    }
}

/// What holds of every result of a search over one source, however many
/// candidates it scored before it was told to stop.
///
/// The result never exceeds the cap. Under the empty query it is the
/// first candidates in the order of enumeration, each with the minimum
/// score. Under any other query every match belongs to a candidate whose
/// text has the query as an ordered subsequence, scores above zero, and
/// ranks strictly above all that stand behind it: the scores descend, and
/// of two equal scores the candidate enumerated first stands first.
pub proof fn lemma_search_result(needle: Seq<char>, texts: Seq<Seq<char>>, cap: nat, k: int)
    requires
        0 <= k <= texts.len(),
    ensures
        search_result(needle, texts, cap, k).len() <= cap,
        search_result(needle, texts, cap, k).len() <= texts.len(),
        needle.len() == 0 ==> forall|i: int|
            0 <= i < search_result(needle, texts, cap, k).len() ==> #[trigger] search_result(
                needle,
                texts,
                cap,
                k,
            )[i] == browse_entry(0, i as nat),
        needle.len() == 0 && texts.len() <= cap ==> search_result(needle, texts, cap, k).len()
            == texts.len(),
        needle.len() == 0 && texts.len() > cap ==> search_result(needle, texts, cap, k).len()
            == cap,
        needle.len() > 0 ==> forall|i: int|
            0 <= i < search_result(needle, texts, cap, k).len() ==> {
                let m = #[trigger] search_result(needle, texts, cap, k)[i];
                &&& m.source == 0
                &&& m.candidate < k
                &&& is_subsequence(needle, texts[m.candidate as int])
                &&& m.score > 0
                &&& m.score == match_score(needle, texts[m.candidate as int])
                &&& is_leftmost_embedding(m.positions, needle, texts[m.candidate as int])
            },
        needle.len() > 0 ==> ranked(search_result(needle, texts, cap, k)),
        descending(search_result(needle, texts, cap, k)),
{
    let r = search_result(needle, texts, cap, k);
    if needle.len() > 0 {
        let all = scored(needle, texts, 0, k);
        lemma_scored(needle, texts, 0, k);
        lemma_top_matches_from_input(all, cap);
        lemma_rank_all_stable(all);
        lemma_rank_all_descending(all);
        assert forall|i: int| 0 <= i < r.len() implies {
            let m = #[trigger] r[i];
            &&& m.source == 0
            &&& m.candidate < k
            &&& is_subsequence(needle, texts[m.candidate as int])
            &&& m.score > 0
            &&& m.score == match_score(needle, texts[m.candidate as int])
            &&& is_leftmost_embedding(m.positions, needle, texts[m.candidate as int])
        } by {
            let m = r[i];
            assert(all.contains(m));
            let w = choose|w: int| 0 <= w < all.len() && all[w] == m;
            assert(all[w] == m);
            lemma_score_positive_iff_matches(needle, texts[m.candidate as int]);
            lemma_leftmost_exists(needle, texts[m.candidate as int]);
        }
        assert(ranked(r)) by {
            assert forall|i: int, j: int| 0 <= i < j < r.len() implies outranks(
                #[trigger] r[i],
                #[trigger] r[j],
            ) by {
                assert(r[i] == rank_all(all)[i] && r[j] == rank_all(all)[j]);
            }
        }
    }
}

/// A candidate that the query does not match is in no result, and where
/// the matches fit under the cap and the search ran to its end, every
/// candidate that the query matches is in the result.
pub proof fn lemma_search_result_complete(
    needle: Seq<char>,
    texts: Seq<Seq<char>>,
    cap: nat,
    k: int,
    c: int,
)
    requires
        0 <= k <= texts.len(),
        0 <= c < texts.len(),
        needle.len() > 0,
    ensures
        !is_subsequence(needle, texts[c]) ==> forall|i: int|
            0 <= i < search_result(needle, texts, cap, k).len() ==> (#[trigger] search_result(
                needle,
                texts,
                cap,
                k,
            )[i]).candidate != c,
        is_subsequence(needle, texts[c]) && c < k && scored(needle, texts, 0, k).len() <= cap
            ==> search_result(needle, texts, cap, k).contains(
            candidate_match(needle, texts[c], 0, c as nat),
        ),
{
    broadcast use vstd::seq_lib::group_to_multiset_ensures;

    let r = search_result(needle, texts, cap, k);
    let all = scored(needle, texts, 0, k);
    lemma_search_result(needle, texts, cap, k);
    lemma_scored(needle, texts, 0, k);
    if is_subsequence(needle, texts[c]) && c < k && all.len() <= cap {
        let m = candidate_match(needle, texts[c], 0, c as nat);
        lemma_rank_all_descending(all);
        lemma_rank_all_permutes(all);
        assert(all.contains(m));
        assert(all.to_multiset().count(m) > 0);
        assert(rank_all(all).to_multiset().count(m) > 0);
        assert(rank_all(all).contains(m));
        assert(r == rank_all(all));
    }
}

/// A search that stops early has scored a prefix of what a longer search
/// scores.
pub proof fn lemma_scored_prefix(
    needle: Seq<char>,
    texts: Seq<Seq<char>>,
    source: nat,
    k: int,
    n: int,
)
    requires
        0 <= k <= n <= texts.len(),
    ensures
        scored(needle, texts, source, k).is_prefix_of(scored(needle, texts, source, n)),
    decreases n - k,
{
    if k < n {
        lemma_scored_prefix(needle, texts, source, k, n - 1);
    }
}

/// A search that was told to stop returns nothing that the whole search
/// would not have weighed: its matches are the best of those among the
/// first `k` candidates, and each of them is a match of the search run
/// to its end.
pub proof fn lemma_stopped_search_is_consistent(
    needle: Seq<char>,
    texts: Seq<Seq<char>>,
    cap: nat,
    k: int,
)
    requires
        0 <= k <= texts.len(),
        needle.len() > 0,
    ensures
        search_result(needle, texts, cap, k) == top_matches(scored(needle, texts, 0, k), cap),
        scored(needle, texts, 0, k).is_prefix_of(scored(needle, texts, 0, texts.len() as int)),
        forall|i: int|
            0 <= i < search_result(needle, texts, cap, k).len() ==> scored(
                needle,
                texts,
                0,
                texts.len() as int,
            ).contains(#[trigger] search_result(needle, texts, cap, k)[i]),
{
    let part = scored(needle, texts, 0, k);
    let whole = scored(needle, texts, 0, texts.len() as int);
    let r = search_result(needle, texts, cap, k);
    lemma_scored_prefix(needle, texts, 0, k, texts.len() as int);
    lemma_top_matches_from_input(part, cap);
    assert forall|i: int| 0 <= i < r.len() implies whole.contains(#[trigger] r[i]) by {
        assert(part.contains(r[i]));
        let w = choose|w: int| 0 <= w < part.len() && part[w] == r[i];
        assert(whole[w] == r[i]);
    }
}

/// Scores the candidates of one source into `set`, looking at the token,
/// where there is one, before each candidate. Returns how many
/// candidates were scored.
pub(crate) fn score_source(
    needle: &Vec<char>,
    texts: &Vec<String>,
    source: usize,
    cancel: Option<&CancellationToken>,
    set: &mut MatchSet,
    Ghost(prior): Ghost<Seq<MatchView>>,
) -> (k: usize)
    requires
        needle@.len() > 0,
        old(set).wf(),
        old(set)@ == top_matches(prior, old(set).cap()),
    ensures
        final(set).wf(),
        final(set).cap() == old(set).cap(),
        k <= texts@.len(),
        cancel is None ==> k == texts@.len(),
        final(set)@ == top_matches(
            prior + scored(needle@, text_views(texts@), source as nat, k as int),
            old(set).cap(),
        ),
{
    let ghost cap = set.cap();
    let ghost tv = text_views(texts@);
    let mut k: usize = 0;
    assert(prior + scored(needle@, tv, source as nat, 0) =~= prior);
    while k < texts.len()
        invariant
            k <= texts@.len(),
            needle@.len() > 0,
            tv == text_views(texts@),
            cap == old(set).cap(),
            set.wf(),
            set.cap() == cap,
            set@ == top_matches(prior + scored(needle@, tv, source as nat, k as int), cap),
        decreases texts@.len() - k,
    {
        if let Some(token) = cancel {
            if token.is_raised() {
                return k;
            }
        }
        let text = chars_of(texts[k].as_str());
        assert(text@ == tv[k as int]);
        match match_text(needle, &text) {
            Some((score, positions)) => {
                let m = Match { source, candidate: k, score, positions };
                proof {
                    let so_far = prior + scored(needle@, tv, source as nat, k as int);
                    lemma_top_step(so_far, m@, cap);
                    assert(m@ == candidate_match(needle@, tv[k as int], source as nat, k as nat));
                    assert(so_far.push(m@) =~= prior + scored(
                        needle@,
                        tv,
                        source as nat,
                        k + 1,
                    ));
                }
                set.insert(m);
            },
            None => {},
        }
        k = k + 1;
    }
    k
}

/// Puts the first candidates of one source into `out` as the empty query
/// returns them, until the source ends or `out` holds `cap` entries.
pub(crate) fn browse_source(
    source: usize,
    count: usize,
    cap: usize,
    out: &mut Vec<Match>,
    Ghost(prior): Ghost<Seq<MatchView>>,
)
    requires
        views(old(out)@) == truncate(prior, cap as nat),
    ensures
        views(final(out)@) == truncate(prior + browsed(source as nat, count as int), cap as nat),
{
    let mut k: usize = 0;
    assert(prior + browsed(source as nat, 0) =~= prior);
    while k < count && out.len() < cap
        invariant
            k <= count,
            views(out@) == truncate(prior + browsed(source as nat, k as int), cap as nat),
        decreases count - k,
    {
        let ghost so_far = prior + browsed(source as nat, k as int);
        let ghost held = out@;
        let m = Match { source, candidate: k, score: 0, positions: Vec::new() };
        assert(m@ == browse_entry(source as nat, k as nat));
        out.push(m);
        assert(views(held) == so_far);
        assert(views(out@) =~= views(held).push(m@));
        assert(so_far.push(m@) =~= prior + browsed(source as nat, k + 1));
        k = k + 1;
    }
    assert(views(out@) =~= truncate(prior + browsed(source as nat, count as int), cap as nat)) by {
        let part = prior + browsed(source as nat, k as int);
        let whole = prior + browsed(source as nat, count as int);
        if k < count {
            assert(views(out@).len() == cap);
            assert(part.len() >= cap);
            assert(part.take(cap as int) =~= whole.take(cap as int));
        }
    }
}

/// Searches one source. Returns the matches and how many candidates were
/// scored: all of them, unless the token was seen raised.
pub(crate) fn search_until(
    query: &str,
    candidates: &Vec<String>,
    cap: usize,
    cancel: Option<&CancellationToken>,
) -> (r: (Vec<Match>, usize))
    ensures
        r.1 <= candidates@.len(),
        cancel is None ==> r.1 == candidates@.len(),
        views(r.0@) == search_result(query@, text_views(candidates@), cap as nat, r.1 as int),
{
    let needle = chars_of(query);
    if needle.len() == 0 {
        let mut out: Vec<Match> = Vec::new();
        assert(views(out@) =~= truncate(Seq::<MatchView>::empty(), cap as nat));
        browse_source(0, candidates.len(), cap, &mut out, Ghost(Seq::empty()));
        assert(Seq::<MatchView>::empty() + browsed(0, candidates@.len() as int) =~= browsed(
            0,
            candidates@.len() as int,
        ));
        return (out, candidates.len());
    }
    let mut set = MatchSet::new(cap);
    assert(set@ =~= top_matches(Seq::<MatchView>::empty(), cap as nat));
    let k = score_source(&needle, candidates, 0, cancel, &mut set, Ghost(Seq::empty()));
    assert(Seq::<MatchView>::empty() + scored(
        query@,
        text_views(candidates@),
        0,
        k as int,
    ) =~= scored(query@, text_views(candidates@), 0, k as int));
    (set.into_matches(), k)
}

/// Searches one source, looking at `cancel` before each candidate.
///
/// `cap` is the most matches that are returned. Any string is a valid
/// query, and there is no failure: where nothing matches, or there are no
/// candidates, the result is empty.
///
/// The result is `search_result` for the number of candidates that were
/// scored before the token was seen raised; `lemma_search_result` says
/// what that means, and the clauses below repeat it for the matches
/// returned.
pub fn search(query: &str, candidates: &Vec<String>, cap: usize, cancel: &CancellationToken) -> (found:
    Vec<Match>)
    ensures
        exists|k: int|
            0 <= k <= candidates@.len() && views(found@) == #[trigger] search_result(
                query@,
                text_views(candidates@),
                cap as nat,
                k,
            ),
        found@.len() <= cap,
        found@.len() <= candidates@.len(),
        forall|i: int|
            0 <= i < found@.len() ==> (#[trigger] found@[i]).source == 0 && found@[i].candidate
                < candidates@.len(),
        query@.len() == 0 ==> views(found@) == truncate(
            browsed(0, candidates@.len() as int),
            cap as nat,
        ),
        query@.len() > 0 ==> forall|i: int|
            0 <= i < found@.len() ==> {
                let m = #[trigger] found@[i];
                &&& is_subsequence(query@, candidates@[m.candidate as int]@)
                &&& m.score > 0
                &&& m.score == match_score(query@, candidates@[m.candidate as int]@)
                &&& is_leftmost_embedding(m.positions@, query@, candidates@[m.candidate as int]@)
            },
        query@.len() > 0 ==> ranked(views(found@)),
        descending(views(found@)),
{
    let (found, k) = search_until(query, candidates, cap, Some(cancel));
    proof {
        let tv = text_views(candidates@);
        lemma_search_result(query@, tv, cap as nat, k as int);
        assert forall|i: int| 0 <= i < found@.len() implies (#[trigger] found@[i]).source == 0
            && found@[i].candidate < candidates@.len() by {
            assert(views(found@)[i] == found@[i]@);
        }
        assert forall|i: int| 0 <= i < found@.len() && query@.len() > 0 implies {
            let m = #[trigger] found@[i];
            &&& is_subsequence(query@, candidates@[m.candidate as int]@)
            &&& m.score > 0
            &&& m.score == match_score(query@, candidates@[m.candidate as int]@)
            &&& is_leftmost_embedding(m.positions@, query@, candidates@[m.candidate as int]@)
        } by {
            assert(views(found@)[i] == found@[i]@);
        }
    }
    found
}

/// Searches one source to its end: `search` with a token that nobody
/// raises.
pub fn search_to_end(query: &str, candidates: &Vec<String>, cap: usize) -> (found: Vec<Match>)
    ensures
        views(found@) == search_result(
            query@,
            text_views(candidates@),
            cap as nat,
            candidates@.len() as int,
        ),
{
    let (found, k) = search_until(query, candidates, cap, None);
    found
}

} // verus!
