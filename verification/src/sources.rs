//! Searching several candidate sources at once.
//!
//! Every source is matched against the same query under the same token,
//! and the matches of all of them are ranked together before the cap
//! cuts: a source without matches neither blocks nor lowers the others.

use vstd::prelude::*;
use crate::cancel::CancellationToken;
use crate::rank::{Match, MatchSet, MatchView, descending, enumerated_before,
    in_enumeration_order, lemma_rank_all_descending, lemma_rank_all_stable,
    lemma_top_matches_from_input, outranks, rank_all, ranked, top_matches, truncate, views};
use crate::score::{lemma_score_positive_iff_matches, match_score,
    query_matches};
use crate::search::{browse_entry, browse_source, browsed, candidate_match, lemma_scored,
    score_source, scored, text_views};
use crate::text::{chars_of, is_leftmost_embedding, is_subsequence, lemma_leftmost_exists};

verus! {

/// The display texts of several sources.
pub open spec fn source_views(sources: Seq<Vec<String>>) -> Seq<Seq<Seq<char>>> {
    sources.map_values(|s: Vec<String>| text_views(s@))
}

/// The matches of the first `s` sources, source after source.
pub open spec fn scored_sources(needle: Seq<char>, sources: Seq<Seq<Seq<char>>>, s: int) -> Seq<
    MatchView,
>
    decreases s,
{
    if s <= 0 {
        Seq::empty()
    } else {
        scored_sources(needle, sources, s - 1) + scored(
            needle,
            sources[s - 1],
            (s - 1) as nat,
            sources[s - 1].len() as int,
        )
    }
}

/// The candidates of the first `s` sources as the empty query returns
/// them, source after source.
pub open spec fn browsed_sources(sources: Seq<Seq<Seq<char>>>, s: int) -> Seq<MatchView>
    decreases s,
{
    if s <= 0 {
        Seq::empty()
    } else {
        browsed_sources(sources, s - 1) + browsed((s - 1) as nat, sources[s - 1].len() as int)
    }
}

/// The matches that a search over several sources has before it when it
/// has scored the first `s` sources whole and `k` candidates of the next.
pub open spec fn scored_until(
    needle: Seq<char>,
    sources: Seq<Seq<Seq<char>>>,
    s: int,
    k: int,
) -> Seq<MatchView> {
    scored_sources(needle, sources, s) + scored(needle, sources[s], s as nat, k)
}

/// What a search over several sources returns when it has scored the
/// first `s` sources whole and `k` candidates of the next.
pub open spec fn sources_result(
    needle: Seq<char>,
    sources: Seq<Seq<Seq<char>>>,
    cap: nat,
    s: int,
    k: int,
) -> Seq<MatchView> {
    if needle.len() == 0 {
        truncate(browsed_sources(sources, sources.len() as int), cap)
    } else {
        top_matches(scored_until(needle, sources, s, k), cap)
    }
}

/// How far a search over several sources has come: `s` sources scored
/// whole and `k` candidates of the next; at the end, all sources and
/// nothing more.
pub open spec fn is_progress(sources: Seq<Seq<Seq<char>>>, s: int, k: int) -> bool {
    &&& 0 <= s <= sources.len()
    &&& if s < sources.len() {
        0 <= k <= sources[s].len()
    } else {
        k == 0
    }
}

/// A match that stands for a candidate of one of the sources which the
/// query matches, with that candidate's score and leftmost positions.
pub open spec fn is_match_of(m: MatchView, needle: Seq<char>, sources: Seq<Seq<Seq<char>>>) -> bool {
    &&& m.source < sources.len()
    &&& m.candidate < sources[m.source as int].len()
    &&& query_matches(needle, sources[m.source as int][m.candidate as int])
    &&& m == candidate_match(
        needle,
        sources[m.source as int][m.candidate as int],
        m.source,
        m.candidate,
    )
}

/// An entry that stands for a candidate of one of the sources under the
/// empty query.
pub open spec fn is_entry_of(m: MatchView, sources: Seq<Seq<Seq<char>>>) -> bool {
    &&& m.source < sources.len()
    &&& m.candidate < sources[m.source as int].len()
    &&& m == browse_entry(m.source, m.candidate)
}

/// The matches of the first `s` sources are matches of candidates of
/// those sources and stand in the order of enumeration.
pub proof fn lemma_scored_sources(needle: Seq<char>, sources: Seq<Seq<Seq<char>>>, s: int)
    requires
        0 <= s <= sources.len(),
    ensures
        forall|i: int|
            0 <= i < scored_sources(needle, sources, s).len() ==> {
                let m = #[trigger] scored_sources(needle, sources, s)[i];
                m.source < s && is_match_of(m, needle, sources)
            },
        in_enumeration_order(scored_sources(needle, sources, s)),
    decreases s,
{
    if s > 0 {
        lemma_scored_sources(needle, sources, s - 1);
        lemma_scored(needle, sources[s - 1], (s - 1) as nat, sources[s - 1].len() as int);
        let before = scored_sources(needle, sources, s - 1);
        let here = scored(needle, sources[s - 1], (s - 1) as nat, sources[s - 1].len() as int);
        let now = scored_sources(needle, sources, s);
        assert(now == before + here);
        assert forall|i: int| 0 <= i < now.len() implies {
            let m = #[trigger] now[i];
            m.source < s && is_match_of(m, needle, sources)
        } by {
            if i < before.len() {
                assert(now[i] == before[i]);
            } else {
                assert(now[i] == here[i - before.len()]);
            }
        }
        assert forall|i: int, j: int| 0 <= i < j < now.len() implies enumerated_before(
            #[trigger] now[i],
            #[trigger] now[j],
        ) by {
            if j < before.len() {
                assert(now[i] == before[i] && now[j] == before[j]);
            } else if i < before.len() {
                assert(now[i] == before[i] && now[j] == here[j - before.len()]);
            } else {
                assert(now[i] == here[i - before.len()] && now[j] == here[j - before.len()]);
            }
        }
    }
}

/// A source in which the query matches nothing adds nothing: the matches
/// of the sources before it are all that there are up to it, so it
/// neither blocks nor lowers a match of another source.
pub proof fn lemma_source_without_matches(
    needle: Seq<char>,
    sources: Seq<Seq<Seq<char>>>,
    s: int,
)
    requires
        0 <= s < sources.len(),
        forall|c: int| 0 <= c < sources[s].len() ==> !query_matches(needle, #[trigger] sources[s][c]),
    ensures
        scored(needle, sources[s], s as nat, sources[s].len() as int) == Seq::<MatchView>::empty(),
        scored_sources(needle, sources, s + 1) == scored_sources(needle, sources, s),
{
    lemma_nothing_scored(needle, sources[s], s as nat, sources[s].len() as int);
    assert(scored_sources(needle, sources, s + 1) =~= scored_sources(needle, sources, s));
}

/// Where the query matches none of the first `k` candidates, nothing is
/// scored among them.
pub proof fn lemma_nothing_scored(needle: Seq<char>, texts: Seq<Seq<char>>, source: nat, k: int)
    requires
        0 <= k <= texts.len(),
        forall|c: int| 0 <= c < k ==> !query_matches(needle, #[trigger] texts[c]),
    ensures
        scored(needle, texts, source, k) == Seq::<MatchView>::empty(),
    decreases k,
{
    if k > 0 {
        lemma_nothing_scored(needle, texts, source, k - 1);
    }
}

/// The entries of the first `s` sources under the empty query stand for
/// candidates of those sources, in the order of enumeration.
pub proof fn lemma_browsed_sources(sources: Seq<Seq<Seq<char>>>, s: int)
    requires
        0 <= s <= sources.len(),
    ensures
        forall|i: int|
            0 <= i < browsed_sources(sources, s).len() ==> {
                let m = #[trigger] browsed_sources(sources, s)[i];
                m.source < s && is_entry_of(m, sources)
            },
        in_enumeration_order(browsed_sources(sources, s)),
    decreases s,
{
    if s > 0 {
        lemma_browsed_sources(sources, s - 1);
        let before = browsed_sources(sources, s - 1);
        let here = browsed((s - 1) as nat, sources[s - 1].len() as int);
        let now = browsed_sources(sources, s);
        assert(now == before + here);
        assert forall|i: int| 0 <= i < now.len() implies {
            let m = #[trigger] now[i];
            m.source < s && is_entry_of(m, sources)
        } by {
            if i < before.len() {
                assert(now[i] == before[i]);
            } else {
                assert(now[i] == here[i - before.len()]);
            }
        }
        assert forall|i: int, j: int| 0 <= i < j < now.len() implies enumerated_before(
            #[trigger] now[i],
            #[trigger] now[j],
        ) by {
            if j < before.len() {
                assert(now[i] == before[i] && now[j] == before[j]);
            } else if i < before.len() {
                assert(now[i] == before[i] && now[j] == here[j - before.len()]);
            } else {
                assert(now[i] == here[i - before.len()] && now[j] == here[j - before.len()]);
            }
        }
    }
}

/// What holds of every result of a search over several sources, however
/// far it came before it was told to stop.
///
/// The result never exceeds the cap. Under the empty query it holds
/// entries of candidates, each with the minimum score, in the order of
/// enumeration. Under any other query every match stands for a candidate
/// whose text has the query as an ordered subsequence, scores above
/// zero, and ranks strictly above all that stand behind it.
pub proof fn lemma_sources_result(
    needle: Seq<char>,
    sources: Seq<Seq<Seq<char>>>,
    cap: nat,
    s: int,
    k: int,
)
    requires
        is_progress(sources, s, k),
    ensures
        sources_result(needle, sources, cap, s, k).len() <= cap,
        needle.len() == 0 ==> sources_result(needle, sources, cap, s, k) == truncate(
            browsed_sources(sources, sources.len() as int),
            cap,
        ),
        needle.len() == 0 ==> in_enumeration_order(sources_result(needle, sources, cap, s, k)),
        needle.len() == 0 ==> forall|i: int|
            0 <= i < sources_result(needle, sources, cap, s, k).len() ==> is_entry_of(
                #[trigger] sources_result(needle, sources, cap, s, k)[i],
                sources,
            ),
        needle.len() > 0 ==> forall|i: int|
            0 <= i < sources_result(needle, sources, cap, s, k).len() ==> {
                let m = #[trigger] sources_result(needle, sources, cap, s, k)[i];
                &&& is_match_of(m, needle, sources)
                &&& is_subsequence(needle, sources[m.source as int][m.candidate as int])
                &&& m.score > 0
                &&& is_leftmost_embedding(
                    m.positions,
                    needle,
                    sources[m.source as int][m.candidate as int],
                )
            },
        needle.len() > 0 ==> ranked(sources_result(needle, sources, cap, s, k)),
        descending(sources_result(needle, sources, cap, s, k)),
{
    let r = sources_result(needle, sources, cap, s, k);
    if needle.len() == 0 {
        let all = browsed_sources(sources, sources.len() as int);
        lemma_browsed_sources(sources, sources.len() as int);
        assert forall|i: int| 0 <= i < r.len() implies is_entry_of(#[trigger] r[i], sources) by {
            assert(r[i] == all[i]);
        }
        assert forall|i: int, j: int| 0 <= i < j < r.len() implies enumerated_before(
            #[trigger] r[i],
            #[trigger] r[j],
        ) by {
            assert(r[i] == all[i] && r[j] == all[j]);
        }
        assert forall|i: int, j: int| 0 <= i < j < r.len() implies (#[trigger] r[i]).score >= (
        #[trigger] r[j]).score by {
            assert(r[i] == all[i] && r[j] == all[j]);
        }
    } else {
        let whole = scored_sources(needle, sources, s);
        let part = scored(needle, sources[s], s as nat, k);
        let all = scored_until(needle, sources, s, k);
        lemma_scored_sources(needle, sources, s);
        if s < sources.len() {
            lemma_scored(needle, sources[s], s as nat, k);
        } else {
            assert(part =~= Seq::<MatchView>::empty());
        }
        assert forall|i: int| 0 <= i < all.len() implies is_match_of(
            #[trigger] all[i],
            needle,
            sources,
        ) by {
            if i < whole.len() {
                assert(all[i] == whole[i]);
            } else {
                assert(all[i] == part[i - whole.len()]);
            }
        }
        assert forall|i: int, j: int| 0 <= i < j < all.len() implies enumerated_before(
            #[trigger] all[i],
            #[trigger] all[j],
        ) by {
            if j < whole.len() {
                assert(all[i] == whole[i] && all[j] == whole[j]);
            } else if i < whole.len() {
                assert(all[i] == whole[i] && all[j] == part[j - whole.len()]);
            } else {
                assert(all[i] == part[i - whole.len()] && all[j] == part[j - whole.len()]);
            }
        }
        lemma_top_matches_from_input(all, cap);
        lemma_rank_all_stable(all);
        lemma_rank_all_descending(all);
        assert forall|i: int| 0 <= i < r.len() implies {
            let m = #[trigger] r[i];
            &&& is_match_of(m, needle, sources)
            &&& is_subsequence(needle, sources[m.source as int][m.candidate as int])
            &&& m.score > 0
            &&& is_leftmost_embedding(
                m.positions,
                needle,
                sources[m.source as int][m.candidate as int],
            )
        } by {
            let m = r[i];
            assert(all.contains(m));
            let w = choose|w: int| 0 <= w < all.len() && all[w] == m;
            assert(is_match_of(all[w], needle, sources));
            let text = sources[m.source as int][m.candidate as int];
            lemma_score_positive_iff_matches(needle, text);
            lemma_leftmost_exists(needle, text);
        }
        assert forall|i: int, j: int| 0 <= i < j < r.len() implies outranks(
            #[trigger] r[i],
            #[trigger] r[j],
        ) by {
            assert(r[i] == rank_all(all)[i] && r[j] == rank_all(all)[j]);
        }
    }
}

/// Searches the sources one after the other. Returns the matches and how
/// far the search came: the number of sources scored whole and of
/// candidates scored in the next.
pub(crate) fn search_sources_until(
    query: &str,
    sources: &Vec<Vec<String>>,
    cap: usize,
    cancel: Option<&CancellationToken>,
) -> (r: (Vec<Match>, usize, usize))
    ensures
        is_progress(source_views(sources@), r.1 as int, r.2 as int),
        cancel is None ==> r.1 == sources@.len(),
        views(r.0@) == sources_result(
            query@,
            source_views(sources@),
            cap as nat,
            r.1 as int,
            r.2 as int,
        ),
{
    let needle = chars_of(query);
    let ghost sv = source_views(sources@);
    if needle.len() == 0 {
        let mut out: Vec<Match> = Vec::new();
        assert(views(out@) =~= truncate(Seq::<MatchView>::empty(), cap as nat));
        let mut s: usize = 0;
        while s < sources.len()
            invariant
                s <= sources@.len(),
                sv == source_views(sources@),
                views(out@) == truncate(browsed_sources(sv, s as int), cap as nat),
            decreases sources@.len() - s,
        {
            assert(sv[s as int].len() == sources@[s as int]@.len());
            browse_source(
                s,
                sources[s].len(),
                cap,
                &mut out,
                Ghost(browsed_sources(sv, s as int)),
            );
            s = s + 1;
        }
        return (out, s, 0);
    }
    let mut set = MatchSet::new(cap);
    assert(set@ =~= top_matches(Seq::<MatchView>::empty(), cap as nat));
    let mut s: usize = 0;
    while s < sources.len()
        invariant
            s <= sources@.len(),
            needle@ == query@,
            needle@.len() > 0,
            sv == source_views(sources@),
            set.wf(),
            set.cap() == cap,
            set@ == top_matches(scored_sources(needle@, sv, s as int), cap as nat),
        decreases sources@.len() - s,
    {
        assert(sv[s as int] == text_views(sources@[s as int]@));
        let k = score_source(
            &needle,
            &sources[s],
            s,
            cancel,
            &mut set,
            Ghost(scored_sources(needle@, sv, s as int)),
        );
        if k < sources[s].len() {
            return (set.into_matches(), s, k);
        }
        s = s + 1;
    }
    assert(scored_until(query@, sv, s as int, 0) =~= scored_sources(query@, sv, s as int));
    (set.into_matches(), s, 0)
}

/// Searches several sources, looking at `cancel` before each candidate.
///
/// A match names its source by the source's index in `sources`. The
/// result is `sources_result` for the point that the search had reached
/// when it saw the token raised, or for the end; `lemma_sources_result`
/// says what that means, and the clauses below repeat it for the matches
/// returned.
pub fn search_sources(
    query: &str,
    sources: &Vec<Vec<String>>,
    cap: usize,
    cancel: &CancellationToken,
) -> (found: Vec<Match>)
    ensures
        exists|s: int, k: int|
            is_progress(source_views(sources@), s, k) && views(found@) == #[trigger] sources_result(
                query@,
                source_views(sources@),
                cap as nat,
                s,
                k,
            ),
        found@.len() <= cap,
        forall|i: int|
            0 <= i < found@.len() ==> (#[trigger] found@[i]).source < sources@.len()
                && found@[i].candidate < sources@[found@[i].source as int]@.len(),
        query@.len() == 0 ==> views(found@) == truncate(
            browsed_sources(source_views(sources@), sources@.len() as int),
            cap as nat,
        ),
        query@.len() > 0 ==> forall|i: int|
            0 <= i < found@.len() ==> {
                let m = #[trigger] found@[i];
                &&& m.source < sources@.len()
                &&& m.candidate < sources@[m.source as int]@.len()
                &&& is_subsequence(query@, sources@[m.source as int]@[m.candidate as int]@)
                &&& m.score > 0
                &&& m.score == match_score(
                    query@,
                    sources@[m.source as int]@[m.candidate as int]@,
                )
                &&& is_leftmost_embedding(
                    m.positions@,
                    query@,
                    sources@[m.source as int]@[m.candidate as int]@,
                )
            },
        query@.len() > 0 ==> ranked(views(found@)),
        descending(views(found@)),
{
    let (found, s, k) = search_sources_until(query, sources, cap, Some(cancel));
    proof {
        let sv = source_views(sources@);
        lemma_sources_result(query@, sv, cap as nat, s as int, k as int);
        assert forall|i: int| 0 <= i < found@.len() implies (#[trigger] found@[i]).source
            < sources@.len() && found@[i].candidate < sources@[found@[i].source as int]@.len() by {
            let m = found@[i];
            assert(views(found@)[i] == m@);
            if query@.len() == 0 {
                assert(is_entry_of(m@, sv));
            } else {
                assert(is_match_of(m@, query@, sv));
            }
            assert(sv[m.source as int] == text_views(sources@[m.source as int]@));
        }
        assert forall|i: int| 0 <= i < found@.len() && query@.len() > 0 implies {
            let m = #[trigger] found@[i];
            &&& m.source < sources@.len()
            &&& m.candidate < sources@[m.source as int]@.len()
            &&& is_subsequence(query@, sources@[m.source as int]@[m.candidate as int]@)
            &&& m.score > 0
            &&& m.score == match_score(query@, sources@[m.source as int]@[m.candidate as int]@)
            &&& is_leftmost_embedding(
                m.positions@,
                query@,
                sources@[m.source as int]@[m.candidate as int]@,
            )
        } by {
            let m = found@[i];
            assert(views(found@)[i] == m@);
            assert(is_match_of(m@, query@, sv));
            assert(sv[m.source as int] == text_views(sources@[m.source as int]@));
            assert(sv[m.source as int][m.candidate as int]
                == sources@[m.source as int]@[m.candidate as int]@);
            lemma_score_positive_iff_matches(
                query@,
                sources@[m.source as int]@[m.candidate as int]@,
            );
        }
    }
    found
}

/// Searches several sources to the end: `search_sources` with a token
/// that nobody raises.
pub fn search_sources_to_end(query: &str, sources: &Vec<Vec<String>>, cap: usize) -> (found: Vec<
    Match,
>)
    ensures
        views(found@) == sources_result(
            query@,
            source_views(sources@),
            cap as nat,
            sources@.len() as int,
            0,
        ),
{
    let (found, s, k) = search_sources_until(query, sources, cap, None);
    found
}

} // verus!
