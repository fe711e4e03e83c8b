//! Matches and their ranking: descending by score, equal scores in the
//! order in which the candidates were enumerated, cut off at a cap.

use vstd::prelude::*;

verus! {

/// One candidate that the query matched.
#[derive(Debug)]
pub struct Match {
    /// Which candidate source the candidate came from.
    pub source: usize,
    /// The candidate's place in the enumeration of its source.
    pub candidate: usize,
    /// The relevance score; higher is better.
    pub score: u64,
    /// The positions in the display text that the query's characters
    /// matched, counted in characters, for highlighting.
    pub positions: Vec<usize>,
}

/// The mathematical value of a `Match`.
pub struct MatchView {
    pub source: nat,
    pub candidate: nat,
    pub score: nat,
    pub positions: Seq<usize>,
}

impl View for Match {
    type V = MatchView;

    open spec fn view(&self) -> MatchView {
        MatchView {
            source: self.source as nat,
            candidate: self.candidate as nat,
            score: self.score as nat,
            positions: self.positions@,
        }
    }
}

impl Clone for Match {
    fn clone(&self) -> (r: Self)
        ensures
            r@ == self@,
    {
        let mut positions: Vec<usize> = Vec::new();
        let mut i: usize = 0;
        while i < self.positions.len()
            invariant
                i <= self.positions@.len(),
                positions@ == self.positions@.take(i as int),
            decreases self.positions@.len() - i,
        {
            positions.push(self.positions[i]);
            i = i + 1;
        }
        assert(positions@ =~= self.positions@);
        Match { source: self.source, candidate: self.candidate, score: self.score, positions }
    }
}

/// The values of a sequence of matches.
pub open spec fn views(ms: Seq<Match>) -> Seq<MatchView> {
    ms.map_values(|m: Match| m@)
}

/// `a` was enumerated before `b`: it comes from an earlier source, or
/// from the same source at an earlier place.
pub open spec fn enumerated_before(a: MatchView, b: MatchView) -> bool {
    a.source < b.source || (a.source == b.source && a.candidate < b.candidate)
}

/// `a` ranks strictly above `b`: it scores higher, or scores the same and
/// was enumerated first.
pub open spec fn outranks(a: MatchView, b: MatchView) -> bool {
    a.score > b.score || (a.score == b.score && enumerated_before(a, b))
}

/// The matches stand in the order of enumeration.
pub open spec fn in_enumeration_order(ms: Seq<MatchView>) -> bool {
    forall|i: int, j: int| 0 <= i < j < ms.len() ==> enumerated_before(#[trigger] ms[i], #[trigger] ms[j])
}

/// No match scores higher than one that stands before it.
pub open spec fn descending(s: Seq<MatchView>) -> bool {
    forall|i: int, j: int| 0 <= i < j < s.len() ==> (#[trigger] s[i]).score >= (#[trigger] s[j]).score
}

/// Every match ranks strictly above all that stand behind it.
pub open spec fn ranked(s: Seq<MatchView>) -> bool {
    forall|i: int, j: int| 0 <= i < j < s.len() ==> outranks(#[trigger] s[i], #[trigger] s[j])
}

/// Where a new match with the given score goes: directly behind the last
/// match that scores at least as high.
pub open spec fn rank_index(s: Seq<MatchView>, score: nat) -> int
    decreases s.len(),
{
    if s.len() == 0 {
        0
    } else if s.last().score >= score {
        s.len() as int
    } else {
        rank_index(s.drop_last(), score)
    }
}

/// `s` with `m` put in at its rank.
pub open spec fn insert_ranked(s: Seq<MatchView>, m: MatchView) -> Seq<MatchView> {
    s.insert(rank_index(s, m.score), m)
}

/// The matches sorted by descending score, equal scores staying in the
/// order in which they stand in `ms`.
pub open spec fn rank_all(ms: Seq<MatchView>) -> Seq<MatchView>
    decreases ms.len(),
{
    if ms.len() == 0 {
        Seq::empty()
    } else {
        insert_ranked(rank_all(ms.drop_last()), ms.last())
    }
}

/// The first `cap` elements of `s`, or all of `s` where it has fewer.
pub open spec fn truncate(s: Seq<MatchView>, cap: nat) -> Seq<MatchView> {
    if s.len() > cap {
        s.take(cap as int)
    } else {
        s
    }
}

/// The `cap` best of `ms`, best first.
pub open spec fn top_matches(ms: Seq<MatchView>, cap: nat) -> Seq<MatchView> {
    truncate(rank_all(ms), cap)
}

/// What `rank_index` finds: everything from it on scores lower, and the
/// match just before it does not.
pub proof fn lemma_rank_index(s: Seq<MatchView>, score: nat)
    ensures
        0 <= rank_index(s, score) <= s.len(),
        rank_index(s, score) > 0 ==> s[rank_index(s, score) - 1].score >= score,
        forall|k: int| rank_index(s, score) <= k < s.len() ==> (#[trigger] s[k]).score < score,
    decreases s.len(),
{
    if s.len() > 0 && s.last().score < score {
        lemma_rank_index(s.drop_last(), score);
        let idx = rank_index(s.drop_last(), score);
        assert forall|k: int| idx <= k < s.len() implies (#[trigger] s[k]).score < score by {
            if k < s.len() - 1 {
                assert(s.drop_last()[k] == s[k]);
            }
        }
        if idx > 0 {
            assert(s.drop_last()[idx - 1] == s[idx - 1]);
        }
    }
}

/// An index with the two properties of `lemma_rank_index` is the rank.
pub proof fn lemma_rank_index_is(s: Seq<MatchView>, score: nat, idx: int)
    requires
        0 <= idx <= s.len(),
        idx > 0 ==> s[idx - 1].score >= score,
        forall|k: int| idx <= k < s.len() ==> (#[trigger] s[k]).score < score,
    ensures
        rank_index(s, score) == idx,
{
    lemma_rank_index(s, score);
    let r = rank_index(s, score);
    if r < idx {
        assert(s[idx - 1].score < score);
    } else if idx < r {
        assert(s[r - 1].score < score);
    }
}

/// In a descending sequence everything before the rank scores at least
/// as high as the new match.
pub proof fn lemma_rank_index_descending(s: Seq<MatchView>, score: nat)
    requires
        descending(s),
    ensures
        forall|k: int| 0 <= k < rank_index(s, score) ==> (#[trigger] s[k]).score >= score,
{
    lemma_rank_index(s, score);
    let r = rank_index(s, score);
    assert forall|k: int| 0 <= k < r implies (#[trigger] s[k]).score >= score by {
        if k < r - 1 {
            assert(s[k].score >= s[r - 1].score);
        }
    }
}

/// Putting a match in at its rank keeps a descending sequence descending.
pub proof fn lemma_insert_descending(s: Seq<MatchView>, m: MatchView)
    requires
        descending(s),
    ensures
        descending(insert_ranked(s, m)),
        insert_ranked(s, m).len() == s.len() + 1,
{
    lemma_rank_index(s, m.score);
    lemma_rank_index_descending(s, m.score);
    let r = rank_index(s, m.score);
    let t = insert_ranked(s, m);
    assert forall|i: int, j: int| 0 <= i < j < t.len() implies (#[trigger] t[i]).score >= (
    #[trigger] t[j]).score by {
        if j < r {
            assert(t[i] == s[i] && t[j] == s[j]);
        } else if j == r {
            assert(t[i] == s[i]);
        } else if i < r {
            assert(t[i] == s[i] && t[j] == s[j - 1]);
        } else if i == r {
            assert(t[j] == s[j - 1]);
        } else {
            assert(t[i] == s[i - 1] && t[j] == s[j - 1]);
        }
    }
}

/// Ranking keeps every match, and the result is descending by score.
pub proof fn lemma_rank_all_descending(ms: Seq<MatchView>)
    ensures
        descending(rank_all(ms)),
        rank_all(ms).len() == ms.len(),
    decreases ms.len(),
{
    if ms.len() > 0 {
        lemma_rank_all_descending(ms.drop_last());
        lemma_insert_descending(rank_all(ms.drop_last()), ms.last());
    }
}

/// Ranking rearranges: the result holds each match as often as `ms` does.
pub proof fn lemma_rank_all_permutes(ms: Seq<MatchView>)
    ensures
        rank_all(ms).to_multiset() == ms.to_multiset(),
    decreases ms.len(),
{
    broadcast use vstd::seq_lib::group_to_multiset_ensures;

    if ms.len() > 0 {
        let rest = ms.drop_last();
        lemma_rank_all_permutes(rest);
        lemma_rank_index(rank_all(rest), ms.last().score);
        let r = rank_index(rank_all(rest), ms.last().score);
        vstd::seq_lib::to_multiset_insert(rank_all(rest), r, ms.last());
        assert(ms == rest.push(ms.last()));
    } else {
        assert(rank_all(ms) == ms);
    }
}

/// Every ranked match is one of the matches that went in.
pub proof fn lemma_top_matches_from_input(ms: Seq<MatchView>, cap: nat)
    ensures
        top_matches(ms, cap).len() <= cap,
        top_matches(ms, cap).len() <= ms.len(),
        ms.len() <= cap ==> top_matches(ms, cap).len() == ms.len(),
        forall|i: int| 0 <= i < top_matches(ms, cap).len() ==> ms.contains(#[trigger] top_matches(ms, cap)[i]),
{
    broadcast use vstd::seq_lib::group_to_multiset_ensures;

    lemma_rank_all_descending(ms);
    lemma_rank_all_permutes(ms);
    let all = rank_all(ms);
    let top = top_matches(ms, cap);
    assert forall|i: int| 0 <= i < top.len() implies ms.contains(#[trigger] top[i]) by {
        assert(top[i] == all[i]);
        assert(all.contains(all[i]));
        assert(all.to_multiset().count(all[i]) > 0);
        assert(ms.to_multiset().count(all[i]) > 0);
    }
}

/// Ranking is stable: matches that went in in the order of enumeration
/// come out with every match strictly above those behind it, that is,
/// by descending score and, among equal scores, in the order of
/// enumeration.
pub proof fn lemma_rank_all_stable(ms: Seq<MatchView>)
    requires
        in_enumeration_order(ms),
    ensures
        ranked(rank_all(ms)),
    decreases ms.len(),
{
    broadcast use vstd::seq_lib::group_to_multiset_ensures;

    if ms.len() > 0 {
        let rest = ms.drop_last();
        let m = ms.last();
        assert(in_enumeration_order(rest)) by {
            assert forall|i: int, j: int| 0 <= i < j < rest.len() implies enumerated_before(
                #[trigger] rest[i],
                #[trigger] rest[j],
            ) by {
                assert(rest[i] == ms[i] && rest[j] == ms[j]);
            }
        }
        lemma_rank_all_stable(rest);
        lemma_rank_all_descending(rest);
        lemma_rank_all_permutes(rest);
        let s = rank_all(rest);
        lemma_rank_index(s, m.score);
        lemma_rank_index_descending(s, m.score);
        let r = rank_index(s, m.score);
        let t = insert_ranked(s, m);
        assert forall|k: int| 0 <= k < s.len() implies enumerated_before(#[trigger] s[k], m) by {
            assert(s.contains(s[k]));
            assert(s.to_multiset().count(s[k]) > 0);
            assert(rest.to_multiset().count(s[k]) > 0);
            assert(rest.contains(s[k]));
            let w = choose|w: int| 0 <= w < rest.len() && rest[w] == s[k];
            assert(rest[w] == ms[w]);
            assert(enumerated_before(ms[w], ms[ms.len() - 1]));
        }
        assert forall|i: int, j: int| 0 <= i < j < t.len() implies outranks(
            #[trigger] t[i],
            #[trigger] t[j],
        ) by {
            if j < r {
                assert(t[i] == s[i] && t[j] == s[j]);
            } else if j == r {
                assert(t[i] == s[i]);
            } else if i < r {
                assert(t[i] == s[i] && t[j] == s[j - 1]);
            } else if i == r {
                assert(t[j] == s[j - 1]);
            } else {
                assert(t[i] == s[i - 1] && t[j] == s[j - 1]);
            }
        }
    }
}

/// What lies beyond the cap never matters: putting a match into the
/// truncated sequence and truncating gives what putting it into the whole
/// sequence and truncating gives.
pub proof fn lemma_truncate_insert(s: Seq<MatchView>, m: MatchView, cap: nat)
    requires
        descending(s),
    ensures
        truncate(insert_ranked(truncate(s, cap), m), cap) == truncate(insert_ranked(s, m), cap),
{
    if s.len() > cap {
        let t = s.take(cap as int);
        lemma_rank_index(s, m.score);
        lemma_rank_index_descending(s, m.score);
        let p = rank_index(s, m.score);
        if p < cap {
            lemma_rank_index_is(t, m.score, p);
            assert(t.insert(p, m).take(cap as int) =~= s.insert(p, m).take(cap as int));
        } else {
            lemma_rank_index_is(t, m.score, cap as int);
            assert(t.insert(cap as int, m).take(cap as int) =~= t);
            assert(s.insert(p, m).take(cap as int) =~= t);
        }
    }
}

/// A Match Set: at most `cap` matches, kept in rank order as they are put
/// in.
pub struct MatchSet {
    items: Vec<Match>,
    cap: usize,
}

impl MatchSet {
    /// The matches, best first.
    pub closed spec fn view(&self) -> Seq<MatchView> {
        views(self.items@)
    }

    /// The most matches that the set keeps.
    pub closed spec fn cap(&self) -> nat {
        self.cap as nat
    }

    /// The set holds no more than its cap.
    pub closed spec fn wf(&self) -> bool {
        self.items@.len() <= self.cap
    }

    /// An empty set that will keep at most `cap` matches.
    pub fn new(cap: usize) -> (set: Self)
        ensures
            set.wf(),
            set@ == Seq::<MatchView>::empty(),
            set.cap() == cap,
    {
        let set = MatchSet { items: Vec::new(), cap };
        assert(set@ =~= Seq::<MatchView>::empty());
        set
    }

    /// How many matches the set holds.
    pub fn len(&self) -> (n: usize)
        ensures
            n == self@.len(),
    {
        self.items.len()
    }

    /// Puts `m` in at its rank; where the set is then over its cap, the
    /// last match leaves.
    pub fn insert(&mut self, m: Match)
        requires
            old(self).wf(),
        ensures
            final(self).wf(),
            final(self).cap() == old(self).cap(),
            final(self)@ == truncate(insert_ranked(old(self)@, m@), old(self).cap()),
    {
        let ghost before = self@;
        let mut p: usize = self.items.len();
        while p > 0 && self.items[p - 1].score < m.score
            invariant
                p <= self.items@.len(),
                self@ == before,
                forall|k: int| p <= k < before.len() ==> (#[trigger] before[k]).score < m@.score,
            decreases p,
        {
            p = p - 1;
        }
        proof {
            lemma_rank_index_is(before, m@.score, p as int);
        }
        if p >= self.cap {
            assert(before.insert(p as int, m@).take(self.cap as int) =~= before);
            return ;
        }
        if self.items.len() == self.cap {
            self.items.pop();
        }
        let ghost kept = self.items@;
        self.items.insert(p, m);
        proof {
            assert(self.items@ == kept.insert(p as int, m));
            assert(self@ =~= truncate(before.insert(p as int, m@), self.cap as nat));
        }
    }

    /// The matches of the set, best first.
    pub fn into_matches(self) -> (ms: Vec<Match>)
        ensures
            views(ms@) == self@,
    {
        self.items
    }
}

/// Sorts `ms` by descending score, equal scores staying in their order,
/// and keeps the first `cap`.
pub fn rank_matches(ms: Vec<Match>, cap: usize) -> (ranked: Vec<Match>)
    ensures
        views(ranked@) == top_matches(views(ms@), cap as nat),
{
    let mut set = MatchSet::new(cap);
    let mut i: usize = 0;
    while i < ms.len()
        invariant
            i <= ms@.len(),
            set.wf(),
            set.cap() == cap,
            set@ == top_matches(views(ms@).take(i as int), cap as nat),
        decreases ms@.len() - i,
    {
        proof {
            lemma_top_step(views(ms@).take(i as int), ms@[i as int]@, cap as nat);
            assert(views(ms@).take(i as int).push(ms@[i as int]@) =~= views(ms@).take(i + 1));
        }
        set.insert(ms[i].clone());
        i = i + 1;
    }
    assert(views(ms@).take(ms@.len() as int) =~= views(ms@));
    set.into_matches()
}

/// One more match: the best of `ms` with `m` behind it are the best of
/// `ms` with `m` put in, cut at the cap.
pub proof fn lemma_top_step(ms: Seq<MatchView>, m: MatchView, cap: nat)
    ensures
        top_matches(ms.push(m), cap) == truncate(insert_ranked(top_matches(ms, cap), m), cap),
{
    lemma_rank_all_descending(ms);
    lemma_truncate_insert(rank_all(ms), m, cap);
    assert(ms.push(m).drop_last() =~= ms);
}

} // verus!
