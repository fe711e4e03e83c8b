//! The relevance score of a matched candidate.
//!
//! A score is a whole number, higher is better. Every matched character
//! earns points, more where it directly follows the previous matched
//! character and where it starts a word; characters of the text that the
//! query leaves unmatched cost a little, so that of two texts matched
//! equally well the shorter one wins.

use vstd::prelude::*;
use crate::text::{find_positions, is_embedding, is_leftmost_embedding, is_subsequence,
    leftmost_embedding, lemma_embedding_fits, lemma_leftmost_exists, lemma_leftmost_unique};

verus! {

/// Points for each matched character.
pub const MATCH_POINTS: u64 = 16;

/// Extra points for a matched character that directly follows the
/// previous matched character.
pub const ADJACENT_BONUS: u64 = 8;

/// Extra points for a matched character that starts the text or follows a
/// separator.
pub const BOUNDARY_BONUS: u64 = 8;

/// The most that unmatched characters can cost. It is less than
/// `MATCH_POINTS`, so a match always scores above zero.
pub const MAX_LENGTH_PENALTY: u64 = 15;

/// Characters after which a new word starts.
pub open spec fn is_separator(c: char) -> bool {
    c == '/' || c == '\\' || c == '_' || c == '-' || c == '.' || c == ' '
}

/// Position `p` of `text` starts a word.
pub open spec fn at_boundary(text: Seq<char>, p: int) -> bool {
    p == 0 || is_separator(text[p - 1])
}

/// The points earned by the `i`-th matched character.
pub open spec fn weight_at(text: Seq<char>, pos: Seq<usize>, i: int) -> int {
    MATCH_POINTS + (if i > 0 && pos[i] == pos[i - 1] + 1 {
        ADJACENT_BONUS as int
    } else {
        0
    }) + (if at_boundary(text, pos[i] as int) {
        BOUNDARY_BONUS as int
    } else {
        0
    })
}

/// The points earned by the first `n` matched characters together.
pub open spec fn quality(text: Seq<char>, pos: Seq<usize>, n: int) -> int
    decreases n,
{
    if n <= 0 {
        0
    } else {
        quality(text, pos, n - 1) + weight_at(text, pos, n - 1)
    }
}

/// What the unmatched characters of the text cost.
pub open spec fn length_penalty(text_len: int, matched: int) -> int {
    if text_len - matched < MAX_LENGTH_PENALTY {
        text_len - matched
    } else {
        MAX_LENGTH_PENALTY as int
    }
}

/// The score of a text matched at the positions `pos`: the points earned,
/// saturating at `u64::MAX`, less the length penalty. Where nothing is
/// matched the score is zero.
pub open spec fn score_of(text: Seq<char>, pos: Seq<usize>) -> int {
    let earned = quality(text, pos, pos.len() as int);
    if pos.len() == 0 {
        0
    } else {
        (if earned < u64::MAX { earned } else { u64::MAX as int }) - length_penalty(
            text.len() as int,
            pos.len() as int,
        )
    }
}

/// A query matches a text when it is not empty and is a subsequence of it.
pub open spec fn query_matches(needle: Seq<char>, text: Seq<char>) -> bool {
    needle.len() > 0 && is_subsequence(needle, text)
}

/// The score of `text` for the query `needle`: zero where the query does
/// not match, else the score of the leftmost embedding.
pub open spec fn match_score(needle: Seq<char>, text: Seq<char>) -> int {
    if query_matches(needle, text) {
        score_of(text, leftmost_embedding(needle, text))
    } else {
        0
    }
}

/// Each matched character earns at least `MATCH_POINTS` and at most all
/// three rewards together.
pub proof fn lemma_quality_bounds(text: Seq<char>, pos: Seq<usize>, n: int)
    requires
        0 <= n,
    ensures
        n * MATCH_POINTS <= quality(text, pos, n),
        quality(text, pos, n) <= n * (MATCH_POINTS + ADJACENT_BONUS + BOUNDARY_BONUS),
    decreases n,
{
    if n > 0 {
        lemma_quality_bounds(text, pos, n - 1);
    }
}

/// A query scores above zero on exactly the texts that it matches.
pub proof fn lemma_score_positive_iff_matches(needle: Seq<char>, text: Seq<char>)
    ensures
        0 <= match_score(needle, text) <= u64::MAX,
        match_score(needle, text) > 0 <==> query_matches(needle, text),
{
    if query_matches(needle, text) {
        let pos = leftmost_embedding(needle, text);
        lemma_leftmost_exists(needle, text);
        lemma_quality_bounds(text, pos, pos.len() as int);
        lemma_embedding_fits(pos, needle, text);
    }
}

/// The positions of a query that the text starts with: one after the
/// other from the first character on.
pub open spec fn prefix_positions(n: nat) -> Seq<usize> {
    Seq::new(n, |i: int| i as usize)
}

/// A query that the text starts with is matched at the text's first
/// characters.
pub proof fn lemma_prefix_is_leftmost(needle: Seq<char>, text: Seq<char>)
    requires
        needle.is_prefix_of(text),
        text.len() <= usize::MAX,
    ensures
        is_leftmost_embedding(prefix_positions(needle.len()), needle, text),
        is_subsequence(needle, text),
        leftmost_embedding(needle, text) == prefix_positions(needle.len()),
{
    let pos = prefix_positions(needle.len());
    assert(is_embedding(pos, needle, text)) by {
        assert forall|i: int| 0 <= i < pos.len() implies (#[trigger] pos[i]) < text.len()
            && text[pos[i] as int] == needle[i] by {
            assert(text.subrange(0, needle.len() as int)[i] == needle[i]);
        }
    }
    assert forall|other: Seq<usize>, i: int|
        is_embedding(other, needle, text) && 0 <= i < pos.len() implies pos[i]
        <= #[trigger] other[i] by {
        lemma_embedding_fits(other, needle, text);
    }
    lemma_leftmost_exists(needle, text);
    lemma_leftmost_unique(pos, leftmost_embedding(needle, text), needle, text);
}

/// No placing of a query earns more than the placing at the start of a
/// text that begins with the query.
pub proof fn lemma_prefix_quality_is_highest(
    needle: Seq<char>,
    text: Seq<char>,
    other_text: Seq<char>,
    other: Seq<usize>,
    n: int,
)
    requires
        needle.is_prefix_of(text),
        text.len() <= usize::MAX,
        is_embedding(other, needle, other_text),
        0 <= n <= needle.len(),
    ensures
        quality(other_text, other, n) <= quality(text, prefix_positions(needle.len()), n),
    decreases n,
{
    if n > 0 {
        lemma_prefix_quality_is_highest(needle, text, other_text, other, n - 1);
        let pos = prefix_positions(needle.len());
        let i = n - 1;
        assert(weight_at(other_text, other, i) <= weight_at(text, pos, i)) by {
            if i > 0 {
                assert(pos[i] == pos[i - 1] + 1);
                assert(text.subrange(0, needle.len() as int)[i - 1] == needle[i - 1]);
                if other[i] == other[i - 1] + 1 {
                    assert(other_text[other[i] - 1] == needle[i - 1]);
                }
            }
        }
    }
}

/// A text that begins with the query scores at least as high as any text
/// that is no shorter, however the query lies in it.
pub proof fn lemma_prefix_match_scores_highest(
    needle: Seq<char>,
    text: Seq<char>,
    other_text: Seq<char>,
)
    requires
        needle.len() > 0,
        needle.is_prefix_of(text),
        text.len() <= other_text.len() <= usize::MAX,
    ensures
        match_score(needle, text) >= match_score(needle, other_text),
        match_score(needle, text) > 0,
{
    lemma_prefix_is_leftmost(needle, text);
    lemma_score_positive_iff_matches(needle, text);
    if query_matches(needle, other_text) {
        lemma_leftmost_exists(needle, other_text);
        let other = leftmost_embedding(needle, other_text);
        lemma_prefix_quality_is_highest(needle, text, other_text, other, needle.len() as int);
    }
}

/// Whether `c` is a separator.
pub fn separator(c: char) -> (b: bool)
    ensures
        b == is_separator(c),
{
    c == '/' || c == '\\' || c == '_' || c == '-' || c == '.' || c == ' '
}

/// Scores a text matched at `pos`.
pub fn score_positions(text: &Vec<char>, pos: &Vec<usize>) -> (score: u64)
    requires
        pos@.len() <= text@.len(),
        forall|i: int| 0 <= i < pos@.len() ==> (#[trigger] pos@[i]) < text@.len(),
    ensures
        score == score_of(text@, pos@),
        pos@.len() > 0 ==> score > 0,
{
    if pos.len() == 0 {
        return 0;
    }
    let mut earned: u64 = 0;
    let mut i: usize = 0;
    while i < pos.len()
        invariant
            i <= pos@.len(),
            forall|k: int| 0 <= k < pos@.len() ==> (#[trigger] pos@[k]) < text@.len(),
            quality(text@, pos@, i as int) < u64::MAX ==> earned == quality(text@, pos@, i as int),
            quality(text@, pos@, i as int) >= u64::MAX ==> earned == u64::MAX,
        decreases pos@.len() - i,
    {
        let p: usize = pos[i];
        let mut weight: u64 = MATCH_POINTS;
        if i > 0 && pos[i - 1] < p && p - pos[i - 1] == 1 {
            weight = weight + ADJACENT_BONUS;
        }
        if p == 0 || separator(text[p - 1]) {
            weight = weight + BOUNDARY_BONUS;
        }
        assert(weight == weight_at(text@, pos@, i as int));
        proof {
            lemma_quality_bounds(text@, pos@, i as int);
        }
        if earned > u64::MAX - weight {
            earned = u64::MAX;
        } else {
            earned = earned + weight;
        }
        i = i + 1;
    }
    proof {
        lemma_quality_bounds(text@, pos@, pos@.len() as int);
    }
    let unmatched: usize = text.len() - pos.len();
    let penalty: u64 = if unmatched < 15 {
        unmatched as u64
    } else {
        MAX_LENGTH_PENALTY
    };
    earned - penalty
}

/// Matches `needle` against `text` and scores the match.
///
/// Returns the score and the matched positions where the query matches,
/// `None` where it does not; the empty query matches nothing.
pub fn match_text(needle: &Vec<char>, text: &Vec<char>) -> (r: Option<(u64, Vec<usize>)>)
    ensures
        r is Some <==> query_matches(needle@, text@),
        r matches Some((score, pos)) ==> {
            &&& score == match_score(needle@, text@)
            &&& score > 0
            &&& pos@ == leftmost_embedding(needle@, text@)
            &&& is_leftmost_embedding(pos@, needle@, text@)
        },
{
    if needle.len() == 0 {
        return None;
    }
    match find_positions(needle, text) {
        None => None,
        Some(pos) => {
            proof {
                lemma_leftmost_exists(needle@, text@);
                lemma_leftmost_unique(
                    pos@,
                    leftmost_embedding(needle@, text@),
                    needle@,
                    text@,
                );
                lemma_embedding_fits(pos@, needle@, text@);
            }
            let score: u64 = score_positions(text, &pos);
            Some((score, pos))
        },
    }
}

} // verus!
