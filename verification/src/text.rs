//! Display texts as character sequences, and the subsequence relation that
//! decides whether a candidate matches a query at all.

use vstd::prelude::*;
use vstd::std_specs::iter::IteratorSpec;

verus! {

/// `pos` places every character of `needle` on an equal character of `hay`,
/// at strictly increasing indices.
pub open spec fn is_embedding(pos: Seq<usize>, needle: Seq<char>, hay: Seq<char>) -> bool {
    &&& pos.len() == needle.len()
    &&& forall|i: int|
        0 <= i < pos.len() ==> (#[trigger] pos[i]) < hay.len() && hay[pos[i] as int] == needle[i]
    &&& forall|i: int, j: int|
        0 <= i < j < pos.len() ==> (#[trigger] pos[i]) < (#[trigger] pos[j])
}

/// The characters of `needle` occur in `hay` in order, not necessarily next
/// to each other.
pub open spec fn is_subsequence(needle: Seq<char>, hay: Seq<char>) -> bool {
    exists|pos: Seq<usize>| is_embedding(pos, needle, hay)
}

/// `pos` is the embedding that places each character as early as any
/// embedding can.
pub open spec fn is_leftmost_embedding(pos: Seq<usize>, needle: Seq<char>, hay: Seq<char>) -> bool {
    &&& is_embedding(pos, needle, hay)
    &&& forall|other: Seq<usize>, i: int|
        is_embedding(other, needle, hay) && 0 <= i < pos.len() ==> pos[i] <= #[trigger] other[i]
}

/// The leftmost embedding of `needle` in `hay`; meaningful where one exists.
pub open spec fn leftmost_embedding(needle: Seq<char>, hay: Seq<char>) -> Seq<usize> {
    choose|pos: Seq<usize>| is_leftmost_embedding(pos, needle, hay)
}

/// Two leftmost embeddings of the same needle in the same text are equal.
pub proof fn lemma_leftmost_unique(
    a: Seq<usize>,
    b: Seq<usize>,
    needle: Seq<char>,
    hay: Seq<char>,
)
    requires
        is_leftmost_embedding(a, needle, hay),
        is_leftmost_embedding(b, needle, hay),
    ensures
        a == b,
{
    assert forall|i: int| 0 <= i < a.len() implies a[i] == b[i] by {
        assert(a[i] <= b[i]);
        assert(b[i] <= a[i]);
    }
    assert(a =~= b);
}

/// An embedding never needs more characters than the text has.
pub proof fn lemma_embedding_fits(pos: Seq<usize>, needle: Seq<char>, hay: Seq<char>)
    requires
        is_embedding(pos, needle, hay),
    ensures
        needle.len() <= hay.len(),
        forall|i: int| 0 <= i < pos.len() ==> i <= #[trigger] pos[i],
    decreases pos.len(),
{
    if pos.len() > 0 {
        let n = pos.len() - 1;
        assert(is_embedding(pos.take(n), needle.take(n), hay));
        lemma_embedding_fits(pos.take(n), needle.take(n), hay);
        if n > 0 {
            assert(pos.take(n)[n - 1] == pos[n - 1]);
            assert(pos[n - 1] < pos[n]);
        }
        assert forall|i: int| 0 <= i < pos.len() implies i <= #[trigger] pos[i] by {
            if i < n {
                assert(pos.take(n)[i] == pos[i]);
            }
        }
        assert(pos[n] < hay.len());
    }
}

/// The first index in `from..=upto` at which `text` holds `c`, or `upto`.
pub open spec fn first_from(text: Seq<char>, c: char, from: int, upto: int) -> int
    decreases upto - from,
{
    if from >= upto || text[from] == c {
        from
    } else {
        first_from(text, c, from + 1, upto)
    }
}

/// `first_from` finds the character where `upto` holds it, and skips no
/// equal character on the way.
pub proof fn lemma_first_from(text: Seq<char>, c: char, from: int, upto: int)
    requires
        0 <= from <= upto < text.len(),
        text[upto] == c,
    ensures
        from <= first_from(text, c, from, upto) <= upto,
        text[first_from(text, c, from, upto)] == c,
        forall|k: int| from <= k < first_from(text, c, from, upto) ==> text[k] != c,
    decreases upto - from,
{
    if from < upto && text[from] != c {
        lemma_first_from(text, c, from + 1, upto);
    }
}

/// Where a query is a subsequence of a text, a leftmost embedding exists.
pub proof fn lemma_leftmost_exists(needle: Seq<char>, text: Seq<char>)
    requires
        is_subsequence(needle, text),
    ensures
        is_leftmost_embedding(leftmost_embedding(needle, text), needle, text),
    decreases needle.len(),
{
    let some = choose|pos: Seq<usize>| is_embedding(pos, needle, text);
    if needle.len() == 0 {
        assert(is_leftmost_embedding(some, needle, text));
    } else {
        let n = needle.len() - 1;
        let shorter = needle.take(n);
        assert(is_embedding(some.take(n), shorter, text));
        lemma_leftmost_exists(shorter, text);
        let head = leftmost_embedding(shorter, text);
        // The last character goes to the first equal character behind `head`.
        let from: int = if n == 0 { 0 } else { head[n - 1] + 1 };
        assert(from <= some[n]) by {
            if n > 0 {
                assert(head[n - 1] <= some.take(n)[n - 1]);
                assert(some[n - 1] < some[n]);
            }
        }
        let last = first_from(text, needle[n], from, some[n] as int);
        lemma_first_from(text, needle[n], from, some[n] as int);
        let best = head.push(last as usize);
        assert(is_embedding(best, needle, text)) by {
            assert forall|i: int| 0 <= i < best.len() implies (#[trigger] best[i]) < text.len()
                && text[best[i] as int] == needle[i] by {
                if i < n {
                    assert(best[i] == head[i]);
                    assert(shorter[i] == needle[i]);
                }
            }
            assert forall|i: int, j: int| 0 <= i < j < best.len() implies (#[trigger] best[i]) < (
            #[trigger] best[j]) by {
                if j < n {
                    assert(best[i] == head[i] && best[j] == head[j]);
                } else {
                    assert(best[i] == head[i]);
                    assert(head[i] <= head[n - 1]) by {
                        if i < n - 1 {
                            assert(head[i] < head[n - 1]);
                        }
                    }
                }
            }
        }
        assert forall|other: Seq<usize>, i: int|
            is_embedding(other, needle, text) && 0 <= i < best.len() implies best[i]
            <= #[trigger] other[i] by {
            assert(is_embedding(other.take(n), shorter, text));
            if i < n {
                assert(head[i] <= other.take(n)[i]);
            } else {
                if n > 0 {
                    assert(head[n - 1] <= other.take(n)[n - 1]);
                    assert(other[n - 1] < other[n]);
                }
                assert(from <= other[n]);
                assert(text[other[n] as int] == needle[n]);
                if other[n] < last {
                    assert(text[other[n] as int] != needle[n]);
                }
            }
        }
        assert(is_leftmost_embedding(best, needle, text));
    }
}

/// The characters of a string slice, as a vector.
pub fn chars_of(s: &str) -> (r: Vec<char>)
    ensures
        r@ == s@,
{
    let mut out: Vec<char> = Vec::new();
    let mut rest = s.chars();
    assert(out@ + rest.remaining() =~= s@);
    loop
        invariant_except_break
            out@ + rest.remaining() == s@,
            rest.decrease() is Some,
        ensures
            out@ == s@,
        decreases rest.decrease()->0,
    {
        match rest.next() {
            Some(c) => {
                out.push(c);
                assert(out@ + rest.remaining() =~= s@);
            },
            None => {
                assert(out@ =~= s@);
                break ;
            },
        }
    }
    out
}

/// Looks for `needle` in `hay` as an ordered subsequence, taking for each
/// character the earliest place that the ones before it leave free.
///
/// Returns the matched positions, or `None` when `needle` is no subsequence
/// of `hay`. The empty needle is found in every text, at no position.
pub fn find_positions(needle: &Vec<char>, hay: &Vec<char>) -> (r: Option<Vec<usize>>)
    ensures
        r is Some <==> is_subsequence(needle@, hay@),
        r matches Some(p) ==> is_leftmost_embedding(p@, needle@, hay@),
{
    let mut pos: Vec<usize> = Vec::new();
    let mut i: usize = 0;
    let mut j: usize = 0;
    while i < needle.len()
        invariant
            i <= needle.len(),
            j <= hay.len(),
            pos@.len() == i,
            forall|k: int| 0 <= k < i ==> (#[trigger] pos@[k]) < j && hay@[pos@[k] as int] == needle@[k],
            forall|k: int, l: int| 0 <= k < l < i ==> (#[trigger] pos@[k]) < (#[trigger] pos@[l]),
            forall|other: Seq<usize>, k: int|
                is_embedding(other, needle@, hay@) && 0 <= k < i ==> pos@[k] <= #[trigger] other[k],
            forall|other: Seq<usize>| #[trigger]
                is_embedding(other, needle@, hay@) && i < needle.len() ==> other[i as int] >= j,
        decreases needle.len() - i,
    {
        while j < hay.len() && hay[j] != needle[i]
            invariant
                i < needle.len(),
                j <= hay.len(),
                pos@.len() == i,
                forall|k: int| 0 <= k < i ==> (#[trigger] pos@[k]) < j,
                forall|other: Seq<usize>| #[trigger]
                    is_embedding(other, needle@, hay@) ==> other[i as int] >= j,
            decreases hay.len() - j,
        {
            j = j + 1;
        }
        if j == hay.len() {
            proof {
                assert forall|other: Seq<usize>| !is_embedding(other, needle@, hay@) by {
                    if is_embedding(other, needle@, hay@) {
                        assert(other[i as int] >= j);
                        assert(other[i as int] < hay@.len());
                    }
                }
            }
            return None;
        }
        pos.push(j);
        proof {
            assert forall|other: Seq<usize>| #[trigger]
                is_embedding(other, needle@, hay@) && i + 1 < needle.len() implies other[i + 1]
                >= j + 1 by {
                assert(other[i as int] >= j);
                assert(other[i as int] < other[i + 1]);
            }
        }
        j = j + 1;
        i = i + 1;
    }
    proof {
        assert(is_embedding(pos@, needle@, hay@));
    }
    Some(pos)
}

} // verus!
