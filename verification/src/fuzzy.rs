//! Fuzzy matching: the characters of a pattern in order, with anything between.

use crate::text::chars_of;
use vstd::prelude::*;

verus! {

/// Whether the characters of `pattern` occur in `text` in order.
pub open spec fn in_order(text: Seq<char>, pattern: Seq<char>) -> bool
    decreases text.len(),
{
    if pattern.len() == 0 {
        true
    } else if text.len() == 0 {
        false
    } else if text[0] == pattern[0] {
        in_order(text.skip(1), pattern.skip(1))
    } else {
        in_order(text.skip(1), pattern)
    }
}

/// Whether the characters of `pattern` stand in `text` at these places, which grow.
pub open spec fn stands_along(text: Seq<char>, pattern: Seq<char>, places: Seq<int>) -> bool {
    &&& places.len() == pattern.len()
    &&& forall|i: int|
        0 <= i < places.len() ==> 0 <= #[trigger] places[i] < text.len() && text[places[i]]
            == pattern[i]
    &&& forall|i: int, j: int| 0 <= i < j < places.len() ==> #[trigger] places[i] < #[trigger] places[j]
}

/// Whether the characters of `pattern` occur in `text` in order.
pub fn fuzzy_match(text: &str, pattern: &str) -> (r: bool)
    ensures
        r == in_order(text@, pattern@),
{
    let t = chars_of(text);
    let p = chars_of(pattern);
    let n: usize = t.len();
    let m: usize = p.len();
    let mut i: usize = 0;
    let mut j: usize = 0;
    assert(text@.skip(0) =~= text@);
    assert(pattern@.skip(0) =~= pattern@);
    while i < n && j < m
        invariant
            i <= n,
            j <= m,
            n == t@.len(),
            m == p@.len(),
            t@ == text@,
            p@ == pattern@,
            in_order(text@, pattern@) == in_order(text@.skip(i as int), pattern@.skip(j as int)),
        decreases n - i,
    {
        assert(text@.skip(i as int).skip(1) =~= text@.skip(i + 1));
        assert(text@.skip(i as int)[0] == text@[i as int]);
        assert(pattern@.skip(j as int)[0] == pattern@[j as int]);
        if t[i] == p[j] {
            assert(pattern@.skip(j as int).skip(1) =~= pattern@.skip(j + 1));
            j += 1;
        }
        i += 1;
    }
    j == m
}

/// A text matches where there are growing places in it that hold the characters of
/// the pattern, and only there.
pub proof fn law_match_is_a_choice_of_places(text: Seq<char>, pattern: Seq<char>)
    ensures
        in_order(text, pattern) <==> exists|places: Seq<int>| stands_along(text, pattern, places),
{
    if in_order(text, pattern) {
        lemma_places_exist(text, pattern);
    }
    if exists|places: Seq<int>| stands_along(text, pattern, places) {
        let places = choose|places: Seq<int>| stands_along(text, pattern, places);
        lemma_places_suffice(text, pattern, places);
    }
}

proof fn lemma_places_exist(text: Seq<char>, pattern: Seq<char>)
    requires
        in_order(text, pattern),
    ensures
        exists|places: Seq<int>| stands_along(text, pattern, places),
    decreases text.len(),
{
    if pattern.len() == 0 {
        assert(stands_along(text, pattern, Seq::<int>::empty()));
    } else if text[0] == pattern[0] {
        lemma_places_exist(text.skip(1), pattern.skip(1));
        let rest = choose|places: Seq<int>| stands_along(text.skip(1), pattern.skip(1), places);
        let places = Seq::new(pattern.len(), |i: int| if i == 0 { 0 } else { rest[i - 1] + 1 });
        assert forall|i: int| 0 <= i < places.len() implies 0 <= #[trigger] places[i] < text.len()
            && text[places[i]] == pattern[i] by {
            if i > 0 {
                assert(text.skip(1)[rest[i - 1]] == pattern.skip(1)[i - 1]);
            }
        }
        assert forall|i: int, j: int| 0 <= i < j < places.len() implies #[trigger] places[i]
            < #[trigger] places[j] by {
            assert(rest[j - 1] >= 0);
            if i > 0 {
                assert(rest[i - 1] < rest[j - 1]);
            }
        }
        assert(stands_along(text, pattern, places));
    } else {
        lemma_places_exist(text.skip(1), pattern);
        let rest = choose|places: Seq<int>| stands_along(text.skip(1), pattern, places);
        let places = Seq::new(pattern.len(), |i: int| rest[i] + 1);
        assert forall|i: int| 0 <= i < places.len() implies 0 <= #[trigger] places[i] < text.len()
            && text[places[i]] == pattern[i] by {
            assert(text.skip(1)[rest[i]] == pattern[i]);
        }
        assert forall|i: int, j: int| 0 <= i < j < places.len() implies #[trigger] places[i]
            < #[trigger] places[j] by {
            assert(rest[i] < rest[j]);
        }
        assert(stands_along(text, pattern, places));
    }
}

proof fn lemma_places_suffice(text: Seq<char>, pattern: Seq<char>, places: Seq<int>)
    requires
        stands_along(text, pattern, places),
    ensures
        in_order(text, pattern),
    decreases text.len(),
{
    if pattern.len() > 0 {
        assert(0 <= places[0] < text.len());
        if text[0] == pattern[0] {
            let rest = Seq::new((places.len() - 1) as nat, |i: int| places[i + 1] - 1);
            assert forall|i: int| 0 <= i < rest.len() implies 0 <= #[trigger] rest[i] < text.skip(
                1,
            ).len() && text.skip(1)[rest[i]] == pattern.skip(1)[i] by {
                assert(places[0] < places[i + 1]);
                assert(text[places[i + 1]] == pattern[i + 1]);
            }
            assert forall|i: int, j: int| 0 <= i < j < rest.len() implies #[trigger] rest[i]
                < #[trigger] rest[j] by {
                assert(places[i + 1] < places[j + 1]);
            }
            lemma_places_suffice(text.skip(1), pattern.skip(1), rest);
        } else {
            let rest = Seq::new(places.len(), |i: int| places[i] - 1);
            assert(places[0] != 0);
            assert forall|i: int| 0 <= i < rest.len() implies 0 <= #[trigger] rest[i] < text.skip(
                1,
            ).len() && text.skip(1)[rest[i]] == pattern[i] by {
                if i > 0 {
                    assert(places[0] < places[i]);
                }
                assert(text[places[i]] == pattern[i]);
            }
            assert forall|i: int, j: int| 0 <= i < j < rest.len() implies #[trigger] rest[i]
                < #[trigger] rest[j] by {
                assert(places[i] < places[j]);
            }
            lemma_places_suffice(text.skip(1), pattern, rest);
        }
    }
}

} // verus!
