//! What listings are sorted by, and how settings name it.

use crate::text::same_text;
use vstd::prelude::*;

verus! {

/// The lower-case form of a text.
pub uninterp spec fn lowercase_text(s: Seq<char>) -> Seq<char>;

/// The lower-case form of an ASCII character.
pub open spec fn ascii_lower(c: char) -> char {
    if 'A' <= c && c <= 'Z' {
        (c as u32 + 32) as char
    } else {
        c
    }
}

pub open spec fn is_ascii_text(s: Seq<char>) -> bool {
    forall|i: int| 0 <= i < s.len() ==> ((#[trigger] s[i]) as u32) < 128
}

/// `str::to_lowercase`: the lower-case form of the text; of ASCII text, the
/// letters `A` to `Z` become `a` to `z` and nothing else changes.
pub assume_specification[ str::to_lowercase ](s: &str) -> (r: String)
    ensures
        r@ == lowercase_text(s@),
        is_ascii_text(s@) ==> r@ == Seq::new(s@.len(), |i: int| ascii_lower(s@[i])),
;

/// What a listing is sorted by.
#[derive(Debug, Clone, Copy, PartialEq, Eq, Structural)]
pub enum SortBy {
    Name,
    Type,
    Size,
    Modified,
}

/// The direction of a sort.
#[derive(Debug, Clone, Copy, PartialEq, Eq, Structural)]
pub enum SortOrder {
    Asc,
    Desc,
}

impl SortOrder {
    /// The other direction.
    pub open spec fn flipped(self) -> SortOrder {
        match self {
            SortOrder::Asc => SortOrder::Desc,
            SortOrder::Desc => SortOrder::Asc,
        }
    }

    /// The other direction.
    pub fn flip(self) -> (r: SortOrder)
        ensures
            r == self.flipped(),
    {
        match self {
            SortOrder::Asc => SortOrder::Desc,
            SortOrder::Desc => SortOrder::Asc,
        }
    }
}

/// The sort that a lower-case word names; any other word means by name.
pub open spec fn sort_by_word(word: Seq<char>) -> SortBy {
    if word == "type"@ {
        SortBy::Type
    } else if word == "size"@ {
        SortBy::Size
    } else if word == "modified"@ || word == "date"@ {
        SortBy::Modified
    } else {
        SortBy::Name
    }
}

/// The direction that a lower-case word names; any other word means ascending.
pub open spec fn sort_order_word(word: Seq<char>) -> SortOrder {
    if word == "desc"@ {
        SortOrder::Desc
    } else {
        SortOrder::Asc
    }
}

/// The word by which settings name a sort.
pub open spec fn word_of_sort_by(sort_by: SortBy) -> Seq<char> {
    match sort_by {
        SortBy::Name => "name"@,
        SortBy::Type => "type"@,
        SortBy::Size => "size"@,
        SortBy::Modified => "modified"@,
    }
}

/// The word by which settings name a direction.
pub open spec fn word_of_sort_order(sort_order: SortOrder) -> Seq<char> {
    match sort_order {
        SortOrder::Asc => "asc"@,
        SortOrder::Desc => "desc"@,
    }
}

/// The sort that a lower-case word names.
pub fn sort_by_of_word(word: &str) -> (r: SortBy)
    ensures
        r == sort_by_word(word@),
{
    if same_text(word, "type") {
        SortBy::Type
    } else if same_text(word, "size") {
        SortBy::Size
    } else if same_text(word, "modified") || same_text(word, "date") {
        SortBy::Modified
    } else {
        SortBy::Name
    }
}

/// The direction that a lower-case word names.
pub fn sort_order_of_word(word: &str) -> (r: SortOrder)
    ensures
        r == sort_order_word(word@),
{
    if same_text(word, "desc") {
        SortOrder::Desc
    } else {
        SortOrder::Asc
    }
}

/// The sort that a setting names, in any case of letters.
pub fn parse_sort_by(s: &str) -> (r: SortBy)
    ensures
        r == sort_by_word(lowercase_text(s@)),
{
    let lower = s.to_lowercase();
    sort_by_of_word(lower.as_str())
}

/// The direction that a setting names, in any case of letters.
pub fn parse_sort_order(s: &str) -> (r: SortOrder)
    ensures
        r == sort_order_word(lowercase_text(s@)),
{
    let lower = s.to_lowercase();
    sort_order_of_word(lower.as_str())
}

/// The word by which settings name a sort.
pub fn sort_by_to_string(sort_by: SortBy) -> (r: String)
    ensures
        r@ == word_of_sort_by(sort_by),
{
    match sort_by {
        SortBy::Name => "name".to_owned(),
        SortBy::Type => "type".to_owned(),
        SortBy::Size => "size".to_owned(),
        SortBy::Modified => "modified".to_owned(),
    }
}

/// The word by which settings name a direction.
pub fn sort_order_to_string(sort_order: SortOrder) -> (r: String)
    ensures
        r@ == word_of_sort_order(sort_order),
{
    match sort_order {
        SortOrder::Asc => "asc".to_owned(),
        SortOrder::Desc => "desc".to_owned(),
    }
}

/// Reading back the word of a sort gives that sort.
pub proof fn law_sort_by_round_trip(sort_by: SortBy)
    ensures
        sort_by_word(word_of_sort_by(sort_by)) == sort_by,
{
    reveal_strlit("name");
    reveal_strlit("type");
    reveal_strlit("size");
    reveal_strlit("modified");
    reveal_strlit("date");
    assert("name"@[0] != "type"@[0]);
    assert("name"@[0] != "size"@[0]);
    assert("name"@[0] != "date"@[0]);
    assert("size"@[0] != "type"@[0]);
    assert("modified"@.len() == 8);
}

/// Reading back the word of a direction gives that direction.
pub proof fn law_sort_order_round_trip(sort_order: SortOrder)
    ensures
        sort_order_word(word_of_sort_order(sort_order)) == sort_order,
{
    reveal_strlit("asc");
    reveal_strlit("desc");
    assert("asc"@.len() != "desc"@.len());
}

/// A word for what lines are sorted by means the column that it names; a date is the time
/// of the last change, and an unknown word the name.
pub proof fn law_words_for_sorting(word: Seq<char>)
    ensures
        sort_by_word("name"@) == SortBy::Name,
        sort_by_word("type"@) == SortBy::Type,
        sort_by_word("size"@) == SortBy::Size,
        sort_by_word("modified"@) == SortBy::Modified,
        sort_by_word("date"@) == SortBy::Modified,
        sort_by_word(word) != SortBy::Name ==> word == "type"@ || word == "size"@ || word
            == "modified"@ || word == "date"@,
        sort_order_word("asc"@) == SortOrder::Asc,
        sort_order_word("desc"@) == SortOrder::Desc,
        sort_order_word(word) == SortOrder::Desc ==> word == "desc"@,
{
    reveal_strlit("name");
    reveal_strlit("type");
    reveal_strlit("size");
    reveal_strlit("modified");
    reveal_strlit("date");
    reveal_strlit("asc");
    reveal_strlit("desc");
    assert("name"@[0] == 'n');
    assert("type"@[0] == 't');
    assert("size"@[0] == 's');
    assert("modified"@[0] == 'm');
    assert("date"@[0] == 'd');
    assert("asc"@[0] == 'a');
    assert("desc"@[0] == 'd');
}

/// Turning an order round gives the other one.
pub proof fn law_orders_are_two(order: SortOrder)
    ensures
        order.flipped() != order,
        order.flipped().flipped() == order,
{
}

} // verus!
