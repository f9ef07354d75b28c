//! What a sorted list looks like, told by the fields of its lines.

use crate::diff_build::{
    leads_to_directory, merged_names, name_key, name_keys, sorted_names, sorting_size,
    sorting_time, SideName,
};
use crate::diff_fold::{child_keys, sorted_children, LoadedChild};
use crate::diff_order::{are_siblings, law_resorted_siblings_are_in_order};
use crate::diff_shape::tree_shaped;
use crate::diff_tree::{entry_keys, resorted};
use crate::diff_types::{codes, DiffEntry, DiffFileInfo, FileTime};
use crate::panel::{item_keys, sorted_items, FileItem};
use crate::paths::name_extension;
use crate::ranking::{
    arranged, comes_before, law_arranged_is_ordered_rearrangement, lemma_lex_total, lex_less, Key,
};
use crate::settings::{alphabetical, text_key};
use crate::sorting::{lowercase_text, SortBy, SortOrder};
use vstd::prelude::*;

verus! {

/// Whether a text comes before another in a dictionary: they agree up to some place,
/// and there the first one ends or has the smaller character.
pub open spec fn is_earlier_text(a: Seq<char>, b: Seq<char>) -> bool {
    exists|n: int| #[trigger] parts_at(a, b, n)
}

/// Whether two texts agree before place `n`, and the first one ends there or has the
/// smaller character.
pub open spec fn parts_at(a: Seq<char>, b: Seq<char>, n: int) -> bool {
    &&& 0 <= n <= a.len()
    &&& n < b.len()
    &&& forall|i: int| 0 <= i < n ==> #[trigger] a[i] == b[i]
    &&& n < a.len() ==> (a[n] as u32) < (b[n] as u32)
}

/// Whether a moment is before another.
pub open spec fn is_earlier_time(a: FileTime, b: FileTime) -> bool {
    a.secs < b.secs || (a.secs == b.secs && a.nanos < b.nanos)
}

/// The extension of a file name in small letters, nothing where it has none.
pub open spec fn small_extension(name: Seq<char>) -> Seq<char> {
    match name_extension(name) {
        Some(extension) => lowercase_text(extension),
        None => Seq::empty(),
    }
}

proof fn lemma_char_code(a: char, b: char)
    ensures
        a as u32 == b as u32 ==> a == b,
{
}

proof fn lemma_codes_apart(a: Seq<char>, b: Seq<char>)
    requires
        lex_less(codes(a), codes(b)),
    ensures
        is_earlier_text(a, b),
    decreases a.len(),
{
    if a.len() == 0 || a[0] != b[0] {
        assert(codes(b).len() == b.len());
        if a.len() > 0 {
            lemma_char_code(a[0], b[0]);
            assert(codes(a)[0] != codes(b)[0]);
        }
        assert(parts_at(a, b, 0));
    } else {
        assert(codes(a).skip(1) =~= codes(a.skip(1)));
        assert(codes(b).skip(1) =~= codes(b.skip(1)));
        assert(codes(a)[0] == codes(b)[0]);
        lemma_codes_apart(a.skip(1), b.skip(1));
        let n = choose|n: int| parts_at(a.skip(1), b.skip(1), n);
        assert forall|i: int| 0 <= i < n + 1 implies #[trigger] a[i] == b[i] by {
            if i > 0 {
                assert(a.skip(1)[i - 1] == b.skip(1)[i - 1]);
            }
        }
        if n + 1 < a.len() {
            assert(a.skip(1)[n] == a[n + 1] && b.skip(1)[n] == b[n + 1]);
        }
        assert(parts_at(a, b, n + 1));
    }
}

/// Of two texts that stand in order, the first one is the earlier, or they are equal.
proof fn lemma_texts_in_order(a: Seq<char>, b: Seq<char>)
    requires
        codes(a) == codes(b) || lex_less(codes(a), codes(b)),
    ensures
        a == b || is_earlier_text(a, b),
{
    if codes(a) == codes(b) {
        assert(codes(a).len() == a.len() && codes(b).len() == b.len());
        assert forall|i: int| 0 <= i < a.len() implies a[i] == b[i] by {
            assert(codes(a)[i] == codes(b)[i]);
            lemma_char_code(a[i], b[i]);
        }
        assert(a =~= b);
    } else {
        lemma_codes_apart(a, b);
    }
}

/// An earlier text is not the later one.
pub proof fn law_text_order_has_one_direction(a: Seq<char>, b: Seq<char>)
    requires
        is_earlier_text(a, b),
    ensures
        a != b,
        !is_earlier_text(b, a),
{
    let n = choose|n: int| parts_at(a, b, n);
    if is_earlier_text(b, a) {
        let m = choose|m: int| parts_at(b, a, m);
        if m < n {
            assert(a[m] == b[m]);
        } else if n < m {
            assert(b[n] == a[n]);
        }
    }
}

proof fn lemma_times_in_order(a: FileTime, b: FileTime)
    requires
        ({
            let x = seq![a.secs as int, a.nanos as int];
            let y = seq![b.secs as int, b.nanos as int];
            x == y || lex_less(x, y)
        }),
    ensures
        a == b || is_earlier_time(a, b),
{
    let x = seq![a.secs as int, a.nanos as int];
    let y = seq![b.secs as int, b.nanos as int];
    if x == y {
        assert(x[0] == y[0] && x[1] == y[1]);
    } else {
        reveal_with_fuel(lex_less, 3);
        assert(x.skip(1)[0] == a.nanos && y.skip(1)[0] == b.nanos);
        assert(x.skip(1).skip(1).len() == 0);
    }
}

proof fn lemma_numbers_in_order(a: int, b: int)
    requires
        seq![a] == seq![b] || lex_less(seq![a], seq![b]),
    ensures
        a <= b,
{
    if seq![a] == seq![b] {
        assert(seq![a][0] == seq![b][0]);
    } else {
        reveal_with_fuel(lex_less, 2);
        assert(seq![a].skip(1).len() == 0);
        assert(seq![a][0] == a && seq![b][0] == b);
    }
}

/// The major keys of two items that stand in order, the smaller one first.
proof fn lemma_majors(keys: Seq<Key>, descending: bool, i: int, j: int)
    requires
        comes_before(keys, descending, i, j),
        keys[i].directory == keys[j].directory,
    ensures
        !descending ==> keys[i].major == keys[j].major || lex_less(keys[i].major, keys[j].major),
        descending ==> keys[i].major == keys[j].major || lex_less(keys[j].major, keys[i].major),
{
    if keys[i].major != keys[j].major {
        lemma_lex_total(keys[i].major, keys[j].major);
    }
}

/// The first of two things is not later than the second, or the other way round where
/// the sort descends.
pub open spec fn texts_sorted(a: Seq<char>, b: Seq<char>, sort_order: SortOrder) -> bool {
    match sort_order {
        SortOrder::Asc => a == b || is_earlier_text(a, b),
        SortOrder::Desc => a == b || is_earlier_text(b, a),
    }
}

pub open spec fn times_sorted(a: FileTime, b: FileTime, sort_order: SortOrder) -> bool {
    match sort_order {
        SortOrder::Asc => a == b || is_earlier_time(a, b),
        SortOrder::Desc => a == b || is_earlier_time(b, a),
    }
}

pub open spec fn sizes_sorted(a: u64, b: u64, sort_order: SortOrder) -> bool {
    match sort_order {
        SortOrder::Asc => a <= b,
        SortOrder::Desc => a >= b,
    }
}

/// In a sorted listing a directory stands before every file, in both directions; and
/// of two lines of one kind the first one has the smaller name, extension, size or
/// time, whichever the listing is sorted by, and the larger one where it descends.
pub proof fn law_sorted_lines_by_their_fields(
    items: Seq<FileItem>,
    sort_by: SortBy,
    sort_order: SortOrder,
    i: int,
    j: int,
)
    requires
        0 <= i < j < sorted_items(items, sort_by, sort_order).len(),
    ensures
        ({
            let a = sorted_items(items, sort_by, sort_order)[i];
            let b = sorted_items(items, sort_by, sort_order)[j];
            &&& b.is_directory ==> a.is_directory
            &&& a.is_directory == b.is_directory ==> match sort_by {
                SortBy::Name => texts_sorted(
                    lowercase_text(a.name@),
                    lowercase_text(b.name@),
                    sort_order,
                ),
                SortBy::Type => texts_sorted(
                    small_extension(a.name@),
                    small_extension(b.name@),
                    sort_order,
                ),
                SortBy::Size => sizes_sorted(a.size, b.size, sort_order),
                SortBy::Modified => times_sorted(a.modified, b.modified, sort_order),
            }
        }),
{
    broadcast use vstd::seq_lib::group_to_multiset_ensures;

    let keys = item_keys(items, sort_by);
    let descending = sort_order == SortOrder::Desc;
    let places = Seq::new(items.len(), |i: int| i);
    let order = arranged(keys, descending, places);
    law_arranged_is_ordered_rearrangement(keys, descending, places);
    let sorted = sorted_items(items, sort_by, sort_order);
    assert forall|k: int| 0 <= k < order.len() implies 0 <= #[trigger] order[k] < items.len() by {
        assert(order.contains(order[k]));
        assert(places.to_multiset().count(order[k]) > 0);
        assert(places.contains(order[k]));
    }
    assert(comes_before(keys, descending, order[i], order[j]));
    let a = sorted[i];
    let b = sorted[j];
    assert(a == items[order[i]] && b == items[order[j]]);
    if a.is_directory == b.is_directory {
        lemma_majors(keys, descending, order[i], order[j]);
        let (low, high) = if descending {
            (b, a)
        } else {
            (a, b)
        };
        match sort_by {
            SortBy::Name => {
                lemma_texts_in_order(lowercase_text(low.name@), lowercase_text(high.name@));
            },
            SortBy::Type => {
                lemma_texts_in_order(small_extension(low.name@), small_extension(high.name@));
            },
            SortBy::Size => {
                lemma_numbers_in_order(low.size as int, high.size as int);
            },
            SortBy::Modified => {
                lemma_times_in_order(low.modified, high.modified);
            },
        }
    }
}

/// The side by which a row of the comparison is sorted: the left one, or the right one
/// where there is nothing on the left.
pub open spec fn sorted_side(row: DiffEntry) -> DiffFileInfo {
    if row.left is Some {
        row.left->0
    } else {
        row.right->0
    }
}

/// Once a comparison was re-sorted, a directory stands before every file in the same
/// directory; and of two rows of one kind the first one has the smaller name,
/// extension, size or time of its left side, or of its right side where it has no left
/// one, and the larger one where the sort descends. Rows with one extension stand by
/// name.
pub proof fn law_resorted_rows_by_their_fields(
    entries: Seq<DiffEntry>,
    sort_by: SortBy,
    sort_order: SortOrder,
    i: int,
    j: int,
)
    requires
        tree_shaped(entries),
        0 <= i < j < resorted(entries, sort_by, sort_order).len(),
        are_siblings(resorted(entries, sort_by, sort_order), i, j),
    ensures
        ({
            let a = resorted(entries, sort_by, sort_order)[i];
            let b = resorted(entries, sort_by, sort_order)[j];
            let p = sorted_side(a);
            let q = sorted_side(b);
            &&& b.is_directory ==> a.is_directory
            &&& (a.left is Some || a.right is Some) && (b.left is Some || b.right is Some)
                && a.is_directory == b.is_directory ==> match sort_by {
                SortBy::Name => texts_sorted(
                    lowercase_text(p.name@),
                    lowercase_text(q.name@),
                    sort_order,
                ),
                SortBy::Type => {
                    &&& texts_sorted(small_extension(p.name@), small_extension(q.name@), sort_order)
                    &&& small_extension(p.name@) == small_extension(q.name@) ==> texts_sorted(
                        lowercase_text(p.name@),
                        lowercase_text(q.name@),
                        sort_order,
                    )
                },
                SortBy::Size => sizes_sorted(p.size, q.size, sort_order),
                SortBy::Modified => times_sorted(p.modified, q.modified, sort_order),
            }
        }),
{
    let now = resorted(entries, sort_by, sort_order);
    let keys = entry_keys(now, sort_by);
    let descending = sort_order == SortOrder::Desc;
    law_resorted_siblings_are_in_order(entries, sort_by, sort_order, i, j);
    let a = now[i];
    let b = now[j];
    if (a.left is Some || a.right is Some) && (b.left is Some || b.right is Some) && a.is_directory
        == b.is_directory {
        lemma_majors(keys, descending, i, j);
        let (low, high) = if descending {
            (sorted_side(b), sorted_side(a))
        } else {
            (sorted_side(a), sorted_side(b))
        };
        match sort_by {
            SortBy::Name => {
                lemma_texts_in_order(lowercase_text(low.name@), lowercase_text(high.name@));
            },
            SortBy::Type => {
                lemma_texts_in_order(small_extension(low.name@), small_extension(high.name@));
                if small_extension(low.name@) == small_extension(high.name@) {
                    if keys[i].minor != keys[j].minor {
                        lemma_lex_total(keys[i].minor, keys[j].minor);
                    }
                    lemma_texts_in_order(lowercase_text(low.name@), lowercase_text(high.name@));
                }
            },
            SortBy::Size => {
                lemma_numbers_in_order(low.size as int, high.size as int);
            },
            SortBy::Modified => {
                lemma_times_in_order(low.modified, high.modified);
            },
        }
    }
}

/// The children of a one-sided directory are shown with directories first, and by name
/// among those of one kind, whatever the comparison is sorted by.
pub proof fn law_read_in_children_stand_by_name(children: Seq<LoadedChild>, i: int, j: int)
    requires
        0 <= i < j < sorted_children(children).len(),
    ensures
        ({
            let a = children[sorted_children(children)[i]];
            let b = children[sorted_children(children)[j]];
            &&& b.leads_to_directory ==> a.leads_to_directory
            &&& a.leads_to_directory == b.leads_to_directory ==> texts_sorted(
                lowercase_text(a.name@),
                lowercase_text(b.name@),
                SortOrder::Asc,
            )
        }),
{
    broadcast use vstd::seq_lib::group_to_multiset_ensures;

    let keys = child_keys(children);
    let places = Seq::new(children.len(), |i: int| i);
    let order = sorted_children(children);
    assert(places =~= crate::diff_fold::identity_order(children.len()));
    law_arranged_is_ordered_rearrangement(keys, false, places);
    assert forall|k: int| 0 <= k < order.len() implies 0 <= #[trigger] order[k] < children.len() by {
        assert(order.contains(order[k]));
        assert(places.to_multiset().count(order[k]) > 0);
        assert(places.contains(order[k]));
    }
    assert(comes_before(keys, false, order[i], order[j]));
    let a = children[order[i]];
    let b = children[order[j]];
    if a.leads_to_directory == b.leads_to_directory {
        lemma_majors(keys, false, order[i], order[j]);
        lemma_texts_in_order(lowercase_text(a.name@), lowercase_text(b.name@));
    }
}

/// The names of two directories are compared with directories first, and by name,
/// extension, size or time among those of one kind.
pub proof fn law_compared_names_stand_in_order(
    left: Seq<SideName>,
    right: Seq<SideName>,
    sort_by: SortBy,
    sort_order: SortOrder,
    i: int,
    j: int,
)
    requires
        0 <= i < j < sorted_names(left, right, sort_by, sort_order).len(),
    ensures
        ({
            let a = sorted_names(left, right, sort_by, sort_order)[i];
            let b = sorted_names(left, right, sort_by, sort_order)[j];
            &&& leads_to_directory(left, right, b) ==> leads_to_directory(left, right, a)
            &&& leads_to_directory(left, right, a) == leads_to_directory(left, right, b)
                ==> match sort_by {
                SortBy::Name => texts_sorted(lowercase_text(a), lowercase_text(b), sort_order),
                SortBy::Type => texts_sorted(small_extension(a), small_extension(b), sort_order),
                SortBy::Size => sizes_sorted(
                    sorting_size(left, right, a),
                    sorting_size(left, right, b),
                    sort_order,
                ),
                SortBy::Modified => times_sorted(
                    sorting_time(left, right, a),
                    sorting_time(left, right, b),
                    sort_order,
                ),
            }
        }),
{
    broadcast use vstd::seq_lib::group_to_multiset_ensures;

    let names = merged_names(left, right);
    let keys = name_keys(left, right, sort_by);
    let descending = sort_order == SortOrder::Desc;
    let places = Seq::new(names.len(), |i: int| i);
    assert(places =~= crate::diff_build::all_positions(names.len()));
    let order = arranged(keys, descending, places);
    law_arranged_is_ordered_rearrangement(keys, descending, places);
    assert forall|k: int| 0 <= k < order.len() implies 0 <= #[trigger] order[k] < names.len() by {
        assert(order.contains(order[k]));
        assert(places.to_multiset().count(order[k]) > 0);
        assert(places.contains(order[k]));
    }
    assert(comes_before(keys, descending, order[i], order[j]));
    let a = names[order[i]];
    let b = names[order[j]];
    assert(keys[order[i]] == name_key(left, right, a, sort_by));
    assert(keys[order[j]] == name_key(left, right, b, sort_by));
    if leads_to_directory(left, right, a) == leads_to_directory(left, right, b) {
        lemma_majors(keys, descending, order[i], order[j]);
        let (low, high) = if descending {
            (b, a)
        } else {
            (a, b)
        };
        match sort_by {
            SortBy::Name => {
                lemma_texts_in_order(lowercase_text(low), lowercase_text(high));
            },
            SortBy::Type => {
                lemma_texts_in_order(small_extension(low), small_extension(high));
            },
            SortBy::Size => {
                lemma_numbers_in_order(
                    sorting_size(left, right, low) as int,
                    sorting_size(left, right, high) as int,
                );
            },
            SortBy::Modified => {
                lemma_times_in_order(
                    sorting_time(left, right, low),
                    sorting_time(left, right, high),
                );
            },
        }
    }
}

/// A name that both sides list is sorted by what the left one says of it, and one that
/// a single side lists by what that side says. A name leads to a directory where it
/// does so on either side.
pub proof fn law_name_is_sorted_by_its_left_side(
    left: Seq<SideName>,
    right: Seq<SideName>,
    i: int,
)
    requires
        0 <= i < left.len(),
        forall|a: int, b: int|
            0 <= a < b < left.len() ==> (#[trigger] left[a]).name@ != (#[trigger] left[b]).name@,
    ensures
        ({
            let name = left[i].name@;
            &&& left[i].size matches Some(size) ==> sorting_size(left, right, name) == size
            &&& left[i].modified matches Some(time) ==> sorting_time(left, right, name) == time
            &&& left[i].leads_to_directory ==> leads_to_directory(left, right, name)
            &&& leads_to_directory(right, left, name) == leads_to_directory(left, right, name)
        }),
{
    crate::diff_build::lemma_find_name(left, left[i].name@);
}

/// Names in alphabetical order are the names given, each as often as before, and none comes
/// before an earlier one in the dictionary.
pub proof fn law_alphabetical_names(names: Seq<Seq<char>>, i: int, j: int)
    requires
        0 <= i < j < names.len(),
    ensures
        alphabetical(names).len() == names.len(),
        alphabetical(names)[i] == alphabetical(names)[j] || is_earlier_text(
            alphabetical(names)[i],
            alphabetical(names)[j],
        ),
        names.contains(alphabetical(names)[i]),
        alphabetical(names).contains(names[i]),
{
    broadcast use vstd::seq_lib::group_to_multiset_ensures;

    let keys = Seq::new(names.len(), |i: int| text_key(names[i]));
    let places = Seq::new(names.len(), |i: int| i);
    let order = arranged(keys, false, places);
    law_arranged_is_ordered_rearrangement(keys, false, places);
    assert forall|k: int| 0 <= k < order.len() implies 0 <= #[trigger] order[k] < names.len() by {
        assert(order.contains(order[k]));
        assert(places.to_multiset().count(order[k]) > 0);
        assert(places.contains(order[k]));
    }
    assert(comes_before(keys, false, order[i], order[j]));
    lemma_majors(keys, false, order[i], order[j]);
    lemma_texts_in_order(names[order[i]], names[order[j]]);
    assert(places[i] == i);
    assert(places.contains(i));
    assert(order.to_multiset().count(i) > 0);
    assert(order.contains(i));
    let k = choose|k: int| 0 <= k < order.len() && order[k] == i;
    assert(alphabetical(names)[k] == names[i]);
}

} // verus!
