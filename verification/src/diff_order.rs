//! The rows of a comparison once they were re-sorted: every sibling list is in order,
//! and sorting again changes nothing.

use crate::diff_shape::{is_inside, is_parent_row, tree_shaped};
use crate::diff_tree::{
    comes_behind, entry_keys, forest, is_placed, law_resorting_keeps_every_parent,
    law_resorting_keeps_the_tree, law_tree_order_is_a_rearrangement, lemma_forest_is_placed,
    lemma_parent_in_tree, lemma_parent_is_earlier, lemma_rows_below, lemma_siblings, parent_row,
    resorted, rows_below, siblings, tree_order,
};
use crate::diff_types::DiffEntry;
use crate::ranking::{
    arranged, comes_before, in_order, law_arranged_is_ordered_rearrangement, placed, Key,
};
use crate::sorting::{SortBy, SortOrder};
use vstd::prelude::*;

verus! {

/// Whether two rows stand at the top, or in the same directory.
pub open spec fn are_siblings(rows: Seq<DiffEntry>, a: int, b: int) -> bool {
    ||| rows[a].depth == 0 && rows[b].depth == 0
    ||| exists|p: int| #[trigger] is_parent_row(rows, p, a) && is_parent_row(rows, p, b)
}

/// Whether the rows at `a` and `b` of a visit are in order, where they have the same
/// parent.
spec fn in_order_at(
    entries: Seq<DiffEntry>,
    keys: Seq<Key>,
    descending: bool,
    w: Seq<int>,
    a: int,
    b: int,
) -> bool {
    parent_row(entries, w[a]) == parent_row(entries, w[b]) ==> comes_before(
        keys,
        descending,
        w[a],
        w[b],
    )
}

proof fn lemma_same_parent_same_depth(entries: Seq<DiffEntry>, x: int, y: int)
    requires
        tree_shaped(entries),
        0 <= x < entries.len(),
        0 <= y < entries.len(),
        parent_row(entries, x) == parent_row(entries, y),
    ensures
        entries[x].depth == entries[y].depth,
{
    lemma_parent_in_tree(entries, x);
    lemma_parent_in_tree(entries, y);
}

/// A row of a visit that is deeper than the list has its parent in the visit.
proof fn lemma_parent_in_visit(
    entries: Seq<DiffEntry>,
    list: Seq<int>,
    depth: int,
    w: Seq<int>,
    k: int,
) -> (q: int)
    requires
        is_placed(entries, list, depth, w, k),
        entries[w[k]].depth > depth,
    ensures
        0 <= q < k < w.len(),
        parent_row(entries, w[k]) == Some(w[q]),
{
    choose|q: int| comes_behind(entries, w, q, k)
}

/// A visit whose list is in order keeps all siblings in order.
proof fn lemma_forest_in_order(
    entries: Seq<DiffEntry>,
    keys: Seq<Key>,
    descending: bool,
    low: int,
    list: Seq<int>,
    depth: int,
)
    requires
        tree_shaped(entries),
        -1 <= low,
        in_order(keys, descending, list),
        forall|k: int|
            0 <= k < list.len() ==> low < #[trigger] list[k] < entries.len()
                && entries[list[k]].depth == depth,
        forest(entries, keys, descending, low, list).no_duplicates(),
    ensures
        forall|a: int, b: int|
            0 <= a < b < forest(entries, keys, descending, low, list).len()
                ==> #[trigger] in_order_at(
                entries,
                keys,
                descending,
                forest(entries, keys, descending, low, list),
                a,
                b,
            ),
    decreases entries.len() - low, list.len(),
{
    let w = forest(entries, keys, descending, low, list);
    if list.len() > 0 {
        let y = list[0];
        let rest = list.skip(1);
        let kids = siblings(entries, keys, descending, Some(y));
        assert(low < list[0] < entries.len());
        lemma_siblings(entries, keys, descending, Some(y));
        assert forall|k: int| 0 <= k < kids.len() implies y < #[trigger] kids[k] < entries.len()
            && entries[kids[k]].depth == depth + 1 by {
            lemma_parent_is_earlier(entries, kids[k]);
            lemma_parent_in_tree(entries, kids[k]);
        }
        assert forall|k: int| 0 <= k < rest.len() implies low < #[trigger] rest[k] < entries.len()
            && entries[rest[k]].depth == depth by {
            assert(rest[k] == list[k + 1]);
        }
        let below = forest(entries, keys, descending, y, kids);
        let after = forest(entries, keys, descending, low, rest);
        assert(w == seq![y] + below + after);
        assert(below =~= w.subrange(1, 1 + below.len() as int));
        assert(after =~= w.skip(1 + below.len() as int));
        lemma_rows_below(entries, Some(y), entries.len() as int);
        law_arranged_is_ordered_rearrangement(
            keys,
            descending,
            rows_below(entries, Some(y), entries.len() as int),
        );
        assert(in_order(keys, descending, rest)) by {
            assert forall|i: int, j: int| 0 <= i < j < rest.len() implies comes_before(
                keys,
                descending,
                #[trigger] rest[i],
                #[trigger] rest[j],
            ) by {
                assert(rest[i] == list[i + 1] && rest[j] == list[j + 1]);
            }
        }
        lemma_forest_in_order(entries, keys, descending, y, kids, depth + 1);
        lemma_forest_in_order(entries, keys, descending, low, rest, depth);
        lemma_forest_is_placed(entries, keys, descending, y, kids, depth + 1);
        lemma_forest_is_placed(entries, keys, descending, low, rest, depth);
        let shift = 1 + below.len() as int;
        assert forall|a: int, b: int| 0 <= a < b < w.len() implies #[trigger] in_order_at(
            entries,
            keys,
            descending,
            w,
            a,
            b,
        ) by {
            if parent_row(entries, w[a]) == parent_row(entries, w[b]) {
                if 1 <= a && b < shift {
                    assert(w[a] == below[a - 1] && w[b] == below[b - 1]);
                    assert(in_order_at(entries, keys, descending, below, a - 1, b - 1));
                } else if shift <= a {
                    assert(w[a] == after[a - shift] && w[b] == after[b - shift]);
                    assert(in_order_at(entries, keys, descending, after, a - shift, b - shift));
                } else if a == 0 && b < shift {
                    assert(w[b] == below[b - 1]);
                    assert(is_placed(entries, kids, depth + 1, below, b - 1));
                    lemma_same_parent_same_depth(entries, w[a], w[b]);
                    assert(false);
                } else if a == 0 {
                    assert(w[b] == after[b - shift]);
                    assert(is_placed(entries, rest, depth, after, b - shift));
                    lemma_same_parent_same_depth(entries, w[a], w[b]);
                    let c = choose|c: int| 0 <= c < rest.len() && rest[c] == w[b];
                    assert(list[0] == y && list[c + 1] == w[b]);
                } else {
                    // One stands below `y` and the other does not.
                    let i = a - 1;
                    let j = b - shift;
                    assert(w[a] == below[i] && w[b] == after[j]);
                    assert(is_placed(entries, kids, depth + 1, below, i));
                    assert(is_placed(entries, rest, depth, after, j));
                    lemma_same_parent_same_depth(entries, w[a], w[b]);
                    let q = lemma_parent_in_visit(entries, rest, depth, after, j);
                    assert(after[q] == w[q + shift]);
                    if entries[w[a]].depth == depth + 1 {
                        let c = choose|c: int| 0 <= c < kids.len() && kids[c] == w[a];
                        assert(parent_row(entries, kids[c]) == Some(y));
                        assert(w[0] == y);
                    } else {
                        let p = lemma_parent_in_visit(entries, kids, depth + 1, below, i);
                        assert(below[p] == w[p + 1]);
                    }
                    assert(false);
                }
            }
        }
    }
}

/// Two rows of the same directory, or of the top, stand in order once the rows were
/// re-sorted: directories first, then by the chosen key in the chosen direction, and
/// by path where that does not decide.
pub proof fn law_resorted_siblings_are_in_order(
    entries: Seq<DiffEntry>,
    sort_by: SortBy,
    sort_order: SortOrder,
    a: int,
    b: int,
)
    requires
        tree_shaped(entries),
        0 <= a < b < resorted(entries, sort_by, sort_order).len(),
        are_siblings(resorted(entries, sort_by, sort_order), a, b),
    ensures
        comes_before(
            entry_keys(resorted(entries, sort_by, sort_order), sort_by),
            sort_order == SortOrder::Desc,
            a,
            b,
        ),
{
    let keys = entry_keys(entries, sort_by);
    let descending = sort_order == SortOrder::Desc;
    let top = siblings(entries, keys, descending, None);
    let order = tree_order(entries, keys, descending);
    let now = resorted(entries, sort_by, sort_order);
    law_tree_order_is_a_rearrangement(entries, keys, descending);
    lemma_siblings(entries, keys, descending, None);
    assert forall|k: int| 0 <= k < top.len() implies -1 < #[trigger] top[k] < entries.len()
        && entries[top[k]].depth == 0 by {
        lemma_parent_in_tree(entries, top[k]);
    }
    lemma_rows_below(entries, None, entries.len() as int);
    law_arranged_is_ordered_rearrangement(
        keys,
        descending,
        rows_below(entries, None, entries.len() as int),
    );
    lemma_forest_in_order(entries, keys, descending, -1, top, 0);
    assert(in_order_at(entries, keys, descending, order, a, b));
    assert(now[a] == entries[order[a]] && now[b] == entries[order[b]]);
    lemma_parent_in_tree(entries, order[a]);
    lemma_parent_in_tree(entries, order[b]);
    if now[a].depth == 0 {
        if now[b].depth > 0 {
            let p = choose|p: int| #[trigger] is_parent_row(now, p, a) && is_parent_row(now, p, b);
            assert(false);
        }
    } else {
        let p = choose|p: int| #[trigger] is_parent_row(now, p, a) && is_parent_row(now, p, b);
        let q = law_resorting_keeps_every_parent(entries, sort_by, sort_order, a);
        let r = law_resorting_keeps_every_parent(entries, sort_by, sort_order, b);
        lemma_one_parent(now, p, q, a);
        lemma_one_parent(now, p, r, b);
        lemma_one_parent(entries, order[p], parent_row(entries, order[a])->0, order[a]);
        lemma_one_parent(entries, order[p], parent_row(entries, order[b])->0, order[b]);
    }
    let fresh = entry_keys(now, sort_by);
    assert(fresh[a] == keys[order[a]] && fresh[b] == keys[order[b]]);
}

/// A row has one parent.
proof fn lemma_one_parent(rows: Seq<DiffEntry>, p: int, q: int, j: int)
    requires
        is_parent_row(rows, p, j),
        is_parent_row(rows, q, j),
    ensures
        p == q,
{
    if p < q {
        assert(rows[q].depth >= rows[j].depth);
    } else if q < p {
        assert(rows[p].depth >= rows[j].depth);
    }
}

/// Whether all rows with the same parent stand in order already.
spec fn is_sorted(entries: Seq<DiffEntry>, keys: Seq<Key>, descending: bool) -> bool {
    forall|a: int, b: int|
        0 <= a < b < entries.len() && #[trigger] parent_row(entries, a) == #[trigger] parent_row(
            entries,
            b,
        ) ==> comes_before(keys, descending, a, b)
}

spec fn increases(list: Seq<int>) -> bool {
    forall|i: int, j: int| 0 <= i < j < list.len() ==> #[trigger] list[i] < #[trigger] list[j]
}

/// Arranging what is in order changes nothing.
proof fn lemma_arranged_stays(keys: Seq<Key>, descending: bool, list: Seq<int>)
    requires
        in_order(keys, descending, list),
    ensures
        arranged(keys, descending, list) == list,
    decreases list.len(),
{
    if list.len() > 0 {
        let rest = list.drop_last();
        assert(in_order(keys, descending, rest)) by {
            assert forall|i: int, j: int| 0 <= i < j < rest.len() implies comes_before(
                keys,
                descending,
                #[trigger] rest[i],
                #[trigger] rest[j],
            ) by {
                assert(rest[i] == list[i] && rest[j] == list[j]);
            }
        }
        lemma_arranged_stays(keys, descending, rest);
        if rest.len() > 0 {
            assert(rest.last() == list[list.len() - 2]);
            assert(comes_before(keys, descending, list[list.len() - 2], list[list.len() - 1]));
        }
        assert(placed(keys, descending, rest, list.last()) == rest.push(list.last()));
        assert(rest.push(list.last()) =~= list);
    }
}

proof fn lemma_rows_below_increase(entries: Seq<DiffEntry>, parent: Option<int>, n: int)
    requires
        0 <= n <= entries.len(),
    ensures
        increases(rows_below(entries, parent, n)),
    decreases n,
{
    if n > 0 {
        lemma_rows_below_increase(entries, parent, n - 1);
        lemma_rows_below(entries, parent, n - 1);
        let before = rows_below(entries, parent, n - 1);
        let all = rows_below(entries, parent, n);
        assert forall|i: int, j: int| 0 <= i < j < all.len() implies #[trigger] all[i]
            < #[trigger] all[j] by {
            assert(all[i] == before[i]);
            if j < before.len() {
                assert(all[j] == before[j]);
            }
        }
    }
}

/// Siblings that are in order come out as they stand.
proof fn lemma_siblings_stay(
    entries: Seq<DiffEntry>,
    keys: Seq<Key>,
    descending: bool,
    parent: Option<int>,
)
    requires
        is_sorted(entries, keys, descending),
    ensures
        increases(siblings(entries, keys, descending, parent)),
{
    let n = entries.len() as int;
    let rows = rows_below(entries, parent, n);
    lemma_rows_below(entries, parent, n);
    lemma_rows_below_increase(entries, parent, n);
    assert forall|i: int, j: int| 0 <= i < j < rows.len() implies comes_before(
        keys,
        descending,
        #[trigger] rows[i],
        #[trigger] rows[j],
    ) by {
        assert(rows[i] < rows[j]);
        assert(parent_row(entries, rows[i]) == parent_row(entries, rows[j]));
    }
    lemma_arranged_stays(keys, descending, rows);
}

/// Every row of a visit is one of the list or below one.
proof fn lemma_visit_inside(
    entries: Seq<DiffEntry>,
    list: Seq<int>,
    depth: int,
    w: Seq<int>,
    k: int,
) -> (c: int)
    requires
        tree_shaped(entries),
        forall|m: int| 0 <= m < w.len() ==> #[trigger] is_placed(entries, list, depth, w, m),
        0 <= k < w.len(),
    ensures
        0 <= c < list.len(),
        w[k] == list[c] || is_inside(entries, list[c], w[k]),
    decreases k,
{
    assert(is_placed(entries, list, depth, w, k));
    if entries[w[k]].depth == depth {
        choose|c: int| 0 <= c < list.len() && list[c] == w[k]
    } else {
        let q = lemma_parent_in_visit(entries, list, depth, w, k);
        let c = lemma_visit_inside(entries, list, depth, w, q);
        lemma_parent_in_tree(entries, w[k]);
        assert(is_parent_row(entries, w[q], w[k]));
        c
    }
}

/// A visit of siblings that are all in order goes through the rows as they stand.
proof fn lemma_forest_increases(
    entries: Seq<DiffEntry>,
    keys: Seq<Key>,
    descending: bool,
    low: int,
    list: Seq<int>,
    depth: int,
)
    requires
        tree_shaped(entries),
        is_sorted(entries, keys, descending),
        -1 <= low,
        increases(list),
        forall|k: int|
            0 <= k < list.len() ==> low < #[trigger] list[k] < entries.len()
                && entries[list[k]].depth == depth,
    ensures
        increases(forest(entries, keys, descending, low, list)),
    decreases entries.len() - low, list.len(),
{
    let w = forest(entries, keys, descending, low, list);
    if list.len() > 0 {
        let y = list[0];
        let rest = list.skip(1);
        let kids = siblings(entries, keys, descending, Some(y));
        assert(low < list[0] < entries.len());
        lemma_siblings(entries, keys, descending, Some(y));
        lemma_siblings_stay(entries, keys, descending, Some(y));
        assert forall|k: int| 0 <= k < kids.len() implies y < #[trigger] kids[k] < entries.len()
            && entries[kids[k]].depth == depth + 1 by {
            lemma_parent_is_earlier(entries, kids[k]);
            lemma_parent_in_tree(entries, kids[k]);
        }
        assert forall|k: int| 0 <= k < rest.len() implies low < #[trigger] rest[k] < entries.len()
            && entries[rest[k]].depth == depth by {
            assert(rest[k] == list[k + 1]);
        }
        assert(increases(rest)) by {
            assert forall|i: int, j: int| 0 <= i < j < rest.len() implies #[trigger] rest[i]
                < #[trigger] rest[j] by {
                assert(rest[i] == list[i + 1] && rest[j] == list[j + 1]);
            }
        }
        let below = forest(entries, keys, descending, y, kids);
        let after = forest(entries, keys, descending, low, rest);
        assert(w == seq![y] + below + after);
        lemma_forest_increases(entries, keys, descending, y, kids, depth + 1);
        lemma_forest_increases(entries, keys, descending, low, rest, depth);
        lemma_forest_is_placed(entries, keys, descending, y, kids, depth + 1);
        lemma_forest_is_placed(entries, keys, descending, low, rest, depth);
        let shift = 1 + below.len() as int;
        assert forall|k: int| 0 <= k < below.len() implies is_inside(entries, y, #[trigger] below[k]) by {
            let c = lemma_visit_inside(entries, kids, depth + 1, below, k);
            lemma_parent_in_tree(entries, kids[c]);
            assert(is_parent_row(entries, y, kids[c]));
        }
        assert forall|k: int| 0 <= k < after.len() implies after.len() > 0 && rest.len() > 0
            && rest[0] <= #[trigger] after[k] by {
            let c = lemma_visit_inside(entries, rest, depth, after, k);
            if c > 0 {
                assert(rest[0] < rest[c]);
            }
        }
        assert forall|i: int, j: int| 0 <= i < j < w.len() implies #[trigger] w[i]
            < #[trigger] w[j] by {
            if shift <= i {
                assert(w[i] == after[i - shift] && w[j] == after[j - shift]);
            } else if j < shift {
                assert(w[j] == below[j - 1]);
                if i > 0 {
                    assert(w[i] == below[i - 1]);
                }
            } else {
                assert(w[j] == after[j - shift]);
                assert(rest[0] == list[1]);
                assert(list[0] < list[1]);
                if i > 0 {
                    assert(w[i] == below[i - 1]);
                    if below[i - 1] >= rest[0] {
                        assert(entries[rest[0]].depth > entries[y].depth);
                    }
                }
            }
        }
    }
}

/// Places that increase, and are as many as the rows, are those of all rows in turn.
proof fn lemma_all_in_turn(w: Seq<int>, k: int)
    requires
        increases(w),
        forall|m: int| 0 <= m < w.len() ==> 0 <= #[trigger] w[m] < w.len(),
        0 <= k < w.len(),
    ensures
        w[k] == k,
{
    lemma_not_before(w, k);
    lemma_not_behind(w, k);
}

proof fn lemma_not_before(w: Seq<int>, k: int)
    requires
        increases(w),
        forall|m: int| 0 <= m < w.len() ==> 0 <= #[trigger] w[m] < w.len(),
        0 <= k < w.len(),
    ensures
        w[k] >= k,
    decreases k,
{
    if k > 0 {
        lemma_not_before(w, k - 1);
        assert(w[k - 1] < w[k]);
    }
}

proof fn lemma_not_behind(w: Seq<int>, k: int)
    requires
        increases(w),
        forall|m: int| 0 <= m < w.len() ==> 0 <= #[trigger] w[m] < w.len(),
        0 <= k < w.len(),
    ensures
        w[k] <= k,
    decreases w.len() - k,
{
    if k < w.len() - 1 {
        lemma_not_behind(w, k + 1);
        assert(w[k] < w[k + 1]);
    }
}

/// Sorting again what was just sorted changes nothing.
pub proof fn law_resorting_twice_is_resorting_once(
    entries: Seq<DiffEntry>,
    sort_by: SortBy,
    sort_order: SortOrder,
)
    requires
        tree_shaped(entries),
    ensures
        resorted(resorted(entries, sort_by, sort_order), sort_by, sort_order) == resorted(
            entries,
            sort_by,
            sort_order,
        ),
{
    let now = resorted(entries, sort_by, sort_order);
    let keys = entry_keys(now, sort_by);
    let descending = sort_order == SortOrder::Desc;
    let top = siblings(now, keys, descending, None);
    let order = tree_order(now, keys, descending);
    law_resorting_keeps_the_tree(entries, sort_by, sort_order);
    assert forall|a: int, b: int|
        0 <= a < b < now.len() && #[trigger] parent_row(now, a) == #[trigger] parent_row(
            now,
            b,
        ) implies comes_before(keys, descending, a, b) by {
        lemma_parent_in_tree(now, a);
        lemma_parent_in_tree(now, b);
        if now[a].depth > 0 {
            let p = parent_row(now, a)->0;
            assert(is_parent_row(now, p, a) && is_parent_row(now, p, b));
        }
        law_resorted_siblings_are_in_order(entries, sort_by, sort_order, a, b);
    }
    lemma_siblings(now, keys, descending, None);
    lemma_siblings_stay(now, keys, descending, None);
    assert forall|k: int| 0 <= k < top.len() implies -1 < #[trigger] top[k] < now.len()
        && now[top[k]].depth == 0 by {
        lemma_parent_in_tree(now, top[k]);
    }
    lemma_forest_increases(now, keys, descending, -1, top, 0);
    law_tree_order_is_a_rearrangement(now, keys, descending);
    let again = resorted(now, sort_by, sort_order);
    assert forall|k: int| 0 <= k < now.len() implies #[trigger] again[k] == now[k] by {
        lemma_all_in_turn(order, k);
    }
    assert(again =~= now);
}

} // verus!
