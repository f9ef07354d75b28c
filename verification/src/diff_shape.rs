//! The shape of the rows of a comparison: a tree, each row behind the directory
//! that holds it. The operations on the rows keep it.

use crate::diff_fold::{is_child_row, rows_loaded, rows_read, sorted_children, LoadedChild};
use crate::diff_state::{
    is_ancestor, is_hidden, is_shown, leads_to_match, lemma_ancestor_transitive, subtree_end,
};
use crate::diff_types::{DiffEntry, DiffFilter};
use vstd::prelude::*;

verus! {

/// Whether row `p` is the directory that holds row `j`: one level up, above it by
/// path, and with nothing between them but rows that it holds.
pub open spec fn is_parent_row(entries: Seq<DiffEntry>, p: int, j: int) -> bool {
    &&& 0 <= p < j < entries.len()
    &&& entries[p].is_directory
    &&& entries[p].depth + 1 == entries[j].depth
    &&& forall|m: int| p < m < j ==> (#[trigger] entries[m]).depth >= entries[j].depth
    &&& entries[p].relative_path@.len() > 0 ==> is_ancestor(
        entries[p].relative_path@,
        entries[j].relative_path@,
    )
}

/// Whether row `j` stands at the top, `base` levels deep, or behind its directory.
pub open spec fn has_place(entries: Seq<DiffEntry>, base: nat, j: int) -> bool {
    &&& entries[j].depth >= base
    &&& entries[j].depth > base ==> exists|p: int| is_parent_row(entries, p, j)
}

/// Whether the rows form a tree whose top is `base` levels deep.
pub open spec fn tree_shaped_from(entries: Seq<DiffEntry>, base: nat) -> bool {
    forall|j: int| 0 <= j < entries.len() ==> #[trigger] has_place(entries, base, j)
}

/// Whether the rows form a tree.
pub open spec fn tree_shaped(entries: Seq<DiffEntry>) -> bool {
    tree_shaped_from(entries, 0)
}

/// Whether row `j` is one of the rows below row `i`.
pub open spec fn is_inside(entries: Seq<DiffEntry>, i: int, j: int) -> bool {
    &&& 0 <= i < j < entries.len()
    &&& forall|m: int| i < m <= j ==> (#[trigger] entries[m]).depth > entries[i].depth
}

/// Whether two lists of rows have the same paths and depths, and what is a directory
/// in the first is one in the second.
pub open spec fn same_shape(a: Seq<DiffEntry>, b: Seq<DiffEntry>) -> bool {
    &&& a.len() == b.len()
    &&& forall|i: int|
        0 <= i < a.len() ==> {
            let was = #[trigger] a[i];
            b[i].relative_path@ == was.relative_path@ && b[i].depth == was.depth && (
            was.is_directory ==> b[i].is_directory)
        }
}

/// Only paths, depths and directories matter.
pub proof fn lemma_same_shape(a: Seq<DiffEntry>, b: Seq<DiffEntry>, base: nat)
    requires
        same_shape(a, b),
        tree_shaped_from(a, base),
    ensures
        tree_shaped_from(b, base),
{
    assert forall|j: int| 0 <= j < b.len() implies #[trigger] has_place(b, base, j) by {
        assert(has_place(a, base, j));
        assert(a[j].depth == b[j].depth);
        if a[j].depth > base {
            let p = choose|p: int| is_parent_row(a, p, j);
            assert(a[p].depth == b[p].depth);
            assert forall|m: int| p < m < j implies (#[trigger] b[m]).depth >= b[j].depth by {
                assert(a[m].depth == b[m].depth);
            }
            assert(is_parent_row(b, p, j));
        }
    }
}

/// A row behind its directory, or at the top, keeps the tree.
pub proof fn lemma_push_shaped(entries: Seq<DiffEntry>, row: DiffEntry, base: nat, owner: Option<int>)
    requires
        tree_shaped_from(entries, base),
        match owner {
            None => row.depth == base,
            Some(o) => {
                &&& 0 <= o < entries.len()
                &&& entries[o].is_directory
                &&& entries[o].depth + 1 == row.depth
                &&& forall|m: int|
                    o < m < entries.len() ==> (#[trigger] entries[m]).depth >= row.depth
                &&& entries[o].relative_path@.len() > 0 ==> is_ancestor(
                    entries[o].relative_path@,
                    row.relative_path@,
                )
            },
        },
    ensures
        tree_shaped_from(entries.push(row), base),
{
    let now = entries.push(row);
    assert forall|j: int| 0 <= j < now.len() implies #[trigger] has_place(now, base, j) by {
        if j < entries.len() {
            assert(has_place(entries, base, j));
            if entries[j].depth > base {
                let p = choose|p: int| is_parent_row(entries, p, j);
                assert forall|m: int| p < m < j implies (#[trigger] now[m]).depth >= now[j].depth by {
                    assert(now[m] == entries[m]);
                }
                assert(is_parent_row(now, p, j));
            }
        } else if let Some(o) = owner {
            assert(has_place(entries, base, o));
            assert forall|m: int| o < m < j implies (#[trigger] now[m]).depth >= now[j].depth by {
                assert(now[m] == entries[m]);
            }
            assert(is_parent_row(now, o, j));
        }
    }
}

proof fn lemma_inside_subtree(entries: Seq<DiffEntry>, i: int, from: int, m: int)
    requires
        0 <= i < from <= m < subtree_end(entries, i, from),
    ensures
        m < entries.len(),
        entries[m].depth > entries[i].depth,
    decreases m - from,
{
    if from < entries.len() && entries[from].depth > entries[i].depth && from < m {
        lemma_inside_subtree(entries, i, from + 1, m);
    }
}

/// The rows that the depths put below a directory lie below it by their paths.
pub proof fn law_subtree_lies_below(entries: Seq<DiffEntry>, i: int, j: int)
    requires
        tree_shaped(entries),
        0 <= i < j < subtree_end(entries, i, i + 1),
        forall|k: int| 0 <= k < entries.len() ==> (#[trigger] entries[k]).relative_path@.len() > 0,
    ensures
        j < entries.len(),
        is_ancestor(entries[i].relative_path@, entries[j].relative_path@),
    decreases j,
{
    lemma_inside_subtree(entries, i, i + 1, j);
    assert(has_place(entries, 0, j));
    let p = choose|p: int| is_parent_row(entries, p, j);
    assert(entries[p].relative_path@.len() > 0);
    if p < i {
        assert(entries[i].depth >= entries[j].depth);
    } else if p > i {
        law_subtree_lies_below(entries, i, p);
        lemma_ancestor_transitive(
            entries[i].relative_path@,
            entries[p].relative_path@,
            entries[j].relative_path@,
        );
    }
}

/// A row that is shown has its directory shown with it, whatever the filter.
pub proof fn law_shown_row_has_its_directory_shown(
    entries: Seq<DiffEntry>,
    filter: DiffFilter,
    collapsed: Set<Seq<char>>,
    p: int,
    j: int,
)
    requires
        is_parent_row(entries, p, j),
        entries[p].relative_path@.len() > 0,
        is_shown(entries, filter, collapsed, j),
    ensures
        is_shown(entries, filter, collapsed, p),
{
    let above = entries[p].relative_path@;
    let path = entries[j].relative_path@;
    if is_hidden(entries[p], collapsed) {
        let a = choose|a: Seq<char>| #[trigger] collapsed.contains(a) && is_ancestor(a, above);
        lemma_ancestor_transitive(a, above, path);
        assert(is_hidden(entries[j], collapsed));
    }
    if filter.admits(entries[j].status) {
        assert(leads_to_match(entries, filter, p));
    } else {
        let m = choose|m: int|
            0 <= m < entries.len() && filter.admits((#[trigger] entries[m]).status)
                && entries[m].depth > 0 && is_ancestor(path, entries[m].relative_path@);
        lemma_ancestor_transitive(above, path, entries[m].relative_path@);
        assert(leads_to_match(entries, filter, p));
    }
}

/// The rows with the part from `i` to `end` replaced.
pub open spec fn replaced(
    entries: Seq<DiffEntry>,
    i: int,
    end: int,
    rows: Seq<DiffEntry>,
) -> Seq<DiffEntry> {
    entries.take(i) + rows + entries.skip(end)
}

proof fn lemma_subtree_end_is_not_deeper(entries: Seq<DiffEntry>, i: int, from: int)
    requires
        0 <= i < from <= entries.len(),
    ensures
        from <= subtree_end(entries, i, from) <= entries.len(),
        subtree_end(entries, i, from) < entries.len() ==> entries[subtree_end(
            entries,
            i,
            from,
        )].depth <= entries[i].depth,
    decreases entries.len() - from,
{
    if from < entries.len() && entries[from].depth > entries[i].depth {
        lemma_subtree_end_is_not_deeper(entries, i, from + 1);
    }
}

/// Whether the rows can stand in the place of the subtree of row `i`: they are one
/// tree under the same path, or none at all.
pub open spec fn fits(entries: Seq<DiffEntry>, i: int, rows: Seq<DiffEntry>) -> bool {
    rows.len() > 0 ==> {
        &&& tree_shaped_from(rows, entries[i].depth as nat)
        &&& rows[0].depth == entries[i].depth
        &&& rows[0].relative_path@ == entries[i].relative_path@
        &&& forall|k: int| 0 < k < rows.len() ==> (#[trigger] rows[k]).depth > entries[i].depth
    }
}

/// Replacing a row and all that is below it by another tree under its path, or by
/// nothing, keeps the tree.
pub proof fn law_replacing_keeps_the_tree(entries: Seq<DiffEntry>, i: int, rows: Seq<DiffEntry>)
    requires
        tree_shaped(entries),
        0 <= i < entries.len(),
        fits(entries, i, rows),
    ensures
        tree_shaped(replaced(entries, i, subtree_end(entries, i, i + 1), rows)),
{
    let end = subtree_end(entries, i, i + 1);
    let now = replaced(entries, i, end, rows);
    let depth = entries[i].depth as int;
    let shift = rows.len() - (end - i);
    lemma_subtree_end_is_not_deeper(entries, i, i + 1);
    assert forall|m: int| 0 <= m < rows.len() implies (#[trigger] rows[m]).depth >= depth by {
        assert(has_place(rows, depth as nat, m));
    }
    assert forall|m: int| 0 <= m < i implies #[trigger] now[m] == entries[m] by {}
    assert forall|m: int| i <= m < i + rows.len() implies #[trigger] now[m] == rows[m - i] by {}
    assert forall|m: int| i + rows.len() <= m < now.len() implies #[trigger] now[m] == entries[m
        - shift] by {}
    assert forall|j: int| 0 <= j < now.len() implies #[trigger] has_place(now, 0, j) by {
        if now[j].depth > 0 {
            if j < i {
                assert(has_place(entries, 0, j));
                let p = choose|p: int| is_parent_row(entries, p, j);
                assert(is_parent_row(now, p, j));
            } else if j < i + rows.len() {
                let q = lemma_replacement_has_place(entries, i, rows, j - i);
                assert(is_parent_row(now, q, j));
            } else {
                let old_j = j - shift;
                assert(has_place(entries, 0, old_j));
                let p = choose|p: int| is_parent_row(entries, p, old_j);
                if i <= p < end {
                    if i < p {
                        lemma_inside_subtree(entries, i, i + 1, p);
                    }
                    assert(entries[end].depth <= depth);
                    if old_j > end {
                        assert(entries[end].depth >= entries[old_j].depth);
                    }
                    assert(false);
                }
                if p < i {
                    assert(entries[i].depth >= entries[old_j].depth);
                    assert forall|m: int| p < m < j implies (#[trigger] now[m]).depth
                        >= now[j].depth by {
                        if m < i {
                            assert(now[m] == entries[m]);
                        } else if m < i + rows.len() {
                            assert(now[m] == rows[m - i]);
                        } else {
                            assert(now[m] == entries[m - shift]);
                        }
                    }
                    assert(is_parent_row(now, p, j));
                } else {
                    let q = p + shift;
                    assert forall|m: int| q < m < j implies (#[trigger] now[m]).depth
                        >= now[j].depth by {
                        assert(now[m] == entries[m - shift]);
                    }
                    assert(now[q] == entries[p]);
                    assert(is_parent_row(now, q, j));
                }
            }
        }
    }
}

proof fn lemma_replacement_has_place(
    entries: Seq<DiffEntry>,
    i: int,
    rows: Seq<DiffEntry>,
    k: int,
) -> (q: int)
    requires
        tree_shaped(entries),
        0 <= i < entries.len(),
        fits(entries, i, rows),
        0 <= k < rows.len(),
        rows[k].depth > 0,
    ensures
        is_parent_row(replaced(entries, i, subtree_end(entries, i, i + 1), rows), q, i + k),
{
    let now = replaced(entries, i, subtree_end(entries, i, i + 1), rows);
    let depth = entries[i].depth as int;
    lemma_subtree_end_is_not_deeper(entries, i, i + 1);
    assert(now[i + k] == rows[k]);
    if k == 0 {
        assert(has_place(entries, 0, i));
        let p = choose|p: int| is_parent_row(entries, p, i);
        assert(now[p] == entries[p]);
        assert forall|m: int| p < m < i implies (#[trigger] now[m]).depth >= now[i].depth by {
            assert(now[m] == entries[m]);
        }
        p
    } else {
        assert(rows[k].depth > depth);
        assert(has_place(rows, depth as nat, k));
        let p = choose|p: int| is_parent_row(rows, p, k);
        assert(now[i + p] == rows[p]);
        assert forall|m: int| i + p < m < i + k implies (#[trigger] now[m]).depth
            >= now[i + k].depth by {
            assert(now[m] == rows[m - i]);
        }
        i + p
    }
}

/// Reading in the children of a directory keeps the tree.
pub proof fn law_loading_keeps_the_tree(
    was: Seq<DiffEntry>,
    now: Seq<DiffEntry>,
    at: int,
    children: Seq<LoadedChild>,
)
    requires
        tree_shaped(was),
        0 <= at < was.len(),
        was[at].is_directory,
        rows_loaded(was, now, at, children),
    ensures
        tree_shaped(now),
{
    let count = sorted_children(children).len() as int;
    let rows = rows_read(now, at, children);
    let depth = was[at].depth as int;
    assert forall|m: int| 0 <= m < at implies #[trigger] now[m] == was[m] by {}
    assert(now[at].depth == depth && now[at].relative_path == was[at].relative_path
        && now[at].is_directory);
    assert forall|m: int| at < m <= at + count implies {
        let row = #[trigger] now[m];
        row.depth == depth + 1 && is_ancestor(was[at].relative_path@, row.relative_path@)
    } by {
        let row = rows[m - at - 1];
        assert(row == now[m]);
        assert(is_child_row(was[at], children[sorted_children(children)[m - at - 1]], row));
        let name = children[sorted_children(children)[m - at - 1]].name@;
        let path = was[at].relative_path@;
        assert(row.relative_path@ == path + seq!['/'] + name);
        assert(row.relative_path@.take(path.len() as int) =~= path);
    }
    assert forall|m: int| at + count < m < now.len() implies #[trigger] now[m] == was[m - count] by {}
    assert forall|j: int| 0 <= j < now.len() implies #[trigger] has_place(now, 0, j) by {
        if now[j].depth > 0 {
            if at < j <= at + count {
                assert(is_parent_row(now, at, j));
            } else {
                let old_j = if j <= at { j } else { j - count };
                assert(now[j].depth == was[old_j].depth);
                assert(has_place(was, 0, old_j));
                let p = choose|p: int| is_parent_row(was, p, old_j);
                let q = if p <= at { p } else { p + count };
                assert(now[q].depth == was[p].depth);
                assert forall|m: int| q < m < j implies (#[trigger] now[m]).depth >= now[j].depth by {
                    if m < at {
                        assert(now[m] == was[m]);
                    } else if at < m <= at + count {
                        assert(p <= at);
                        assert(p < at ==> was[at].depth >= was[old_j].depth);
                    } else if m > at + count {
                        assert(now[m] == was[m - count]);
                    }
                }
                assert(is_parent_row(now, q, j));
            }
        }
    }
}

} // verus!
