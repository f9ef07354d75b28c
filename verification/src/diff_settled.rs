//! What a directory of both sides tells of the rows below it, once a part of the
//! comparison was refreshed.

use crate::diff_ancestors::{
    after_ancestors, ancestor_error, ancestors, ancestors_error, first_row,
    law_looking_again_keeps_the_rows, lemma_first_row, refreshed_row, PairFacts,
};
use crate::diff_build_run::{
    is_settled, is_two_sided_directory, law_directory_is_modified_where_something_below_differs,
    some_differs, BuildRun,
};
use crate::diff_fold::{is_child_row, rows_loaded, rows_read, sorted_children, LoadedChild};
use crate::diff_shape::{
    fits, has_place, is_inside, law_replacing_keeps_the_tree, law_subtree_lies_below, replaced,
    tree_shaped,
};
use crate::diff_state::{is_ancestor, subtree_end};
use crate::diff_tree::{
    entry_keys, law_resorting_keeps_every_parent, law_tree_order_is_a_rearrangement, resorted,
    tree_order,
};
use crate::diff_types::{differs, CompareMethod, DiffEntry};
use crate::paths::{lemma_last_position, parent_key};
use crate::sorting::{SortBy, SortOrder};
use crate::text::last_position;
use vstd::prelude::*;

verus! {

/// Whether every directory of both sides tells of the rows below it.
pub open spec fn all_settled(entries: Seq<DiffEntry>) -> bool {
    forall|d: int|
        0 <= d < entries.len() && is_two_sided_directory(#[trigger] entries[d]) ==> is_settled(
            entries,
            d,
        )
}

/// Whether every directory of both sides tells of the rows below it, but for those
/// at the paths.
pub open spec fn settled_but_at(entries: Seq<DiffEntry>, paths: Seq<Seq<char>>) -> bool {
    forall|d: int|
        0 <= d < entries.len() && is_two_sided_directory(#[trigger] entries[d])
            && !paths.contains(entries[d].relative_path@) ==> is_settled(entries, d)
}

/// Whether every row has a path, and no two have the same.
pub open spec fn paths_differ(entries: Seq<DiffEntry>) -> bool {
    &&& forall|k: int| 0 <= k < entries.len() ==> (#[trigger] entries[k]).relative_path@.len() > 0
    &&& forall|a: int, b: int|
        0 <= a < b < entries.len() ==> (#[trigger] entries[a]).relative_path@ != (
        #[trigger] entries[b]).relative_path@
}

/// The rows below a row reach as far in another list that holds them `shift` further
/// on, and end there too.
proof fn lemma_subtree_end_shifted(
    a: Seq<DiffEntry>,
    i: int,
    from: int,
    stop: int,
    b: Seq<DiffEntry>,
    shift: int,
)
    requires
        0 <= i < from <= stop <= a.len(),
        0 <= i + shift,
        stop + shift <= b.len(),
        a[i].depth == b[i + shift].depth,
        forall|m: int| from <= m < stop ==> (#[trigger] a[m]).depth == b[m + shift].depth,
        stop < a.len() ==> a[stop].depth <= a[i].depth,
        stop + shift < b.len() ==> b[stop + shift].depth <= a[i].depth,
    ensures
        subtree_end(b, i + shift, from + shift) == subtree_end(a, i, from) + shift,
        subtree_end(a, i, from) <= stop,
    decreases stop - from,
{
    if from < stop {
        assert(a[from].depth == b[from + shift].depth);
        if a[from].depth > a[i].depth {
            lemma_subtree_end_shifted(a, i, from + 1, stop, b, shift);
        }
    }
}

/// A directory says of the same rows the same, wherever they stand.
proof fn lemma_settled_shifted(
    a: Seq<DiffEntry>,
    i: int,
    stop: int,
    b: Seq<DiffEntry>,
    shift: int,
)
    requires
        0 <= i < stop <= a.len(),
        0 <= i + shift,
        stop + shift <= b.len(),
        forall|m: int| i <= m < stop ==> #[trigger] a[m] == b[m + shift],
        stop < a.len() ==> a[stop].depth <= a[i].depth,
        stop + shift < b.len() ==> b[stop + shift].depth <= a[i].depth,
        is_settled(a, i),
    ensures
        is_settled(b, i + shift),
{
    assert(a[i] == b[i + shift]);
    assert forall|m: int| i + 1 <= m < stop implies (#[trigger] a[m]).depth == b[m + shift].depth by {
        assert(a[m] == b[m + shift]);
    }
    lemma_subtree_end_shifted(a, i, i + 1, stop, b, shift);
    let end = subtree_end(a, i, i + 1);
    if some_differs(a, i + 1, end) {
        let j = choose|j: int| i + 1 <= j < end && differs((#[trigger] a[j]).status);
        assert(a[j] == b[j + shift]);
        assert(differs(b[j + shift].status));
    }
    if some_differs(b, i + shift + 1, end + shift) {
        let j = choose|j: int|
            i + shift + 1 <= j < end + shift && differs((#[trigger] b[j]).status);
        assert(a[j - shift] == b[j]);
        assert(differs(a[j - shift].status));
    }
}

proof fn lemma_subtree_ends(entries: Seq<DiffEntry>, i: int, from: int)
    requires
        0 <= i < from <= entries.len(),
    ensures
        from <= subtree_end(entries, i, from) <= entries.len(),
        subtree_end(entries, i, from) < entries.len() ==> entries[subtree_end(
            entries,
            i,
            from,
        )].depth <= entries[i].depth,
    decreases entries.len() - from,
{
    if from < entries.len() && entries[from].depth > entries[i].depth {
        lemma_subtree_ends(entries, i, from + 1);
    }
}

/// All directories above a path are among its ancestors.
proof fn lemma_ancestors_hold(path: Seq<char>, above: Seq<char>)
    requires
        is_ancestor(above, path),
    ensures
        ancestors(path).contains(above),
    decreases path.len(),
{
    lemma_last_position(path, '/');
    let slash = last_position(path, '/');
    assert(slash >= above.len());
    let parent = path.take(slash);
    assert(parent_key(path) == Some(parent));
    let all = ancestors(path);
    assert(all == seq![parent] + ancestors(parent));
    if slash == above.len() {
        assert(all[0] == above);
    } else {
        assert(parent.take(above.len() as int) =~= path.take(above.len() as int));
        lemma_ancestors_hold(parent, above);
        let k = choose|k: int| 0 <= k < ancestors(parent).len() && ancestors(parent)[k] == above;
        assert(all[k + 1] == above);
    }
}

/// The ancestors of an ancestor come behind it.
proof fn lemma_later_ancestors(path: Seq<char>, k: int)
    requires
        0 <= k < ancestors(path).len(),
    ensures
        ancestors(ancestors(path)[k]) == ancestors(path).skip(k + 1),
    decreases k,
{
    lemma_last_position(path, '/');
    let parent = path.take(last_position(path, '/'));
    assert(ancestors(path) == seq![parent] + ancestors(parent));
    if k == 0 {
        assert(ancestors(path).skip(1) =~= ancestors(parent));
    } else {
        lemma_later_ancestors(parent, k - 1);
        assert(ancestors(path)[k] == ancestors(parent)[k - 1]);
        assert(ancestors(path).skip(k + 1) =~= ancestors(parent).skip(k));
    }
}

/// A directory before the replaced rows, and not above them, tells what it told.
proof fn lemma_settled_before(
    entries: Seq<DiffEntry>,
    i: int,
    end: int,
    rows: Seq<DiffEntry>,
    d: int,
)
    requires
        0 <= d < i < end <= entries.len(),
        subtree_end(entries, d, d + 1) <= i,
        rows.len() > 0 ==> rows[0].depth == entries[i].depth,
        end < entries.len() ==> entries[end].depth <= entries[i].depth,
        is_settled(entries, d),
    ensures
        is_settled(replaced(entries, i, end, rows), d),
{
    let now = replaced(entries, i, end, rows);
    let stop = subtree_end(entries, d, d + 1);
    lemma_subtree_ends(entries, d, d + 1);
    assert forall|m: int| d <= m < stop implies #[trigger] entries[m] == now[m + 0] by {}
    if stop < now.len() {
        if stop < i {
            assert(now[stop] == entries[stop]);
        } else if rows.len() > 0 {
            assert(now[i] == rows[0]);
        } else {
            assert(now[i] == entries[end]);
        }
    }
    lemma_settled_shifted(entries, d, stop, now, 0);
}

/// A directory among the rows that were put in tells what it told.
proof fn lemma_settled_inside(
    entries: Seq<DiffEntry>,
    i: int,
    end: int,
    rows: Seq<DiffEntry>,
    k: int,
)
    requires
        0 <= i < end <= entries.len(),
        0 <= k < rows.len(),
        rows[k].depth >= entries[i].depth,
        end < entries.len() ==> entries[end].depth <= entries[i].depth,
        is_settled(rows, k),
    ensures
        is_settled(replaced(entries, i, end, rows), i + k),
{
    let now = replaced(entries, i, end, rows);
    let stop = subtree_end(rows, k, k + 1);
    lemma_subtree_ends(rows, k, k + 1);
    assert forall|m: int| k <= m < stop implies #[trigger] rows[m] == now[m + i] by {}
    if stop + i < now.len() {
        if stop < rows.len() {
            assert(now[stop + i] == rows[stop]);
        } else {
            assert(now[stop + i] == entries[end]);
        }
    }
    lemma_settled_shifted(rows, k, stop, now, i);
}

/// A directory behind the replaced rows tells what it told.
proof fn lemma_settled_behind(
    entries: Seq<DiffEntry>,
    i: int,
    end: int,
    rows: Seq<DiffEntry>,
    was: int,
)
    requires
        0 <= i < end <= was < entries.len(),
        is_settled(entries, was),
    ensures
        is_settled(replaced(entries, i, end, rows), was + rows.len() - (end - i)),
{
    let now = replaced(entries, i, end, rows);
    let shift = rows.len() - (end - i);
    let stop = subtree_end(entries, was, was + 1);
    lemma_subtree_ends(entries, was, was + 1);
    assert forall|m: int| was <= m < stop implies #[trigger] entries[m] == now[m + shift] by {}
    if stop + shift < now.len() {
        assert(now[stop + shift] == entries[stop]);
    }
    lemma_settled_shifted(entries, was, stop, now, shift);
}

/// The rows below a row that is not above row `i` end before it.
proof fn lemma_ends_before(entries: Seq<DiffEntry>, d: int, i: int)
    requires
        tree_shaped(entries),
        paths_differ(entries),
        0 <= d < i < entries.len(),
        !ancestors(entries[i].relative_path@).contains(entries[d].relative_path@),
    ensures
        subtree_end(entries, d, d + 1) <= i,
{
    if subtree_end(entries, d, d + 1) > i {
        law_subtree_lies_below(entries, d, i);
        lemma_ancestors_hold(entries[i].relative_path@, entries[d].relative_path@);
    }
}

/// Replacing a row and all below it leaves every directory telling of the rows below
/// it, but for those above the row.
pub proof fn law_replacing_unsettles_only_what_is_above(
    entries: Seq<DiffEntry>,
    i: int,
    rows: Seq<DiffEntry>,
)
    requires
        tree_shaped(entries),
        paths_differ(entries),
        all_settled(entries),
        0 <= i < entries.len(),
        fits(entries, i, rows),
        all_settled(rows),
    ensures
        settled_but_at(
            replaced(entries, i, subtree_end(entries, i, i + 1), rows),
            ancestors(entries[i].relative_path@),
        ),
{
    let end = subtree_end(entries, i, i + 1);
    let now = replaced(entries, i, end, rows);
    let path = entries[i].relative_path@;
    let shift = rows.len() - (end - i);
    lemma_subtree_ends(entries, i, i + 1);
    assert forall|d: int|
        0 <= d < now.len() && is_two_sided_directory(#[trigger] now[d]) && !ancestors(path).contains(
            now[d].relative_path@,
        ) implies is_settled(now, d) by {
        if d < i {
            assert(now[d] == entries[d]);
            lemma_ends_before(entries, d, i);
            lemma_settled_before(entries, i, end, rows, d);
        } else if d < i + rows.len() {
            assert(now[d] == rows[d - i]);
            assert(has_place(rows, entries[i].depth as nat, d - i));
            lemma_settled_inside(entries, i, end, rows, d - i);
        } else {
            assert(now[d] == entries[d - shift]);
            lemma_settled_behind(entries, i, end, rows, d - shift);
        }
    }
}

/// A directory that was looked at again tells of the rows below it, and the others
/// tell what they told unless they are above it.
proof fn lemma_one_refreshed(
    entries: Seq<DiffEntry>,
    i: int,
    facts: PairFacts,
    method: CompareMethod,
    d: int,
)
    requires
        0 <= i < entries.len(),
        0 <= d < entries.len(),
        d == i || (is_settled(entries, d) && !(d < i < subtree_end(entries, d, d + 1))),
        is_two_sided_directory(entries.update(i, refreshed_row(entries, i, facts, method))[d]),
    ensures
        is_settled(entries.update(i, refreshed_row(entries, i, facts, method)), d),
{
    let now = entries.update(i, refreshed_row(entries, i, facts, method));
    let stop = subtree_end(entries, d, d + 1);
    lemma_subtree_ends(entries, d, d + 1);
    if d != i {
        assert forall|m: int| d <= m < stop implies #[trigger] entries[m] == now[m + 0] by {}
        lemma_settled_shifted(entries, d, stop, now, 0);
    } else {
        lemma_subtree_end_shifted(entries, i, i + 1, stop, now, 0);
        if some_differs(entries, i + 1, stop) {
            let j = choose|j: int| i + 1 <= j < stop && differs((#[trigger] entries[j]).status);
            assert(differs(now[j].status));
        }
        if some_differs(now, i + 1, stop) {
            let j = choose|j: int| i + 1 <= j < stop && differs((#[trigger] now[j]).status);
            assert(differs(entries[j].status));
        }
    }
}

/// A row that stands below row `d` lies below it by path.
proof fn lemma_above_is_ancestor(
    entries: Seq<DiffEntry>,
    now: Seq<DiffEntry>,
    d: int,
    i: int,
)
    requires
        tree_shaped(entries),
        paths_differ(entries),
        now.len() == entries.len(),
        forall|k: int| 0 <= k < entries.len() ==> (#[trigger] now[k]).depth == entries[k].depth,
        0 <= d < i < subtree_end(now, d, d + 1),
    ensures
        i < entries.len(),
        is_ancestor(entries[d].relative_path@, entries[i].relative_path@),
{
    lemma_subtree_ends(now, d, d + 1);
    lemma_subtree_end_shifted(now, d, d + 1, now.len() as int, entries, 0);
    law_subtree_lies_below(entries, d, i);
}

proof fn lemma_settled_up_to(
    entries: Seq<DiffEntry>,
    path: Seq<char>,
    facts: Seq<PairFacts>,
    method: CompareMethod,
    allow_creation: bool,
    n: int,
)
    requires
        tree_shaped(entries),
        paths_differ(entries),
        settled_but_at(entries, ancestors(path)),
        0 <= n <= ancestors(path).len(),
        ancestors_error(entries, ancestors(path), facts, method, allow_creation, n) is None,
    ensures
        settled_but_at(
            after_ancestors(entries, ancestors(path), facts, method, n),
            ancestors(path).skip(n),
        ),
    decreases n,
{
    let keys = ancestors(path);
    if n == 0 {
        assert(keys.skip(0) =~= keys);
    } else {
        let before = after_ancestors(entries, keys, facts, method, n - 1);
        let after = after_ancestors(entries, keys, facts, method, n);
        let key = keys[n - 1];
        lemma_settled_up_to(entries, path, facts, method, allow_creation, n - 1);
        law_looking_again_keeps_the_rows(entries, keys, facts, method, n - 1);
        lemma_first_row(before, key, 0);
        let i = first_row(before, key, 0)->0;
        assert(ancestor_error(before, key, facts[n - 1], allow_creation) is None);
        assert(before[i].relative_path == entries[i].relative_path);
        assert(after == before.update(i, refreshed_row(before, i, facts[n - 1], method)));
        assert forall|d: int|
            0 <= d < after.len() && is_two_sided_directory(#[trigger] after[d]) && !keys.skip(
                n,
            ).contains(after[d].relative_path@) implies is_settled(after, d) by {
            if d != i {
                assert(after[d] == before[d]);
                assert(before[d].relative_path == entries[d].relative_path);
                assert(entries[d].relative_path@ != key) by {
                    assert(entries[i].relative_path@ == key);
                    assert(d < i || i < d);
                }
                assert(!keys.skip(n - 1).contains(before[d].relative_path@)) by {
                    lemma_not_later(keys, n - 1, before[d].relative_path@);
                }
                assert(is_settled(before, d));
                if d < i < subtree_end(before, d, d + 1) {
                    lemma_above_is_ancestor(entries, before, d, i);
                    lemma_ancestors_hold(key, entries[d].relative_path@);
                    lemma_later_ancestors(path, n - 1);
                }
            }
            lemma_one_refreshed(before, i, facts[n - 1], method, d);
        }
    }
}

proof fn lemma_not_later(keys: Seq<Seq<char>>, k: int, path: Seq<char>)
    requires
        0 <= k < keys.len(),
        keys[k] != path,
        !keys.skip(k + 1).contains(path),
    ensures
        !keys.skip(k).contains(path),
{
    if keys.skip(k).contains(path) {
        let m = choose|m: int| 0 <= m < keys.skip(k).len() && keys.skip(k)[m] == path;
        assert(m > 0);
        assert(keys.skip(k + 1)[m - 1] == path);
    }
}

/// Once the rows of an operation were replaced and the directories above them looked
/// at again, every directory of both sides counts as modified exactly where something
/// below it differs.
pub proof fn law_refreshing_settles_all(
    entries: Seq<DiffEntry>,
    i: int,
    rows: Seq<DiffEntry>,
    facts: Seq<PairFacts>,
    method: CompareMethod,
    allow_creation: bool,
)
    requires
        tree_shaped(entries),
        paths_differ(entries),
        all_settled(entries),
        0 <= i < entries.len(),
        fits(entries, i, rows),
        all_settled(rows),
        paths_differ(replaced(entries, i, subtree_end(entries, i, i + 1), rows)),
        ancestors_error(
            replaced(entries, i, subtree_end(entries, i, i + 1), rows),
            ancestors(entries[i].relative_path@),
            facts,
            method,
            allow_creation,
            ancestors(entries[i].relative_path@).len() as int,
        ) is None,
    ensures
        all_settled(
            after_ancestors(
                replaced(entries, i, subtree_end(entries, i, i + 1), rows),
                ancestors(entries[i].relative_path@),
                facts,
                method,
                ancestors(entries[i].relative_path@).len() as int,
            ),
        ),
{
    let path = entries[i].relative_path@;
    let staged = replaced(entries, i, subtree_end(entries, i, i + 1), rows);
    let n = ancestors(path).len() as int;
    law_replacing_keeps_the_tree(entries, i, rows);
    law_replacing_unsettles_only_what_is_above(entries, i, rows);
    lemma_settled_up_to(staged, path, facts, method, allow_creation, n);
    let now = after_ancestors(staged, ancestors(path), facts, method, n);
    assert forall|d: int| 0 <= d < now.len() && is_two_sided_directory(#[trigger] now[d]) implies is_settled(
        now,
        d,
    ) by {
        assert(!ancestors(path).skip(n).contains(now[d].relative_path@));
    }
}

/// At the end of a comparison every directory of both sides tells of the rows below
/// it.
pub proof fn law_finished_comparison_is_settled(run: BuildRun)
    requires
        run.wf(),
        run.frames@.len() == 0,
    ensures
        all_settled(run.entries@),
{
    assert forall|d: int|
        0 <= d < run.entries@.len() && is_two_sided_directory(#[trigger] run.entries@[d]) implies is_settled(
        run.entries@,
        d,
    ) by {
        law_directory_is_modified_where_something_below_differs(run, d);
    }
}

/// Rows that are all deeper belong to the rows below.
proof fn lemma_reaches(entries: Seq<DiffEntry>, i: int, from: int, at: int)
    requires
        0 <= i < from <= at < entries.len(),
        forall|m: int| from <= m <= at ==> (#[trigger] entries[m]).depth > entries[i].depth,
    ensures
        subtree_end(entries, i, from) > at,
    decreases at - from,
{
    assert(entries[from].depth > entries[i].depth);
    if from < at {
        lemma_reaches(entries, i, from + 1, at);
    } else {
        lemma_subtree_ends(entries, i, from + 1);
    }
}

proof fn lemma_depths_below(entries: Seq<DiffEntry>, i: int, from: int, m: int)
    requires
        0 <= i < from <= m < subtree_end(entries, i, from),
        from <= entries.len(),
    ensures
        m < entries.len(),
        entries[m].depth > entries[i].depth,
    decreases m - from,
{
    if from < m && from < entries.len() && entries[from].depth > entries[i].depth {
        lemma_depths_below(entries, i, from + 1, m);
    }
}

/// Reading in the children of a directory of one side keeps every directory of both
/// sides telling of the rows below it.
pub proof fn law_loading_keeps_all_settled(
    was: Seq<DiffEntry>,
    now: Seq<DiffEntry>,
    at: int,
    children: Seq<LoadedChild>,
)
    requires
        all_settled(was),
        0 <= at < was.len(),
        differs(was[at].status),
        !is_two_sided_directory(was[at]),
        rows_loaded(was, now, at, children),
    ensures
        all_settled(now),
{
    let count = sorted_children(children).len() as int;
    let read = rows_read(now, at, children);
    let row = DiffEntry { children_not_loaded: false, ..was[at] };
    let rows = seq![row] + read;
    assert(now =~= replaced(was, at, at + 1, rows));
    assert forall|d: int| 0 <= d < now.len() && is_two_sided_directory(#[trigger] now[d]) implies is_settled(
        now,
        d,
    ) by {
        if d < at {
            assert(now[d] == was[d]);
            if subtree_end(was, d, d + 1) <= at {
                lemma_loaded_behind(was, now, at, count, d);
            } else {
                assert(differs(now[at].status));
                assert forall|m: int| d + 1 <= m <= at implies (#[trigger] now[m]).depth
                    > now[d].depth by {
                    lemma_depths_below(was, d, d + 1, m);
                    assert(now[m].depth == was[m].depth);
                }
                lemma_reaches(now, d, d + 1, at);
                assert(some_differs(now, d + 1, subtree_end(now, d, d + 1)));
                assert(differs(was[at].status));
                assert(some_differs(was, d + 1, subtree_end(was, d, d + 1)));
            }
        } else if d <= at + count {
            if d == at {
                assert(now[at] == row);
            } else {
                assert(read[d - at - 1] == now[d]);
                assert(is_child_row(
                    was[at],
                    children[sorted_children(children)[d - at - 1]],
                    read[d - at - 1],
                ));
            }
            assert(false);
        } else {
            assert(now[d] == was[d - count]);
            lemma_settled_behind(was, at, at + 1, rows, d - count);
        }
    }
}

/// A directory whose rows end before the row that was opened tells what it told.
proof fn lemma_loaded_behind(
    was: Seq<DiffEntry>,
    now: Seq<DiffEntry>,
    at: int,
    count: int,
    d: int,
)
    requires
        0 <= d < at < was.len(),
        now.len() == was.len() + count,
        0 <= count,
        forall|m: int| 0 <= m < at ==> #[trigger] now[m] == was[m],
        now[at].depth == was[at].depth,
        subtree_end(was, d, d + 1) <= at,
        is_settled(was, d),
    ensures
        is_settled(now, d),
{
    let stop = subtree_end(was, d, d + 1);
    lemma_subtree_ends(was, d, d + 1);
    assert forall|m: int| d <= m < stop implies #[trigger] was[m] == now[m + 0] by {}
    lemma_settled_shifted(was, d, stop, now, 0);
}

proof fn lemma_inside(entries: Seq<DiffEntry>, i: int, j: int)
    requires
        0 <= i < entries.len(),
    ensures
        is_inside(entries, i, j) <==> i < j < subtree_end(entries, i, i + 1),
{
    if is_inside(entries, i, j) {
        lemma_reaches(entries, i, i + 1, j);
    }
    if i < j < subtree_end(entries, i, i + 1) {
        lemma_depths_below(entries, i, i + 1, j);
        assert forall|m: int| i < m <= j implies (#[trigger] entries[m]).depth > entries[i].depth by {
            lemma_depths_below(entries, i, i + 1, m);
        }
    }
}

/// What is below a row is below it still when the tree was re-sorted.
proof fn lemma_stays_inside(
    entries: Seq<DiffEntry>,
    sort_by: SortBy,
    sort_order: SortOrder,
    d: int,
    k: int,
)
    requires
        tree_shaped(entries),
        0 <= d < entries.len(),
        0 <= k < entries.len(),
        is_inside(
            entries,
            tree_order(entries, entry_keys(entries, sort_by), sort_order == SortOrder::Desc)[d],
            tree_order(entries, entry_keys(entries, sort_by), sort_order == SortOrder::Desc)[k],
        ),
    ensures
        is_inside(resorted(entries, sort_by, sort_order), d, k),
    decreases
            tree_order(entries, entry_keys(entries, sort_by), sort_order == SortOrder::Desc)[k],
{
    let keys = entry_keys(entries, sort_by);
    let descending = sort_order == SortOrder::Desc;
    let order = tree_order(entries, keys, descending);
    let now = resorted(entries, sort_by, sort_order);
    law_tree_order_is_a_rearrangement(entries, keys, descending);
    assert(now[k] == entries[order[k]]);
    assert(now[d] == entries[order[d]]);
    let q = law_resorting_keeps_every_parent(entries, sort_by, sort_order, k);
    assert(now[q] == entries[order[q]]);
    if order[q] < order[d] {
        assert(entries[order[d]].depth >= entries[order[k]].depth);
    } else if order[q] == order[d] {
        assert(q == d);
    } else {
        assert(is_inside(entries, order[d], order[q]));
        lemma_stays_inside(entries, sort_by, sort_order, d, q);
    }
}

/// What is below a row when the tree was re-sorted was below it before.
proof fn lemma_was_inside(
    entries: Seq<DiffEntry>,
    sort_by: SortBy,
    sort_order: SortOrder,
    d: int,
    k: int,
)
    requires
        tree_shaped(entries),
        is_inside(resorted(entries, sort_by, sort_order), d, k),
    ensures
        is_inside(
            entries,
            tree_order(entries, entry_keys(entries, sort_by), sort_order == SortOrder::Desc)[d],
            tree_order(entries, entry_keys(entries, sort_by), sort_order == SortOrder::Desc)[k],
        ),
    decreases k,
{
    let keys = entry_keys(entries, sort_by);
    let descending = sort_order == SortOrder::Desc;
    let order = tree_order(entries, keys, descending);
    let now = resorted(entries, sort_by, sort_order);
    law_tree_order_is_a_rearrangement(entries, keys, descending);
    assert(now[k] == entries[order[k]]);
    assert(now[d] == entries[order[d]]);
    let q = law_resorting_keeps_every_parent(entries, sort_by, sort_order, k);
    assert(now[q] == entries[order[q]]);
    if q < d {
        assert(now[d].depth >= now[k].depth);
    } else if q > d {
        assert(is_inside(now, d, q));
        lemma_was_inside(entries, sort_by, sort_order, d, q);
    }
}

/// Re-sorting keeps every directory of both sides telling of the rows below it.
pub proof fn law_resorting_keeps_all_settled(
    entries: Seq<DiffEntry>,
    sort_by: SortBy,
    sort_order: SortOrder,
)
    requires
        tree_shaped(entries),
        all_settled(entries),
    ensures
        all_settled(resorted(entries, sort_by, sort_order)),
{
    let keys = entry_keys(entries, sort_by);
    let descending = sort_order == SortOrder::Desc;
    let order = tree_order(entries, keys, descending);
    let now = resorted(entries, sort_by, sort_order);
    law_tree_order_is_a_rearrangement(entries, keys, descending);
    assert forall|d: int| 0 <= d < now.len() && is_two_sided_directory(#[trigger] now[d]) implies is_settled(
        now,
        d,
    ) by {
        let was = order[d];
        assert(now[d] == entries[was]);
        assert(is_settled(entries, was));
        let end = subtree_end(now, d, d + 1);
        let end_was = subtree_end(entries, was, was + 1);
        if some_differs(now, d + 1, end) {
            let k = choose|k: int| d + 1 <= k < end && differs((#[trigger] now[k]).status);
            lemma_inside(now, d, k);
            lemma_was_inside(entries, sort_by, sort_order, d, k);
            lemma_inside(entries, was, order[k]);
            assert(differs(entries[order[k]].status));
        }
        if some_differs(entries, was + 1, end_was) {
            let x = choose|x: int|
                was + 1 <= x < end_was && differs((#[trigger] entries[x]).status);
            lemma_inside(entries, was, x);
            assert(order.contains(x));
            let k = choose|k: int| 0 <= k < order.len() && order[k] == x;
            lemma_stays_inside(entries, sort_by, sort_order, d, k);
            lemma_inside(now, d, k);
            assert(differs(now[k].status));
        }
    }
}

} // verus!
