//! Taking the outcome of an operation into the comparison: only the touched row,
//! what is below it and the directories above it are read again.

use crate::authorization::DirectoryAuthorization;
use crate::diff_ancestors::{find_path_row, first_row, lemma_first_row};
use crate::diff_anchor::{
    anchored_cursor, anchored_scroll, is_anchor_of, shown_paths, DiffCursorAnchor,
};
use crate::diff_expand::names_outside;
use crate::diff_fold::{
    find_directory, first_directory, lemma_first_directory, lemma_no_directory, loading_error,
    rows_loaded, rows_read, shifted, sorted_children, LoadedChild,
};
use crate::diff_items::{
    ensure_non_overlapping_diff_roots, goes_down, roots_overlap, validated_diff_relative_path,
};
use crate::diff_shape::replaced;
use crate::diff_state::{
    diff_path_is_within, diff_subtree_end, directory_paths, is_ancestor, is_within,
    law_subtree_holds_what_is_deeper, subtree_end, DiffState,
};
use crate::diff_tree::{entry_keys, law_tree_order_is_a_rearrangement, resort_flat_tree, resorted};
use crate::diff_types::{codes, codes_of, DiffEntry};
use crate::names::NameSet;
use crate::ranking::{
    arrange, comes_before, key_views, law_arranged_is_ordered_rearrangement, lex_less, positions,
    ItemKey, Key,
};
use crate::sorting::SortOrder;
use crate::text::{chars_of, concat2, concat3, views};
use vstd::prelude::*;

verus! {

/// How many directories a path goes down.
pub open spec fn slashes(path: Seq<char>) -> nat
    decreases path.len(),
{
    if path.len() == 0 {
        0
    } else {
        slashes(path.drop_last()) + if path.last() == '/' {
            1nat
        } else {
            0nat
        }
    }
}

fn count_slashes(path: &str) -> (r: usize)
    ensures
        r == slashes(path@),
{
    let v = chars_of(path);
    let mut n: usize = 0;
    let mut i: usize = 0;
    while i < v.len()
        invariant
            i <= v@.len(),
            v@ == path@,
            n <= i,
            n == slashes(v@.take(i as int)),
        decreases v@.len() - i,
    {
        assert(v@.take(i + 1).drop_last() =~= v@.take(i as int));
        if v[i] == '/' {
            n += 1;
        }
        i += 1;
    }
    assert(v@.take(i as int) =~= v@);
    n
}

/// Whether a directory is opened again before another one: the ones further up
/// come first, then it goes by their text.
pub open spec fn opens_before(a: Seq<char>, b: Seq<char>) -> bool {
    slashes(a) < slashes(b) || (slashes(a) == slashes(b) && lex_less(codes(a), codes(b)))
}

/// The directories among the rows that are open.
pub open spec fn open_paths(entries: Seq<DiffEntry>, collapsed: Set<Seq<char>>, from: int, to: int) -> Set<
    Seq<char>,
> {
    Set::new(
        |p: Seq<char>|
            !collapsed.contains(p) && exists|k: int|
                from <= k < to && (#[trigger] entries[k]).is_directory
                    && entries[k].relative_path@ == p,
    )
}

/// Whether the list holds the directories of the set in the order in which they
/// are opened again.
pub open spec fn is_opening_order(list: Seq<Seq<char>>, set: Set<Seq<char>>) -> bool {
    &&& list.to_set() == set
    &&& forall|i: int, j: int|
        0 <= i < j < list.len() ==> opens_before(#[trigger] list[i], #[trigger] list[j])
}

pub open spec fn opening_key(path: Seq<char>) -> Key {
    Key {
        directory: false,
        major: seq![slashes(path) as int],
        minor: codes(path),
        path: Seq::empty(),
    }
}

proof fn lemma_codes_of_chars(a: char, b: char)
    ensures
        a as u32 == b as u32 ==> a == b,
{
}

proof fn lemma_codes_tell_apart(a: Seq<char>, b: Seq<char>)
    requires
        codes(a) == codes(b),
    ensures
        a == b,
{
    assert(codes(a).len() == a.len());
    assert(codes(b).len() == b.len());
    assert forall|i: int| 0 <= i < a.len() implies a[i] == b[i] by {
        assert(codes(a)[i] == a[i] as u32 as int);
        assert(codes(b)[i] == b[i] as u32 as int);
        lemma_codes_of_chars(a[i], b[i]);
        assert(a[i] as u32 == b[i] as u32);
    }
    assert(a =~= b);
}

/// The names of the set in the order in which they are opened again.
fn in_opening_order(set: &NameSet) -> (r: Vec<String>)
    ensures
        is_opening_order(views(r@), set@),
{
    let list = set.to_list();
    let ghost all = views(list@);
    let mut keys: Vec<ItemKey> = Vec::new();
    let mut places: Vec<usize> = Vec::new();
    let mut i: usize = 0;
    while i < list.len()
        invariant
            i <= list@.len(),
            all == views(list@),
            keys@.len() == i,
            places@.len() == i,
            forall|k: int| 0 <= k < i ==> (#[trigger] keys@[k])@ == opening_key(all[k]),
            forall|k: int| 0 <= k < i ==> #[trigger] places@[k] == k,
        decreases list@.len() - i,
    {
        let mut major: Vec<i128> = Vec::new();
        let n: usize = count_slashes(list[i].as_str());
        major.push(n as i128);
        let minor = codes_of(list[i].as_str());
        let key = ItemKey { directory: false, major, minor, path: Vec::new() };
        assert(all[i as int] == list@[i as int]@);
        assert(key@.major =~= opening_key(all[i as int]).major);
        assert(key@.path =~= Seq::<int>::empty());
        keys.push(key);
        places.push(i);
        i += 1;
    }
    let ghost kv = key_views(keys@);
    assert(positions(places@).no_duplicates()) by {
        assert forall|a: int, b: int|
            0 <= a < positions(places@).len() && 0 <= b < positions(places@).len() && a
                != b implies positions(places@)[a] != positions(places@)[b] by {
            assert(places@[a] == a && places@[b] == b);
        }
    }
    let order = arrange(&keys, false, &places);
    let ghost sorted = positions(order@);
    proof {
        law_arranged_is_ordered_rearrangement(kv, false, positions(places@));
    }
    let mut r: Vec<String> = Vec::new();
    let mut k: usize = 0;
    while k < order.len()
        invariant
            k <= order@.len(),
            all == views(list@),
            keys@.len() == list@.len(),
            sorted == positions(order@),
            forall|m: int| 0 <= m < order@.len() ==> #[trigger] order@[m] < keys@.len(),
            r@.len() == k,
            forall|m: int| 0 <= m < k ==> (#[trigger] r@[m])@ == all[sorted[m]],
        decreases order@.len() - k,
    {
        assert(order@[k as int] < keys@.len());
        assert(all[order@[k as int] as int] == list@[order@[k as int] as int]@);
        r.push(list[order[k]].clone());
        k += 1;
    }
    proof {
        broadcast use vstd::seq_lib::group_to_multiset_ensures;

        let out = views(r@);
        assert(out.len() == sorted.len());
        assert forall|a: int, b: int| 0 <= a < b < out.len() implies opens_before(
            #[trigger] out[a],
            #[trigger] out[b],
        ) by {
            assert(out[a] == all[sorted[a]] && out[b] == all[sorted[b]]);
            assert(order@[a] < keys@.len() && order@[b] < keys@.len());
            assert(comes_before(kv, false, sorted[a], sorted[b]));
            assert(keys@[sorted[a]]@ == opening_key(all[sorted[a]]));
            assert(keys@[sorted[b]]@ == opening_key(all[sorted[b]]));
            let x = kv[sorted[a]];
            let y = kv[sorted[b]];
            assert(x.major[0] == slashes(out[a]));
            assert(y.major[0] == slashes(out[b]));
            if x.major != y.major {
                assert(lex_less(x.major, y.major));
                lemma_one_number(x.major, y.major);
            } else if x.minor == y.minor {
                lemma_codes_tell_apart(out[a], out[b]);
                assert(sorted[a] < sorted[b]);
                assert(all[sorted[a]] == all[sorted[b]]);
                assert(false);
            }
        }
        assert forall|p: Seq<char>| out.to_set().contains(p) == set@.contains(p) by {
            assert(set@.contains(p) == all.contains(p)) by {
                assert(all.to_set().contains(p) == all.contains(p));
            }
            if out.contains(p) {
                let a = choose|a: int| 0 <= a < out.len() && out[a] == p;
                assert(order@[a] < keys@.len());
                assert(all[sorted[a]] == p);
            }
            if all.contains(p) {
                let m = choose|m: int| 0 <= m < all.len() && all[m] == p;
                assert(positions(places@)[m] == m);
                assert(positions(places@).contains(m));
                assert(positions(places@).to_multiset().count(m) > 0);
                assert(sorted.to_multiset().count(m) > 0);
                assert(sorted.contains(m));
                let a = choose|a: int| 0 <= a < sorted.len() && sorted[a] == m;
                assert(out[a] == p);
            }
        }
        assert(out.to_set() =~= set@);
    }
    r
}

proof fn lemma_one_number(a: Seq<int>, b: Seq<int>)
    requires
        a.len() == 1,
        b.len() == 1,
        lex_less(a, b),
    ensures
        a[0] < b[0],
{
    assert(a.skip(1) =~= Seq::<int>::empty());
    assert(b.skip(1) =~= Seq::<int>::empty());
    assert(!lex_less(a.skip(1), b.skip(1)));
}

/// The directories among the rows that are open, in the order in which they are
/// opened again.
fn open_directories_in(entries: &Vec<DiffEntry>, collapsed: &NameSet, from: usize, to: usize) -> (r: Vec<
    String,
>)
    requires
        from <= to <= entries@.len(),
    ensures
        is_opening_order(
            views(r@),
            open_paths(entries@, collapsed@, from as int, to as int),
        ),
{
    let mut set = NameSet::new();
    let mut i: usize = from;
    while i < to
        invariant
            from <= i <= to <= entries@.len(),
            forall|p: Seq<char>|
                #[trigger] set@.contains(p) <==> !collapsed@.contains(p) && exists|k: int|
                    from <= k < i && (#[trigger] entries@[k]).is_directory
                        && entries@[k].relative_path@ == p,
        decreases to - i,
    {
        let ghost had = set@;
        let ghost path = entries@[i as int].relative_path@;
        if entries[i].is_directory && !collapsed.contains(entries[i].relative_path.as_str()) {
            set.insert(entries[i].relative_path.clone());
        }
        proof {
            assert forall|p: Seq<char>|
                #[trigger] set@.contains(p) <==> !collapsed@.contains(p) && exists|k: int|
                    from <= k < i + 1 && (#[trigger] entries@[k]).is_directory
                        && entries@[k].relative_path@ == p by {
                assert(had.contains(p) <==> !collapsed@.contains(p) && exists|k: int|
                    from <= k < i && (#[trigger] entries@[k]).is_directory
                        && entries@[k].relative_path@ == p);
                if p == path && entries@[i as int].is_directory {
                    assert(entries@[i as int].relative_path@ == p);
                }
            }
        }
        i += 1;
    }
    assert(set@ =~= open_paths(entries@, collapsed@, from as int, to as int));
    in_opening_order(&set)
}

/// Where an operation touched the comparison, and how it looked there.
#[derive(Debug)]
pub struct ReconcileScope {
    pub relative_path: String,
    /// The row of the path, and the end of the rows below it.
    pub target_index: usize,
    pub target_end: usize,
    pub target_depth: usize,
    pub anchor: DiffCursorAnchor,
    /// The open directories there, in the order in which they are opened again.
    pub expanded: Vec<String>,
}

/// Why an operation cannot be taken into the comparison.
pub open spec fn scope_error(state: DiffState, path: Seq<char>) -> Option<Seq<char>> {
    if !goes_down(path) {
        Some("Selected difference has an invalid relative path"@)
    } else if first_row(state.all_entries@, path, 0) is None {
        Some("Completed operation target '"@ + path + "' is no longer in the comparison"@)
    } else {
        None
    }
}

/// Whether the scope tells of the path on the screen.
pub open spec fn is_scope(scope: ReconcileScope, state: DiffState, path: Seq<char>) -> bool {
    let entries = state.all_entries@;
    &&& scope.relative_path@ == path
    &&& first_row(entries, path, 0) == Some(scope.target_index as int)
    &&& scope.target_end == subtree_end(
        entries,
        scope.target_index as int,
        scope.target_index + 1,
    )
    &&& scope.target_index < scope.target_end <= entries.len()
    &&& scope.target_depth == entries[scope.target_index as int].depth
    &&& is_anchor_of(scope.anchor, state)
    &&& is_opening_order(
        views(scope.expanded@),
        open_paths(
            entries,
            state.collapsed_dirs@,
            scope.target_index as int,
            scope.target_end as int,
        ),
    )
}

/// The screen once nothing may be changed from it any more, until the next
/// comparison.
pub open spec fn without_roots(state: DiffState) -> DiffState {
    DiffState { left_root_authorization: None, right_root_authorization: None, ..state }
}

/// Why the roots that are there now may not be used.
pub open spec fn refreshed_roots_error(
    state: DiffState,
    left: Result<DirectoryAuthorization, String>,
    right: Result<DirectoryAuthorization, String>,
) -> Option<Seq<char>> {
    if state.left_root_authorization is None {
        Some("Diff left root identity is unavailable; restart the comparison"@)
    } else if state.right_root_authorization is None {
        Some("Diff right root identity is unavailable; restart the comparison"@)
    } else if left is Err {
        Some("Cannot refresh the DIFF left root safely: "@ + left->Err_0@)
    } else if right is Err {
        Some("Cannot refresh the DIFF right root safely: "@ + right->Err_0@)
    } else if !state.left_root_authorization->0.is_same_object(left->Ok_0)
        || !state.right_root_authorization->0.is_same_object(right->Ok_0) {
        Some("A comparison root was replaced; run the comparison again"@)
    } else if roots_overlap(left->Ok_0, right->Ok_0) {
        Some("Copy and delete are disabled when comparison roots overlap"@)
    } else {
        None
    }
}

/// The rows that the screen had before an outcome was put in.
#[derive(Debug)]
pub struct PreviousRows {
    pub all_entries: Vec<DiffEntry>,
    pub collapsed_dirs: NameSet,
    pub filtered_indices: Vec<usize>,
}

/// The collapsed directories once the rows at a path were read again: all of the
/// directories there are collapsed.
pub open spec fn collapsed_again(collapsed: Set<Seq<char>>, rows: Seq<DiffEntry>, path: Seq<char>) -> Set<
    Seq<char>,
> {
    collapsed.difference(Set::new(|p: Seq<char>| is_within(p, path))).union(
        directory_paths(rows).intersect(Set::new(|p: Seq<char>| is_within(p, path))),
    )
}

/// What the screen becomes when rows are put in.
pub open spec fn is_installed(
    before: DiffState,
    after: DiffState,
    previous: PreviousRows,
    path: Seq<char>,
    rows: Seq<DiffEntry>,
    roots: (DirectoryAuthorization, DirectoryAuthorization),
) -> bool {
    &&& after == DiffState {
        all_entries: after.all_entries,
        collapsed_dirs: after.collapsed_dirs,
        filtered_indices: after.filtered_indices,
        left_root_authorization: Some(roots.0),
        right_root_authorization: Some(roots.1),
        ..before
    }
    &&& after.all_entries@ == rows
    &&& after.collapsed_dirs@ == collapsed_again(before.collapsed_dirs@, rows, path)
    &&& after.filtered_indices@ == Seq::<usize>::empty()
    &&& previous.all_entries == before.all_entries
    &&& previous.collapsed_dirs == before.collapsed_dirs
    &&& previous.filtered_indices == before.filtered_indices
}

/// The screen with its previous rows.
pub open spec fn undone(state: DiffState, previous: PreviousRows) -> DiffState {
    without_roots(
        DiffState {
            all_entries: previous.all_entries,
            collapsed_dirs: previous.collapsed_dirs,
            filtered_indices: previous.filtered_indices,
            ..state
        },
    )
}

/// The marks once those at a path that are gone on both sides were taken away.
pub open spec fn marks_left(marks: Set<Seq<char>>, path: Seq<char>, gone: Set<Seq<char>>) -> Set<
    Seq<char>,
> {
    marks.difference(Set::new(|p: Seq<char>| is_within(p, path) && gone.contains(p)))
}

fn remaining_marks(marks: &NameSet, path: &str, gone: &NameSet) -> (r: NameSet)
    ensures
        r@ == marks_left(marks@, path@, gone@),
{
    let list = gone.to_list();
    let ghost all = views(list@);
    let mut kept = marks.copy();
    let mut i: usize = 0;
    while i < list.len()
        invariant
            i <= list@.len(),
            all == views(list@),
            forall|p: Seq<char>|
                #[trigger] kept@.contains(p) <==> marks@.contains(p) && !(is_within(p, path@)
                    && exists|k: int| 0 <= k < i && #[trigger] all[k] == p),
        decreases list@.len() - i,
    {
        let ghost had = kept@;
        let ghost name = list@[i as int]@;
        assert(all[i as int] == name);
        if diff_path_is_within(list[i].as_str(), path) {
            kept.remove(list[i].as_str());
        }
        proof {
            assert forall|p: Seq<char>|
                #[trigger] kept@.contains(p) <==> marks@.contains(p) && !(is_within(p, path@)
                    && exists|k: int| 0 <= k < i + 1 && #[trigger] all[k] == p) by {
                assert(had.contains(p) <==> marks@.contains(p) && !(is_within(p, path@)
                    && exists|k: int| 0 <= k < i && #[trigger] all[k] == p));
                if p == name {
                    assert(all[i as int] == p);
                }
            }
        }
        i += 1;
    }
    proof {
        assert forall|p: Seq<char>| kept@.contains(p) == marks_left(
            marks@,
            path@,
            gone@,
        ).contains(p) by {
            assert(gone@.contains(p) == all.contains(p)) by {
                assert(all.to_set().contains(p) == all.contains(p));
            }
            if all.contains(p) {
                let k = choose|k: int| 0 <= k < all.len() && all[k] == p;
                assert(all[k] == p);
            }
            if kept@.contains(p) != marks_left(marks@, path@, gone@).contains(p) {
                if exists|k: int| 0 <= k < list@.len() && #[trigger] all[k] == p {
                    let k = choose|k: int| 0 <= k < list@.len() && #[trigger] all[k] == p;
                    assert(all.contains(p));
                }
            }
        }
        assert(kept@ =~= marks_left(marks@, path@, gone@));
    }
    kept
}

/// Why a directory that was open cannot be opened again.
pub open spec fn reopening_error(
    state: DiffState,
    path: Seq<char>,
    children: Result<Vec<LoadedChild>, String>,
) -> Option<Seq<char>> {
    match first_directory(state.all_entries@, path, 0) {
        Some(at) => if state.all_entries@[at].children_not_loaded {
            loading_error(state.all_entries@[at], children)
        } else {
            None
        },
        None => None,
    }
}

/// What the screen becomes when a directory that was open is opened again.
pub open spec fn reopened(
    before: DiffState,
    after: DiffState,
    path: Seq<char>,
    children: Seq<LoadedChild>,
) -> bool {
    match first_directory(before.all_entries@, path, 0) {
        None => after == before,
        Some(at) => {
            &&& after == DiffState {
                all_entries: after.all_entries,
                filtered_indices: after.filtered_indices,
                collapsed_dirs: after.collapsed_dirs,
                ..before
            }
            &&& if before.all_entries@[at].children_not_loaded {
                &&& rows_loaded(before.all_entries@, after.all_entries@, at, children)
                &&& positions(after.filtered_indices@) == shifted(
                    before.filtered_indices@,
                    at + 1,
                    sorted_children(children).len() as int,
                )
                &&& after.collapsed_dirs@ == before.collapsed_dirs@.union(
                    directory_paths(rows_read(after.all_entries@, at, children)),
                ).remove(path)
            } else {
                &&& after.all_entries == before.all_entries
                &&& after.filtered_indices == before.filtered_indices
                &&& after.collapsed_dirs@ == before.collapsed_dirs@.remove(path)
            }
        },
    }
}

/// What the end of a copy comes to.
pub open spec fn copy_finished(
    before: DiffState,
    after: DiffState,
    r: Result<ReconcileScope, String>,
) -> bool {
    let done = DiffState {
        copy_in_progress: false,
        pending_copy_path: None,
        ..before
    };
    match before.pending_copy_path {
        None => {
            &&& after == without_roots(done)
            &&& r matches Err(e) && e@ == "Copy completion path is unavailable"@
        },
        Some(path) => match scope_error(before, path@) {
            Some(error) => after == without_roots(done) && (r matches Err(e)
                && e@ == error),
            None => after == done && (r matches Ok(scope) && is_scope(
                scope,
                before,
                path@,
            )),
        },
    }
}

/// What the end of a deletion comes to.
pub open spec fn delete_finished(
    before: DiffState,
    after: DiffState,
    r: Result<ReconcileScope, String>,
) -> bool {
    let done = DiffState {
        delete_in_progress: false,
        pending_delete_path: None,
        ..before
    };
    match before.pending_delete_path {
        None => {
            &&& after == without_roots(done)
            &&& r matches Err(e) && e@ == "Delete completion path is unavailable"@
        },
        Some(path) => match scope_error(before, path@) {
            Some(error) => after == without_roots(done) && (r matches Err(e)
                && e@ == error),
            None => after == done && (r matches Ok(scope) && is_scope(
                scope,
                before,
                path@,
            )),
        },
    }
}

/// What the end of looking again comes to.
pub open spec fn refresh_completed(
    before: DiffState,
    after: DiffState,
    scope: ReconcileScope,
    previous: PreviousRows,
    gone: Set<Seq<char>>,
    left: Result<DirectoryAuthorization, String>,
    right: Result<DirectoryAuthorization, String>,
    r: Result<(), String>,
) -> bool {
    match refreshed_roots_error(before, left, right) {
        Some(error) => {
            &&& after == undone(before, previous)
            &&& r matches Err(e) && e@ == error
        },
        None => {
            &&& r is Ok
            &&& after == (DiffState {
                all_entries: after.all_entries,
                left_root_authorization: Some(left->Ok_0),
                right_root_authorization: Some(right->Ok_0),
                selected_files: after.selected_files,
                filtered_indices: after.filtered_indices,
                selected_index: after.selected_index,
                scroll_offset: after.scroll_offset,
                ..before
            })
            &&& after.wf()
            &&& after.all_entries@ == resorted(
                before.all_entries@,
                before.sort_by,
                before.sort_order,
            )
            &&& after.selected_files@ == marks_left(
                before.selected_files@,
                scope.relative_path@,
                gone,
            )
            &&& positions(after.filtered_indices@) == after.rows_to_show()
            &&& cursor_restored(after, scope.anchor)
        },
    }
}

impl DiffState {
    /// Where an operation at the path touched the comparison.
    fn reconcile_begin(&self, path: &str) -> (r: Result<ReconcileScope, String>)
        requires
            self.wf(),
        ensures
            match scope_error(*self, path@) {
                Some(error) => r matches Err(e) && e@ == error,
                None => r matches Ok(scope) && is_scope(scope, *self, path@),
            },
    {
        if let Err(error) = validated_diff_relative_path(path) {
            return Err(error);
        }
        let target_index: usize = match find_path_row(&self.all_entries, path) {
            None => {
                return Err(
                    concat3(
                        "Completed operation target '",
                        path,
                        "' is no longer in the comparison",
                    ),
                );
            },
            Some(index) => index,
        };
        let target_end: usize = diff_subtree_end(&self.all_entries, target_index);
        let expanded = open_directories_in(
            &self.all_entries,
            &self.collapsed_dirs,
            target_index,
            target_end,
        );
        Ok(
            ReconcileScope {
                relative_path: path.to_owned(),
                target_index,
                target_end,
                target_depth: self.all_entries[target_index].depth,
                anchor: self.capture_cursor_anchor(),
                expanded,
            },
        )
    }

    /// Takes note that a copy ended. What it touched is to be read again.
    pub fn finish_copy_operation(&mut self) -> (r: Result<ReconcileScope, String>)
        requires
            old(self).wf(),
        ensures
            copy_finished(*old(self), *final(self), r),
    {
        self.copy_in_progress = false;
        match self.pending_copy_path.take() {
            None => {
                self.left_root_authorization = None;
                self.right_root_authorization = None;
                Err("Copy completion path is unavailable".to_owned())
            },
            Some(path) => {
                let r = self.reconcile_begin(path.as_str());
                if r.is_err() {
                    self.left_root_authorization = None;
                    self.right_root_authorization = None;
                }
                r
            },
        }
    }

    /// Takes note that a deletion ended. What it touched is to be read again.
    pub fn finish_delete_operation(&mut self) -> (r: Result<ReconcileScope, String>)
        requires
            old(self).wf(),
        ensures
            delete_finished(*old(self), *final(self), r),
    {
        self.delete_in_progress = false;
        match self.pending_delete_path.take() {
            None => {
                self.left_root_authorization = None;
                self.right_root_authorization = None;
                Err("Delete completion path is unavailable".to_owned())
            },
            Some(path) => {
                let r = self.reconcile_begin(path.as_str());
                if r.is_err() {
                    self.left_root_authorization = None;
                    self.right_root_authorization = None;
                }
                r
            },
        }
    }

    /// The roots as they are now, where they are still the ones that were compared.
    /// `left` and `right` are what looking at them came to.
    pub fn capture_refreshed_roots(
        &self,
        left: Result<DirectoryAuthorization, String>,
        right: Result<DirectoryAuthorization, String>,
    ) -> (r: Result<(DirectoryAuthorization, DirectoryAuthorization), String>)
        ensures
            match refreshed_roots_error(*self, left, right) {
                Some(error) => r matches Err(e) && e@ == error,
                None => r == Ok::<(DirectoryAuthorization, DirectoryAuthorization), String>(
                    (left->Ok_0, right->Ok_0),
                ),
            },
    {
        let expected_left = match &self.left_root_authorization {
            None => {
                return Err(
                    "Diff left root identity is unavailable; restart the comparison".to_owned(),
                );
            },
            Some(root) => root,
        };
        let expected_right = match &self.right_root_authorization {
            None => {
                return Err(
                    "Diff right root identity is unavailable; restart the comparison".to_owned(),
                );
            },
            Some(root) => root,
        };
        let current_left = match left {
            Err(error) => {
                return Err(
                    concat2("Cannot refresh the DIFF left root safely: ", error.as_str()),
                );
            },
            Ok(root) => root,
        };
        let current_right = match right {
            Err(error) => {
                return Err(
                    concat2("Cannot refresh the DIFF right root safely: ", error.as_str()),
                );
            },
            Ok(root) => root,
        };
        if !expected_left.same_object(&current_left) || !expected_right.same_object(
            &current_right,
        ) {
            return Err("A comparison root was replaced; run the comparison again".to_owned());
        }
        if let Err(error) = ensure_non_overlapping_diff_roots(&current_left, &current_right) {
            return Err(error);
        }
        Ok((current_left, current_right))
    }

    /// Gives up to take in an outcome before anything of it was put in: nothing
    /// may be changed from here until the next comparison.
    pub fn reconcile_failed(&mut self)
        ensures
            *final(self) == without_roots(*old(self)),
    {
        self.left_root_authorization = None;
        self.right_root_authorization = None;
    }

    /// The rows with those of the scope replaced.
    pub fn staged_rows(&self, scope: &ReconcileScope, replacement: &Vec<DiffEntry>) -> (r: Vec<
        DiffEntry,
    >)
        requires
            scope.target_index <= scope.target_end <= self.all_entries@.len(),
            self.all_entries@.len() + replacement@.len() <= usize::MAX,
        ensures
            r@ == replaced(
                self.all_entries@,
                scope.target_index as int,
                scope.target_end as int,
                replacement@,
            ),
    {
        let mut rows: Vec<DiffEntry> = Vec::new();
        append_rows(&mut rows, &self.all_entries, 0, scope.target_index);
        append_rows(&mut rows, replacement, 0, replacement.len());
        append_rows(&mut rows, &self.all_entries, scope.target_end, self.all_entries.len());
        assert(rows@ =~= self.all_entries@.take(scope.target_index as int) + replacement@
            + self.all_entries@.skip(scope.target_end as int));
        rows
    }

    /// Puts rows in, with all directories at the path collapsed. The previous rows
    /// come back.
    pub fn reconcile_install(
        &mut self,
        path: &str,
        rows: Vec<DiffEntry>,
        roots: (DirectoryAuthorization, DirectoryAuthorization),
    ) -> (r: PreviousRows)
        ensures
            is_installed(*old(self), *final(self), r, path@, rows@, roots),
            final(self).wf(),
    {
        let mut collapsed = names_outside(&self.collapsed_dirs, path);
        let ghost outside = collapsed@;
        let mut i: usize = 0;
        while i < rows.len()
            invariant
                i <= rows@.len(),
                forall|p: Seq<char>|
                    #[trigger] collapsed@.contains(p) <==> outside.contains(p) || (is_within(
                        p,
                        path@,
                    ) && exists|k: int|
                        0 <= k < i && (#[trigger] rows@[k]).is_directory && rows@[k].relative_path@
                            == p),
            decreases rows@.len() - i,
        {
            let ghost had = collapsed@;
            let ghost name = rows@[i as int].relative_path@;
            if rows[i].is_directory && diff_path_is_within(rows[i].relative_path.as_str(), path) {
                collapsed.insert(rows[i].relative_path.clone());
            }
            proof {
                assert forall|p: Seq<char>|
                    #[trigger] collapsed@.contains(p) <==> outside.contains(p) || (is_within(
                        p,
                        path@,
                    ) && exists|k: int|
                        0 <= k < i + 1 && (#[trigger] rows@[k]).is_directory
                            && rows@[k].relative_path@ == p) by {
                    assert(had.contains(p) <==> outside.contains(p) || (is_within(p, path@)
                        && exists|k: int|
                        0 <= k < i && (#[trigger] rows@[k]).is_directory && rows@[k].relative_path@
                            == p));
                    if p == name && rows@[i as int].is_directory {
                        assert(rows@[i as int].relative_path@ == p);
                    }
                }
            }
            i += 1;
        }
        assert(collapsed@ =~= collapsed_again(old(self).collapsed_dirs@, rows@, path@));
        let mut all_entries = rows;
        let mut filtered_indices: Vec<usize> = Vec::new();
        let ghost added = all_entries@;
        core::mem::swap(&mut all_entries, &mut self.all_entries);
        core::mem::swap(&mut collapsed, &mut self.collapsed_dirs);
        core::mem::swap(&mut filtered_indices, &mut self.filtered_indices);
        self.left_root_authorization = Some(roots.0);
        self.right_root_authorization = Some(roots.1);
        PreviousRows { all_entries, collapsed_dirs: collapsed, filtered_indices }
    }

    /// Takes rows out again that were put in. Nothing may be changed from here
    /// until the next comparison.
    pub fn reconcile_undo(&mut self, previous: PreviousRows)
        ensures
            *final(self) == undone(*old(self), previous),
    {
        self.all_entries = previous.all_entries;
        self.collapsed_dirs = previous.collapsed_dirs;
        self.filtered_indices = previous.filtered_indices;
        self.left_root_authorization = None;
        self.right_root_authorization = None;
    }

    /// The row of a directory that is to be opened again and whose children have to
    /// be read for it.
    pub fn reopening_needs(&self, path: &str) -> (r: Option<usize>)
        ensures
            match r {
                Some(at) => first_directory(self.all_entries@, path@, 0) == Some(at as int)
                    && self.all_entries@[at as int].children_not_loaded,
                None => match first_directory(self.all_entries@, path@, 0) {
                    Some(at) => !self.all_entries@[at].children_not_loaded,
                    None => true,
                },
            },
    {
        match find_directory(&self.all_entries, path) {
            None => {
                proof {
                    lemma_no_directory(self.all_entries@, path@, 0);
                }
                None
            },
            Some(at) => {
                proof {
                    lemma_first_directory(self.all_entries@, path@, at as int);
                }
                if self.all_entries[at].children_not_loaded {
                    Some(at)
                } else {
                    None
                }
            },
        }
    }

    /// Opens a directory again that was open. `children` are put in where they were
    /// not read yet.
    pub fn restore_expanded_directory(
        &mut self,
        path: &str,
        children: Result<Vec<LoadedChild>, String>,
    ) -> (r: Result<(), String>)
        requires
            old(self).wf(),
            children matches Ok(list) ==> old(self).all_entries@.len() + list@.len() <= usize::MAX,
            first_directory(old(self).all_entries@, path@, 0) matches Some(at) ==> old(
                self,
            ).all_entries@[at].depth < usize::MAX,
        ensures
            match reopening_error(*old(self), path@, children) {
                Some(error) => *final(self) == *old(self) && (r matches Err(e) && e@ == error),
                None => r is Ok && reopened(
                    *old(self),
                    *final(self),
                    path@,
                    match children {
                        Ok(list) => list@,
                        Err(_) => Seq::empty(),
                    },
                ),
            },
            final(self).wf(),
    {
        match find_directory(&self.all_entries, path) {
            None => {
                proof {
                    lemma_no_directory(self.all_entries@, path@, 0);
                }
            },
            Some(at) => {
                proof {
                    lemma_first_directory(self.all_entries@, path@, at as int);
                }
                if self.all_entries[at].children_not_loaded {
                    self.lazy_load_children_checked(at, children)?;
                }
                self.collapsed_dirs.remove(path);
            },
        }
        Ok(())
    }

    /// Shows the outcome: the rows are arranged, the marks of what is gone taken
    /// away, and the cursor put back. The roots are looked at once more; if one was
    /// replaced meanwhile, the previous rows come back.
    pub fn reconcile_complete(
        &mut self,
        scope: &ReconcileScope,
        previous: PreviousRows,
        gone: &NameSet,
        left: Result<DirectoryAuthorization, String>,
        right: Result<DirectoryAuthorization, String>,
    ) -> (r: Result<(), String>)
        ensures
            refresh_completed(*old(self), *final(self), *scope, previous, gone@, left, right, r),
    {
        let roots = self.capture_refreshed_roots(left, right);
        match roots {
            Err(error) => {
                self.reconcile_undo(previous);
                Err(error)
            },
            Ok((left_root, right_root)) => {
                self.all_entries =
                resort_flat_tree(&self.all_entries, self.sort_by, self.sort_order);
                self.left_root_authorization = Some(left_root);
                self.right_root_authorization = Some(right_root);
                let marks = remaining_marks(
                    &self.selected_files,
                    scope.relative_path.as_str(),
                    gone,
                );
                self.selected_files = marks;
                self.apply_filter();
                let ghost shown = *self;
                self.restore_cursor_anchor(&scope.anchor);
                assert(shown_paths(*self) =~= shown_paths(shown));
                Ok(())
            },
        }
    }
}

/// Whether the cursor is where the anchor puts it among the rows shown.
pub open spec fn cursor_restored(state: DiffState, anchor: DiffCursorAnchor) -> bool {
    let count = state.filtered_indices@.len();
    if count == 0 {
        state.selected_index == 0 && state.scroll_offset == 0
    } else {
        &&& state.selected_index == anchored_cursor(anchor, shown_paths(state))
        &&& state.selected_index < count
        &&& state.scroll_offset == anchored_scroll(
            anchor,
            state.selected_index as int,
            count as int,
            state.visible_height as int,
        )
    }
}

fn append_rows(rows: &mut Vec<DiffEntry>, from: &Vec<DiffEntry>, start: usize, end: usize)
    requires
        start <= end <= from@.len(),
    ensures
        final(rows)@ == old(rows)@ + from@.subrange(start as int, end as int),
{
    let ghost before = rows@;
    let mut i: usize = start;
    assert(before + from@.subrange(start as int, start as int) =~= before);
    while i < end
        invariant
            start <= i <= end <= from@.len(),
            rows@ == before + from@.subrange(start as int, i as int),
        decreases end - i,
    {
        rows.push(from[i].clone());
        assert(rows@ =~= before + from@.subrange(start as int, i + 1));
        i += 1;
    }
}

/// An outcome that could not be taken in leaves the rows as they were shown.
pub proof fn law_failed_refresh_shows_the_same_rows(
    before: DiffState,
    installed: DiffState,
    opened: DiffState,
    previous: PreviousRows,
    path: Seq<char>,
    rows: Seq<DiffEntry>,
    roots: (DirectoryAuthorization, DirectoryAuthorization),
)
    requires
        is_installed(before, installed, previous, path, rows, roots),
        opened == (DiffState {
            all_entries: opened.all_entries,
            filtered_indices: opened.filtered_indices,
            collapsed_dirs: opened.collapsed_dirs,
            ..installed
        }),
    ensures
        undone(opened, previous) == without_roots(before),
{
}

/// A directory is opened before the directories below it.
pub proof fn law_directory_opens_before_what_is_below(above: Seq<char>, below: Seq<char>)
    requires
        is_ancestor(above, below),
    ensures
        opens_before(above, below),
        !opens_before(below, above),
{
    let n = above.len() as int;
    lemma_slashes_of_sum(above, below.skip(n));
    assert(below =~= above + below.skip(n));
    let rest = below.skip(n);
    assert(rest[0] == '/');
    lemma_slashes_of_sum(rest.take(1), rest.skip(1));
    assert(rest =~= rest.take(1) + rest.skip(1));
    assert(rest.take(1) =~= seq!['/']);
    reveal_with_fuel(slashes, 2);
    assert(rest.take(1).drop_last() =~= Seq::empty());
}

proof fn lemma_slashes_of_sum(a: Seq<char>, b: Seq<char>)
    ensures
        slashes(a + b) == slashes(a) + slashes(b),
    decreases b.len(),
{
    if b.len() == 0 {
        assert(a + b =~= a);
    } else {
        assert((a + b).drop_last() =~= a + b.drop_last());
        lemma_slashes_of_sum(a, b.drop_last());
    }
}

/// What was collapsed outside of the touched row stays as it was; inside of it every
/// directory is collapsed, and nothing that is no longer there.
pub proof fn law_touched_rows_are_collapsed_again(
    collapsed: Set<Seq<char>>,
    rows: Seq<DiffEntry>,
    path: Seq<char>,
    p: Seq<char>,
)
    ensures
        p != path && !is_ancestor(path, p) ==> collapsed_again(collapsed, rows, path).contains(p)
            == collapsed.contains(p),
        p == path || is_ancestor(path, p) ==> (collapsed_again(collapsed, rows, path).contains(p)
            <==> exists|k: int|
            0 <= k < rows.len() && (#[trigger] rows[k]).is_directory && rows[k].relative_path@ == p),
{
}

/// A mark goes only where its row was within the touched path and is gone.
pub proof fn law_marks_go_with_their_rows(
    marks: Set<Seq<char>>,
    path: Seq<char>,
    gone: Set<Seq<char>>,
    p: Seq<char>,
)
    ensures
        marks_left(marks, path, gone).contains(p) <==> marks.contains(p) && !(gone.contains(p) && (p
            == path || is_ancestor(path, p))),
{
}

/// The roots are taken anew exactly where both are known, can be read, are the same
/// directories as before and do not overlap.
pub proof fn law_roots_are_taken_anew_only_unchanged(
    state: DiffState,
    left: Result<DirectoryAuthorization, String>,
    right: Result<DirectoryAuthorization, String>,
)
    ensures
        refreshed_roots_error(state, left, right) is None <==> {
            &&& state.left_root_authorization matches Some(was_left)
            &&& state.right_root_authorization matches Some(was_right)
            &&& left matches Ok(now_left)
            &&& right matches Ok(now_right)
            &&& was_left.is_same_object(now_left)
            &&& was_right.is_same_object(now_right)
            &&& !roots_overlap(now_left, now_right)
        },
{
}

/// Taking a failed change back restores the rows, what is collapsed and what is shown, and
/// forgets the roots, so that nothing more is done with the comparison.
pub proof fn law_failed_change_is_taken_back(
    before: DiffState,
    during: DiffState,
    previous: PreviousRows,
    path: Seq<char>,
    rows: Seq<DiffEntry>,
    roots: (DirectoryAuthorization, DirectoryAuthorization),
)
    requires
        is_installed(before, during, previous, path, rows, roots),
    ensures
        ({
            let after = undone(during, previous);
            &&& after.all_entries == before.all_entries
            &&& after.collapsed_dirs == before.collapsed_dirs
            &&& after.filtered_indices == before.filtered_indices
            &&& after.left_root_authorization is None
            &&& after.right_root_authorization is None
            &&& after.selected_files == before.selected_files
            &&& after.selected_index == before.selected_index
        }),
        during.left_root_authorization == Some(roots.0),
        during.right_root_authorization == Some(roots.1),
        during.all_entries@ == rows,
{
}

/// The end of a copy is looked at where it took place: at the row with its path, with all
/// rows below it. Where that cannot be told nothing more is done with the roots.
pub proof fn law_finished_copy_is_looked_at(
    before: DiffState,
    after: DiffState,
    r: Result<ReconcileScope, String>,
)
    requires
        copy_finished(before, after, r),
    ensures
        !after.copy_in_progress,
        after.pending_copy_path is None,
        after.delete_in_progress == before.delete_in_progress,
        after.pending_delete_path == before.pending_delete_path,
        after.all_entries == before.all_entries,
        r is Ok <==> before.pending_copy_path is Some && goes_down(before.pending_copy_path->0@)
            && exists|i: int|
            0 <= i < before.all_entries@.len() && (#[trigger] before.all_entries@[i]).relative_path@
                == before.pending_copy_path->0@,
        r is Err ==> after.left_root_authorization is None && after.right_root_authorization is None,
        r is Ok ==> after.left_root_authorization == before.left_root_authorization
            && after.right_root_authorization == before.right_root_authorization,
        r matches Ok(scope) ==> {
            let rows = before.all_entries@;
            &&& scope.relative_path@ == before.pending_copy_path->0@
            &&& rows[scope.target_index as int].relative_path@ == scope.relative_path@
            &&& scope.target_depth == rows[scope.target_index as int].depth
            &&& forall|k: int|
                scope.target_index < k < scope.target_end ==> (#[trigger] rows[k]).depth
                    > scope.target_depth
            &&& scope.target_end < rows.len() ==> rows[scope.target_end as int].depth
                <= scope.target_depth
        },
{
    if let Some(path) = before.pending_copy_path {
        lemma_first_row(before.all_entries@, path@, 0);
        if let Ok(scope) = r {
            law_subtree_holds_what_is_deeper(
                before.all_entries@,
                scope.target_index as int,
                scope.target_index + 1,
            );
        }
    }
}

/// The end of a deletion is looked at in the same way.
pub proof fn law_finished_deletion_is_looked_at(
    before: DiffState,
    after: DiffState,
    r: Result<ReconcileScope, String>,
)
    requires
        delete_finished(before, after, r),
    ensures
        !after.delete_in_progress,
        after.pending_delete_path is None,
        after.copy_in_progress == before.copy_in_progress,
        after.pending_copy_path == before.pending_copy_path,
        after.all_entries == before.all_entries,
        r is Ok <==> before.pending_delete_path is Some && goes_down(
            before.pending_delete_path->0@,
        ) && exists|i: int|
            0 <= i < before.all_entries@.len() && (#[trigger] before.all_entries@[i]).relative_path@
                == before.pending_delete_path->0@,
        r is Err ==> after.left_root_authorization is None && after.right_root_authorization is None,
        r matches Ok(scope) ==> scope.relative_path@ == before.pending_delete_path->0@
            && before.all_entries@[scope.target_index as int].relative_path@
            == scope.relative_path@,
{
    if let Some(path) = before.pending_delete_path {
        lemma_first_row(before.all_entries@, path@, 0);
    }
}

/// Of the touched rows those directories are opened again that were open, and no others,
/// each before the ones below it.
pub proof fn law_open_directories_open_again(
    scope: ReconcileScope,
    state: DiffState,
    path: Seq<char>,
    p: Seq<char>,
)
    requires
        is_scope(scope, state, path),
    ensures
        views(scope.expanded@).contains(p) <==> !state.collapsed_dirs@.contains(p) && exists|k: int|
            scope.target_index <= k < scope.target_end && (#[trigger] state.all_entries@[k]).is_directory
                && state.all_entries@[k].relative_path@ == p,
        forall|i: int, j: int|
            0 <= i < j < scope.expanded@.len() ==> !is_ancestor(
                (#[trigger] views(scope.expanded@)[j]),
                (#[trigger] views(scope.expanded@)[i]),
            ),
{
    let list = views(scope.expanded@);
    assert(list.to_set().contains(p) <==> list.contains(p));
    assert forall|i: int, j: int| 0 <= i < j < scope.expanded@.len() implies !is_ancestor(
        (#[trigger] list[j]),
        (#[trigger] list[i]),
    ) by {
        assert(opens_before(list[i], list[j]));
        if is_ancestor(list[j], list[i]) {
            law_directory_opens_before_what_is_below(list[j], list[i]);
        }
    }
}

/// A directory that is opened again is no longer collapsed; what was collapsed besides it
/// stays so, and what is read in below it begins collapsed.
pub proof fn law_reopened_directory_is_open(
    before: DiffState,
    after: DiffState,
    path: Seq<char>,
    children: Seq<LoadedChild>,
    p: Seq<char>,
)
    requires
        reopened(before, after, path, children),
        exists|k: int|
            0 <= k < before.all_entries@.len() && (#[trigger] before.all_entries@[k]).is_directory
                && before.all_entries@[k].relative_path@ == path,
    ensures
        !after.collapsed_dirs@.contains(path),
        p != path && before.collapsed_dirs@.contains(p) ==> after.collapsed_dirs@.contains(p),
        after.all_entries@.len() == before.all_entries@.len() ==> (p != path
            && after.collapsed_dirs@.contains(p) && !before.collapsed_dirs@.contains(p) ==> false)
            || sorted_children(children).len() == 0,
{
    if first_directory(before.all_entries@, path, 0) is None {
        let k = choose|k: int|
            0 <= k < before.all_entries@.len() && (#[trigger] before.all_entries@[k]).is_directory
                && before.all_entries@[k].relative_path@ == path;
        lemma_directory_is_found(before.all_entries@, path, 0, k);
    }
}

proof fn lemma_directory_is_found(entries: Seq<DiffEntry>, path: Seq<char>, from: int, k: int)
    requires
        0 <= from <= k < entries.len(),
        entries[k].is_directory,
        entries[k].relative_path@ == path,
    ensures
        first_directory(entries, path, from) is Some,
    decreases k - from,
{
    if from < k && !(entries[from].is_directory && entries[from].relative_path@ == path) {
        lemma_directory_is_found(entries, path, from + 1, k);
    }
}

/// Once all was looked at again the rows are in their order, the marks of rows that are gone
/// are gone, and the rows to show are shown; where a root was replaced everything is as
/// before, and nothing more is done with the roots.
pub proof fn law_looking_again_ends(
    before: DiffState,
    after: DiffState,
    scope: ReconcileScope,
    previous: PreviousRows,
    gone: Set<Seq<char>>,
    left: Result<DirectoryAuthorization, String>,
    right: Result<DirectoryAuthorization, String>,
    r: Result<(), String>,
)
    requires
        refresh_completed(before, after, scope, previous, gone, left, right, r),
    ensures
        r is Err ==> {
            &&& after.all_entries == previous.all_entries
            &&& after.collapsed_dirs == previous.collapsed_dirs
            &&& after.filtered_indices == previous.filtered_indices
            &&& after.left_root_authorization is None
            &&& after.right_root_authorization is None
        },
        r is Ok ==> {
            &&& after.left_root_authorization == Some(left->Ok_0)
            &&& after.right_root_authorization == Some(right->Ok_0)
            &&& before.left_root_authorization is Some
            &&& before.left_root_authorization->0.is_same_object(left->Ok_0)
            &&& before.right_root_authorization->0.is_same_object(right->Ok_0)
            &&& after.all_entries@.len() == before.all_entries@.len()
            &&& positions(after.filtered_indices@) == after.rows_to_show()
            &&& after.collapsed_dirs == before.collapsed_dirs
            &&& after.filtered_indices@.len() > 0 ==> after.selected_index
                < after.filtered_indices@.len()
        },
{
    if r is Ok {
        law_tree_order_is_a_rearrangement(
            before.all_entries@,
            entry_keys(before.all_entries@, before.sort_by),
            before.sort_order == SortOrder::Desc,
        );
    }
}

} // verus!
