//! Opening and closing directories of the comparison, and reading the children
//! of a one-sided directory when it is first opened.

use crate::authorization::MissingPathAuthorization;
use crate::diff_state::{clamped, directory_paths, is_ancestor, DiffState};
use crate::diff_types::{codes, codes_of, DiffEntry, DiffFileInfo, DiffStatus};
use crate::names::NameSet;
use crate::paths::{parent_key, parent_of_key};
use crate::ranking::{
    arrange, arranged, ints, key_views, law_arranged_is_ordered_rearrangement, positions, ItemKey,
    Key,
};
use crate::sorting::lowercase_text;
use crate::text::{concat3, starts_with_text};
use vstd::prelude::*;

verus! {

/// The position of the row in the list, or where the cursor stood.
pub open spec fn cursor_on(rows: Seq<int>, row: int, fallback: int) -> int {
    if rows.contains(row) {
        rows.index_of(row)
    } else {
        fallback
    }
}

/// How far a view of `height` rows is scrolled from the top so that the cursor
/// is inside it.
pub open spec fn scroll_for(cursor: int, height: int) -> int {
    if height > 0 && cursor >= height {
        cursor - (height - 1)
    } else {
        0
    }
}

/// Whether the rows are shown as they should be, with the cursor on `row`, or
/// where `row` is not shown, where it stood, held inside the list; and the view
/// is scrolled just as far as the cursor needs.
pub open spec fn shown_at(state: DiffState, row: int, cursor: int) -> bool {
    let rows = state.rows_to_show();
    &&& positions(state.filtered_indices@) == rows
    &&& state.selected_index == cursor_on(rows, row, clamped(cursor, rows.len()))
    &&& state.scroll_offset == scroll_for(
        state.selected_index as int,
        state.visible_height as int,
    )
    &&& state.wf()
}

/// What changes when directories are opened or closed: the collapsed ones, the
/// rows shown, the cursor and the scroll offset.
pub open spec fn only_view_changed(before: DiffState, after: DiffState) -> bool {
    after == DiffState {
        filtered_indices: after.filtered_indices,
        selected_index: after.selected_index,
        scroll_offset: after.scroll_offset,
        collapsed_dirs: after.collapsed_dirs,
        ..before
    }
}

/// The paths of the directories among the rows that are `path` or below it.
pub open spec fn directories_within(entries: Seq<DiffEntry>, path: Seq<char>) -> Set<Seq<char>> {
    Set::new(
        |p: Seq<char>|
            p == path || (is_ancestor(path, p) && exists|k: int|
                0 <= k < entries.len() && (#[trigger] entries[k]).is_directory
                    && entries[k].relative_path@ == p),
    )
}

/// A child of a one-sided directory, as it was read.
#[derive(Debug)]
pub struct LoadedChild {
    pub name: String,
    /// Whether the name leads to a directory, links followed.
    pub leads_to_directory: bool,
    pub info: Option<DiffFileInfo>,
    pub left_missing: Option<MissingPathAuthorization>,
    pub right_missing: Option<MissingPathAuthorization>,
}

/// What a child is arranged by: directories first, then the name.
pub open spec fn child_key(c: LoadedChild) -> Key {
    Key {
        directory: c.leads_to_directory,
        major: codes(lowercase_text(c.name@)),
        minor: Seq::empty(),
        path: Seq::empty(),
    }
}

pub open spec fn child_keys(children: Seq<LoadedChild>) -> Seq<Key> {
    Seq::new(children.len(), |i: int| child_key(children[i]))
}

pub open spec fn identity_order(n: nat) -> Seq<int> {
    Seq::new(n, |i: int| i)
}

/// The children of a directory in the order in which they are shown.
pub open spec fn sorted_children(children: Seq<LoadedChild>) -> Seq<int> {
    arranged(child_keys(children), false, identity_order(children.len()))
}

/// The row of a child of the one-sided directory `parent`.
pub open spec fn is_child_row(parent: DiffEntry, c: LoadedChild, row: DiffEntry) -> bool {
    let left = parent.status == DiffStatus::LeftOnly;
    let directory = c.info is Some && c.info->0.is_directory;
    &&& row.relative_path@ == parent.relative_path@ + seq!['/'] + c.name@
    &&& row.left == if left { c.info } else { None }
    &&& row.right == if left { None } else { c.info }
    &&& row.status == if left { DiffStatus::LeftOnly } else { DiffStatus::RightOnly }
    &&& row.is_directory == directory
    &&& row.depth == parent.depth + 1
    &&& row.children_not_loaded == directory
    &&& row.left_missing == if row.left is None { c.left_missing } else { None }
    &&& row.right_missing == if row.right is None { c.right_missing } else { None }
}

/// Whether `rows` are the rows of the children, in the order shown.
pub open spec fn are_child_rows(
    parent: DiffEntry,
    children: Seq<LoadedChild>,
    rows: Seq<DiffEntry>,
) -> bool {
    &&& rows.len() == sorted_children(children).len()
    &&& forall|k: int|
        0 <= k < rows.len() ==> is_child_row(
            parent,
            children[sorted_children(children)[k]],
            #[trigger] rows[k],
        )
}

/// A position after `count` rows were put in at `at`.
pub open spec fn shifted(v: Seq<usize>, at: int, count: int) -> Seq<int> {
    Seq::new(v.len(), |i: int| if v[i] >= at { v[i] + count } else { v[i] as int })
}

/// The rows that were read in behind row `at`.
pub open spec fn rows_read(now: Seq<DiffEntry>, at: int, children: Seq<LoadedChild>) -> Seq<
    DiffEntry,
> {
    now.subrange(at + 1, at + 1 + sorted_children(children).len())
}

/// Whether the children of row `at` were put in: their rows stand right behind
/// it, and it counts as read.
pub open spec fn rows_loaded(
    was: Seq<DiffEntry>,
    now: Seq<DiffEntry>,
    at: int,
    children: Seq<LoadedChild>,
) -> bool {
    let rows = rows_read(now, at, children);
    &&& now.len() == was.len() + sorted_children(children).len()
    &&& now == was.take(at).push((DiffEntry { children_not_loaded: false, ..was[at] })) + rows
        + was.skip(at + 1)
    &&& are_child_rows(was[at], children, rows)
}

/// What the screen becomes when the children of row `at` were read: their rows
/// are put in, the directories among them collapsed.
pub open spec fn children_loaded(
    before: DiffState,
    after: DiffState,
    at: int,
    children: Seq<LoadedChild>,
) -> bool {
    &&& after == DiffState {
        all_entries: after.all_entries,
        filtered_indices: after.filtered_indices,
        collapsed_dirs: after.collapsed_dirs,
        ..before
    }
    &&& rows_loaded(before.all_entries@, after.all_entries@, at, children)
    &&& positions(after.filtered_indices@) == shifted(
        before.filtered_indices@,
        at + 1,
        sorted_children(children).len() as int,
    )
    &&& after.collapsed_dirs@ == before.collapsed_dirs@.union(
        directory_paths(rows_read(after.all_entries@, at, children)),
    )
}

/// What the screen becomes when the collapsed directory at row `at` is opened:
/// its children are put in where they were not read yet, directories among them
/// collapsed, and it is no longer collapsed itself.
pub open spec fn opened(
    before: DiffState,
    after: DiffState,
    at: int,
    children: Seq<LoadedChild>,
) -> bool {
    let path = before.all_entries@[at].relative_path@;
    &&& after == DiffState {
        all_entries: after.all_entries,
        filtered_indices: after.filtered_indices,
        selected_index: after.selected_index,
        scroll_offset: after.scroll_offset,
        collapsed_dirs: after.collapsed_dirs,
        ..before
    }
    &&& if is_unread(before, at) {
        &&& rows_loaded(before.all_entries@, after.all_entries@, at, children)
        &&& after.collapsed_dirs@ == before.collapsed_dirs@.union(
            directory_paths(rows_read(after.all_entries@, at, children)),
        ).remove(path)
    } else {
        &&& after.all_entries@ == before.all_entries@
        &&& after.collapsed_dirs@ == before.collapsed_dirs@.remove(path)
    }
    &&& shown_at(after, at, before.selected_index as int)
}

/// What the screen becomes when the directory at row `at` is collapsed with all
/// directories below it.
pub open spec fn closed_at(before: DiffState, after: DiffState, at: int) -> bool {
    &&& only_view_changed(before, after)
    &&& after.collapsed_dirs@ == before.collapsed_dirs@.union(
        directories_within(before.all_entries@, before.all_entries@[at].relative_path@),
    )
    &&& shown_at(after, at, before.selected_index as int)
}

/// What the screen becomes when the directory under the cursor is collapsed.
pub open spec fn closed_at_cursor(before: DiffState, after: DiffState) -> bool {
    match before.cursor_row() {
        Some(i) if before.all_entries@[i].is_directory => closed_at(before, after, i),
        _ => after == before,
    }
}

/// What the screen becomes when one level of the tree is closed.
pub open spec fn level_closed(before: DiffState, after: DiffState) -> bool {
    match before.level_to_close() {
        Some(target) => closed_at(before, after, target),
        None => after == before,
    }
}

/// What the screen becomes when the directory under the cursor is opened if it is
/// collapsed, and collapsed if it is open.
pub open spec fn toggled_at_cursor(
    before: DiffState,
    after: DiffState,
    children: Seq<LoadedChild>,
) -> bool {
    match before.cursor_row() {
        Some(i) if before.all_entries@[i].is_directory => if before.collapsed_dirs@.contains(
            before.all_entries@[i].relative_path@,
        ) {
            opened(before, after, i, children)
        } else {
            closed_at(before, after, i)
        },
        _ => after == before,
    }
}

/// What the screen becomes when the directory under the cursor is opened by one
/// level.
pub open spec fn level_opened(before: DiffState, after: DiffState, children: Seq<LoadedChild>) -> bool {
    match before.cursor_row() {
        Some(i) if before.all_entries@[i].is_directory && before.collapsed_dirs@.contains(
            before.all_entries@[i].relative_path@,
        ) => opened(before, after, i, children),
        _ => after == before,
    }
}

/// What a directory under the cursor needs so that it can be opened: room for
/// its children.
pub open spec fn room_for(state: DiffState, children: Seq<LoadedChild>) -> bool {
    &&& state.all_entries@.len() + children.len() <= usize::MAX
    &&& state.cursor_row() matches Some(i) ==> state.all_entries@[i].depth < usize::MAX
}

/// Whether row `at` is a directory whose children are still to be read.
pub open spec fn is_unread(state: DiffState, at: int) -> bool {
    state.all_entries@[at].children_not_loaded && state.all_entries@[at].is_directory
}

/// Where the row stands in the list.
fn find_row(list: &Vec<usize>, row: usize) -> (r: Option<usize>)
    ensures
        match r {
            Some(i) => i < list@.len() && list@[i as int] == row,
            None => !positions(list@).contains(row as int),
        },
{
    let mut i: usize = 0;
    while i < list.len()
        invariant
            i <= list@.len(),
            forall|k: int| 0 <= k < i ==> #[trigger] positions(list@)[k] != row,
        decreases list@.len() - i,
    {
        if list[i] == row {
            return Some(i);
        }
        i += 1;
    }
    None
}

/// The row of the directory with this path.
pub(crate) fn find_directory(entries: &Vec<DiffEntry>, path: &str) -> (r: Option<usize>)
    ensures
        match r {
            Some(i) => i < entries@.len() && entries@[i as int].is_directory
                && entries@[i as int].relative_path@ == path@ && forall|k: int|
                0 <= k < i ==> !((#[trigger] entries@[k]).is_directory
                    && entries@[k].relative_path@ == path@),
            None => forall|k: int|
                0 <= k < entries@.len() ==> !((#[trigger] entries@[k]).is_directory
                    && entries@[k].relative_path@ == path@),
        },
{
    let wanted = path.to_owned();
    let mut i: usize = 0;
    while i < entries.len()
        invariant
            i <= entries@.len(),
            wanted@ == path@,
            forall|k: int|
                0 <= k < i ==> !((#[trigger] entries@[k]).is_directory
                    && entries@[k].relative_path@ == path@),
        decreases entries@.len() - i,
    {
        if entries[i].is_directory && entries[i].relative_path == wanted {
            return Some(i);
        }
        i += 1;
    }
    None
}

/// Puts `path` and the directories below it among the collapsed ones.
fn collapse_within(collapsed: &mut NameSet, entries: &Vec<DiffEntry>, path: &str)
    ensures
        final(collapsed)@ == old(collapsed)@.union(directories_within(entries@, path@)),
{
    let prefix = crate::text::concat2(path, "/");
    proof {
        reveal_strlit("/");
        assert("/"@ == seq!['/']);
    }
    let ghost before = collapsed@;
    let mut i: usize = 0;
    while i < entries.len()
        invariant
            i <= entries@.len(),
            prefix@ == path@ + seq!['/'],
            forall|p: Seq<char>|
                #[trigger] collapsed@.contains(p) <==> before.contains(p) || (is_ancestor(path@, p)
                    && exists|k: int|
                    0 <= k < i && (#[trigger] entries@[k]).is_directory
                        && entries@[k].relative_path@ == p),
        decreases entries@.len() - i,
    {
        let ghost had = collapsed@;
        let ghost full = entries@[i as int].relative_path@;
        let below = starts_with_text(entries[i].relative_path.as_str(), prefix.as_str());
        proof {
            assert(below == is_ancestor(path@, full)) by {
                if below {
                    assert(full[path@.len() as int] == prefix@[path@.len() as int]);
                    assert(full.take(path@.len() as int) == path@);
                }
                if is_ancestor(path@, full) {
                    assert(full.subrange(0, prefix@.len() as int) == prefix@);
                }
            }
        }
        if entries[i].is_directory && below {
            collapsed.insert(entries[i].relative_path.clone());
        }
        proof {
            assert forall|p: Seq<char>|
                #[trigger] collapsed@.contains(p) <==> before.contains(p) || (is_ancestor(path@, p)
                    && exists|k: int|
                    0 <= k < i + 1 && (#[trigger] entries@[k]).is_directory
                        && entries@[k].relative_path@ == p) by {
                assert(had.contains(p) <==> before.contains(p) || (is_ancestor(path@, p)
                    && exists|k: int|
                    0 <= k < i && (#[trigger] entries@[k]).is_directory
                        && entries@[k].relative_path@ == p));
                if is_ancestor(path@, p) && entries@[i as int].is_directory && full == p {
                    assert(entries@[i as int].is_directory);
                }
            }
        }
        i += 1;
    }
    collapsed.insert(path.to_owned());
    assert(collapsed@ == before.union(directories_within(entries@, path@)));
}

proof fn lemma_sorted_children(children: Seq<LoadedChild>)
    ensures
        sorted_children(children).len() == children.len(),
{
    let all = identity_order(children.len());
    assert(all.no_duplicates());
    law_arranged_is_ordered_rearrangement(child_keys(children), false, all);
}

/// The positions moved for `count` rows that were put in at `at`.
fn shift_rows(list: &Vec<usize>, at: usize, count: usize) -> (r: Vec<usize>)
    requires
        forall|k: int| 0 <= k < list@.len() ==> #[trigger] list@[k] + count <= usize::MAX,
    ensures
        positions(r@) == shifted(list@, at as int, count as int),
{
    let mut r: Vec<usize> = Vec::new();
    let mut i: usize = 0;
    while i < list.len()
        invariant
            i <= list@.len(),
            forall|k: int| 0 <= k < list@.len() ==> #[trigger] list@[k] + count <= usize::MAX,
            r@.len() == i,
            forall|k: int| 0 <= k < i ==> #[trigger] r@[k] == shifted(list@, at as int, count as int)[k],
        decreases list@.len() - i,
    {
        assert(list@[i as int] + count <= usize::MAX);
        if list[i] >= at {
            r.push(list[i] + count);
        } else {
            r.push(list[i]);
        }
        i += 1;
    }
    assert(positions(r@) == shifted(list@, at as int, count as int));
    r
}

/// Puts the directories among the rows among the collapsed ones.
pub fn collapse_directories(collapsed: &mut NameSet, rows: &Vec<DiffEntry>)
    ensures
        final(collapsed)@ == old(collapsed)@.union(directory_paths(rows@)),
{
    let ghost before = collapsed@;
    let mut i: usize = 0;
    while i < rows.len()
        invariant
            i <= rows@.len(),
            forall|p: Seq<char>|
                #[trigger] collapsed@.contains(p) <==> before.contains(p) || exists|k: int|
                    0 <= k < i && (#[trigger] rows@[k]).is_directory && rows@[k].relative_path@
                        == p,
        decreases rows@.len() - i,
    {
        let ghost had = collapsed@;
        if rows[i].is_directory {
            collapsed.insert(rows[i].relative_path.clone());
        }
        proof {
            assert forall|p: Seq<char>|
                #[trigger] collapsed@.contains(p) <==> before.contains(p) || exists|k: int|
                    0 <= k < i + 1 && (#[trigger] rows@[k]).is_directory && rows@[k].relative_path@
                        == p by {
                assert(had.contains(p) <==> before.contains(p) || exists|k: int|
                    0 <= k < i && (#[trigger] rows@[k]).is_directory && rows@[k].relative_path@
                        == p);
                if rows@[i as int].is_directory && rows@[i as int].relative_path@ == p {
                    assert(rows@[i as int].is_directory);
                }
            }
        }
        i += 1;
    }
    assert(collapsed@ == before.union(directory_paths(rows@)));
}

/// The row of a child of a one-sided directory.
fn child_row(parent: &DiffEntry, child: &LoadedChild) -> (r: DiffEntry)
    requires
        parent.depth < usize::MAX,
    ensures
        is_child_row(*parent, *child, r),
{
    let is_left = parent.status == DiffStatus::LeftOnly;
    let info: Option<DiffFileInfo> = match &child.info {
        Some(info) => Some(info.clone()),
        None => None,
    };
    let is_directory = match &child.info {
        Some(info) => info.is_directory,
        None => false,
    };
    proof {
        reveal_strlit("/");
        assert("/"@ == seq!['/']);
    }
    let relative_path = concat3(parent.relative_path.as_str(), "/", child.name.as_str());
    let (left, right) = if is_left {
        (info, None)
    } else {
        (None, info)
    };
    let left_missing = if left.is_none() {
        match &child.left_missing {
            Some(missing) => Some(missing.clone()),
            None => None,
        }
    } else {
        None
    };
    let right_missing = if right.is_none() {
        match &child.right_missing {
            Some(missing) => Some(missing.clone()),
            None => None,
        }
    } else {
        None
    };
    DiffEntry {
        relative_path,
        left,
        right,
        status: if is_left {
            DiffStatus::LeftOnly
        } else {
            DiffStatus::RightOnly
        },
        is_directory,
        depth: parent.depth + 1,
        children_not_loaded: is_directory,
        left_missing,
        right_missing,
    }
}

/// The positions of the children in the order in which they are shown.
fn sort_names_one_side(children: &Vec<LoadedChild>) -> (r: Vec<usize>)
    ensures
        positions(r@) == sorted_children(children@),
        forall|k: int| 0 <= k < r@.len() ==> #[trigger] r@[k] < children@.len(),
{
    let mut keys: Vec<ItemKey> = Vec::new();
    let mut all: Vec<usize> = Vec::new();
    let mut i: usize = 0;
    while i < children.len()
        invariant
            i <= children@.len(),
            keys@.len() == i,
            all@.len() == i,
            forall|k: int| 0 <= k < i ==> (#[trigger] keys@[k])@ == child_key(children@[k]),
            forall|k: int| 0 <= k < i ==> #[trigger] all@[k] == k,
        decreases children@.len() - i,
    {
        let lower = children[i].name.as_str().to_lowercase();
        let key = ItemKey {
            directory: children[i].leads_to_directory,
            major: codes_of(lower.as_str()),
            minor: Vec::new(),
            path: Vec::new(),
        };
        assert(ints(key.minor@) == Seq::<int>::empty());
        assert(ints(key.path@) == Seq::<int>::empty());
        keys.push(key);
        all.push(i);
        i += 1;
    }
    assert(key_views(keys@) == child_keys(children@));
    assert(positions(all@) == identity_order(children@.len()));
    arrange(&keys, false, &all)
}

/// The first child of which nothing could be told, in the order given.
pub open spec fn first_unknown(children: Seq<LoadedChild>, order: Seq<int>, from: int) -> Option<int>
    decreases order.len() - from,
{
    if from < 0 || from >= order.len() {
        None
    } else if children[order[from]].info is None {
        Some(order[from])
    } else {
        first_unknown(children, order, from + 1)
    }
}

/// Why the children of a directory that is read again cannot be put in.
pub open spec fn loading_error(
    parent: DiffEntry,
    children: Result<Vec<LoadedChild>, String>,
) -> Option<Seq<char>> {
    match children {
        Err(error) => Some(error@),
        Ok(list) => match first_unknown(list@, sorted_children(list@), 0) {
            Some(i) => Some(
                "Expanded DIFF entry '"@ + (parent.relative_path@ + seq!['/'] + list@[i].name@)
                    + "' changed while it was refreshed"@,
            ),
            None => None,
        },
    }
}

/// The first child of which nothing could be told, in the order shown.
fn find_unknown(children: &Vec<LoadedChild>) -> (r: Option<usize>)
    ensures
        match first_unknown(children@, sorted_children(children@), 0) {
            Some(i) => r matches Some(at) && at == i && at < children@.len(),
            None => r is None,
        },
{
    let order = sort_names_one_side(children);
    let mut i: usize = 0;
    while i < order.len()
        invariant
            i <= order@.len(),
            positions(order@) == sorted_children(children@),
            forall|k: int| 0 <= k < order@.len() ==> #[trigger] order@[k] < children@.len(),
            first_unknown(children@, sorted_children(children@), 0) == first_unknown(
                children@,
                sorted_children(children@),
                i as int,
            ),
        decreases order@.len() - i,
    {
        assert(order@[i as int] < children@.len());
        assert(positions(order@)[i as int] == order@[i as int]);
        if children[order[i]].info.is_none() {
            return Some(order[i]);
        }
        i += 1;
    }
    None
}

/// The rows of the children of a one-sided directory, in the order shown.
fn child_rows(parent: &DiffEntry, children: &Vec<LoadedChild>) -> (r: Vec<DiffEntry>)
    requires
        parent.depth < usize::MAX,
    ensures
        are_child_rows(*parent, children@, r@),
{
    let order = sort_names_one_side(children);
    let mut r: Vec<DiffEntry> = Vec::new();
    let mut i: usize = 0;
    while i < order.len()
        invariant
            i <= order@.len(),
            parent.depth < usize::MAX,
            positions(order@) == sorted_children(children@),
            forall|k: int| 0 <= k < order@.len() ==> #[trigger] order@[k] < children@.len(),
            r@.len() == i,
            forall|k: int|
                0 <= k < i ==> is_child_row(
                    *parent,
                    children@[sorted_children(children@)[k]],
                    #[trigger] r@[k],
                ),
        decreases order@.len() - i,
    {
        assert(order@[i as int] < children@.len());
        assert(positions(order@)[i as int] == order@[i as int]);
        r.push(child_row(parent, &children[order[i]]));
        i += 1;
    }
    r
}

impl DiffState {
    /// Shows the rows again with the cursor kept on `row`.
    pub(crate) fn show_at(&mut self, row: usize)
        ensures
            only_view_changed(*old(self), *final(self)),
            final(self).collapsed_dirs == old(self).collapsed_dirs,
            shown_at(*final(self), row as int, old(self).selected_index as int),
    {
        self.apply_filter();
        proof {
            crate::diff_state::law_shown_rows_are_exact(
                old(self).all_entries@,
                old(self).filter,
                old(self).collapsed_dirs@,
                old(self).all_entries@.len() as int,
            );
        }
        let ghost rows = old(self).rows_to_show();
        match find_row(&self.filtered_indices, row) {
            Some(i) => {
                proof {
                    assert(rows[i as int] == row);
                    assert(rows.contains(row as int));
                    let m = rows.index_of(row as int);
                    assert(rows[m] == row);
                    if m < i {
                        assert(rows[m] < rows[i as int]);
                    }
                    if i < m {
                        assert(rows[i as int] < rows[m]);
                    }
                }
                self.selected_index = i;
            },
            None => {},
        }
        if self.visible_height > 0 && self.selected_index >= self.visible_height {
            self.scroll_offset = self.selected_index - (self.visible_height - 1);
        }
    }

    /// Collapses the directory under the cursor with all directories below it.
    pub fn collapse(&mut self)
        ensures
            closed_at_cursor(*old(self), *final(self)),
    {
        let path: String = match self.current_entry() {
            Some(entry) => {
                if !entry.is_directory {
                    return;
                }
                entry.relative_path.clone()
            },
            None => {
                return;
            },
        };
        let row: usize = self.filtered_indices[self.selected_index];
        collapse_within(&mut self.collapsed_dirs, &self.all_entries, path.as_str());
        self.show_at(row);
    }

    /// Closes one level of the tree: an open directory collapses in place; from
    /// a file or a collapsed directory the directory that holds it is collapsed
    /// and takes the cursor.
    pub fn collapse_one_level(&mut self)
        ensures
            level_closed(*old(self), *final(self)),
    {
        let target_path: String = match self.current_entry() {
            Some(entry) => {
                if entry.is_directory && !self.collapsed_dirs.contains(
                    entry.relative_path.as_str(),
                ) {
                    entry.relative_path.clone()
                } else {
                    match parent_of_key(entry.relative_path.as_str()) {
                        Some(parent) => parent,
                        None => {
                            return;
                        },
                    }
                }
            },
            None => {
                return;
            },
        };
        let target: usize = match find_directory(&self.all_entries, target_path.as_str()) {
            Some(i) => i,
            None => {
                proof {
                    lemma_no_directory(self.all_entries@, target_path@, 0);
                }
                return;
            },
        };
        proof {
            lemma_first_directory(self.all_entries@, target_path@, target as int);
            assert(self.path_to_close() == Some(target_path@));
            assert(self.level_to_close() == Some(target as int));
        }
        collapse_within(&mut self.collapsed_dirs, &self.all_entries, target_path.as_str());
        self.show_at(target);
    }

    /// The directory whose children have to be read before the directory under
    /// the cursor can be opened.
    pub fn load_needed(&self) -> (r: Option<usize>)
        ensures
            match r {
                Some(i) => self.cursor_row() == Some(i as int) && is_unread(*self, i as int)
                    && self.collapsed_dirs@.contains(self.all_entries@[i as int].relative_path@),
                None => self.cursor_row() matches Some(i) ==> !(is_unread(*self, i)
                    && self.collapsed_dirs@.contains(self.all_entries@[i].relative_path@)),
            },
    {
        match self.current_entry() {
            Some(entry) => {
                if entry.is_directory && entry.children_not_loaded && self.collapsed_dirs.contains(
                    entry.relative_path.as_str(),
                ) {
                    Some(self.filtered_indices[self.selected_index])
                } else {
                    None
                }
            },
            None => None,
        }
    }

    /// Puts the children of a one-sided directory into the tree. A row that is
    /// no unread directory is left as it is.
    pub fn lazy_load_children(&mut self, all_entry_idx: usize, children: Vec<LoadedChild>)
        requires
            all_entry_idx < old(self).all_entries@.len(),
            old(self).all_entries@.len() + children@.len() <= usize::MAX,
            old(self).all_entries@[all_entry_idx as int].depth < usize::MAX,
            old(self).wf(),
        ensures
            is_unread(*old(self), all_entry_idx as int) ==> children_loaded(
                *old(self),
                *final(self),
                all_entry_idx as int,
                children@,
            ),
            !is_unread(*old(self), all_entry_idx as int) ==> *final(self) == *old(self),
            final(self).wf(),
    {
        if !self.all_entries[all_entry_idx].children_not_loaded
            || !self.all_entries[all_entry_idx].is_directory {
            return;
        }
        let at: usize = all_entry_idx;
        let mut rows = child_rows(&self.all_entries[at], &children);
        let count: usize = rows.len();
        let ghost parent = self.all_entries@[at as int];
        let ghost added = rows@;
        proof {
            lemma_sorted_children(children@);
        }
        collapse_directories(&mut self.collapsed_dirs, &rows);
        let mut tail = self.all_entries.split_off(at + 1);
        let mut last = self.all_entries.pop().unwrap();
        last.children_not_loaded = false;
        self.all_entries.push(last);
        self.all_entries.append(&mut rows);
        self.all_entries.append(&mut tail);
        let shifted_rows = shift_rows(&self.filtered_indices, at + 1, count);
        self.filtered_indices = shifted_rows;
        proof {
            let all = self.all_entries@;
            let was = old(self).all_entries@;
            assert(all.subrange(at + 1, at + 1 + count) == added);
            assert(was.subrange(0, at + 1).drop_last() == was.take(at as int));
            assert(was.subrange(at + 1, was.len() as int) == was.skip(at + 1));
            assert(all == was.take(at as int).push(
                (DiffEntry { children_not_loaded: false, ..parent }),
            ) + added + was.skip(at + 1));
            assert(positions(self.filtered_indices@).len() == old(self).filtered_indices@.len());
            assert forall|k: int| 0 <= k < self.filtered_indices@.len() implies #[trigger] self.filtered_indices@[k]
                < all.len() by {
                assert(positions(self.filtered_indices@)[k] == self.filtered_indices@[k]);
                assert(old(self).filtered_indices@[k] < was.len());
            }
        }
    }

    /// Puts in the children of a directory that is read again. Nothing changes where
    /// the directory could not be read, or one of the children changed meanwhile.
    pub fn lazy_load_children_checked(
        &mut self,
        all_entry_idx: usize,
        children: Result<Vec<LoadedChild>, String>,
    ) -> (r: Result<(), String>)
        requires
            all_entry_idx < old(self).all_entries@.len(),
            children matches Ok(list) ==> old(self).all_entries@.len() + list@.len() <= usize::MAX,
            old(self).all_entries@[all_entry_idx as int].depth < usize::MAX,
            old(self).wf(),
        ensures
            if !is_unread(*old(self), all_entry_idx as int) {
                *final(self) == *old(self) && r is Ok
            } else {
                match loading_error(old(self).all_entries@[all_entry_idx as int], children) {
                    Some(error) => *final(self) == *old(self) && (r matches Err(e) && e@ == error),
                    None => r is Ok && children_loaded(
                        *old(self),
                        *final(self),
                        all_entry_idx as int,
                        children->Ok_0@,
                    ),
                }
            },
            final(self).wf(),
    {
        if !self.all_entries[all_entry_idx].children_not_loaded
            || !self.all_entries[all_entry_idx].is_directory {
            return Ok(());
        }
        let list = children?;
        match find_unknown(&list) {
            Some(at) => {
                let child = concat3(
                    self.all_entries[all_entry_idx].relative_path.as_str(),
                    "/",
                    list[at].name.as_str(),
                );
                proof {
                    reveal_strlit("/");
                    assert("/"@ =~= seq!['/']);
                }
                Err(
                    concat3(
                        "Expanded DIFF entry '",
                        child.as_str(),
                        "' changed while it was refreshed",
                    ),
                )
            },
            None => {
                self.lazy_load_children(all_entry_idx, list);
                Ok(())
            },
        }
    }

    /// Opens the collapsed directory at `row`.
    fn open_row(&mut self, row: usize, children: Vec<LoadedChild>)
        requires
            row < old(self).all_entries@.len(),
            old(self).all_entries@.len() + children@.len() <= usize::MAX,
            old(self).all_entries@[row as int].depth < usize::MAX,
            old(self).wf(),
        ensures
            opened(*old(self), *final(self), row as int, children@),
    {
        let path = self.all_entries[row].relative_path.clone();
        self.lazy_load_children(row, children);
        self.collapsed_dirs.remove(path.as_str());
        self.show_at(row);
    }

    /// Opens the directory under the cursor if it is collapsed, else collapses
    /// it with all directories below it. `children` are used where they were
    /// not read yet.
    pub fn toggle_collapse(&mut self, children: Vec<LoadedChild>)
        requires
            old(self).wf(),
            room_for(*old(self), children@),
        ensures
            toggled_at_cursor(*old(self), *final(self), children@),
    {
        let collapsed = match self.current_entry() {
            Some(entry) => {
                if !entry.is_directory {
                    return;
                }
                self.collapsed_dirs.contains(entry.relative_path.as_str())
            },
            None => {
                return;
            },
        };
        if collapsed {
            let row: usize = self.filtered_indices[self.selected_index];
            self.open_row(row, children);
        } else {
            self.collapse();
        }
    }

    /// Opens the directory under the cursor by one level if it is collapsed.
    pub fn expand_one_level(&mut self, children: Vec<LoadedChild>)
        requires
            old(self).wf(),
            room_for(*old(self), children@),
        ensures
            level_opened(*old(self), *final(self), children@),
    {
        match self.current_entry() {
            Some(entry) => {
                if !entry.is_directory || !self.collapsed_dirs.contains(
                    entry.relative_path.as_str(),
                ) {
                    return;
                }
            },
            None => {
                return;
            },
        }
        let row: usize = self.filtered_indices[self.selected_index];
        self.open_row(row, children);
    }

    /// The path of the directory that closing one level collapses.
    pub open spec fn path_to_close(self) -> Option<Seq<char>> {
        match self.cursor_row() {
            Some(i) => {
                let entry = self.all_entries@[i];
                if entry.is_directory && !self.collapsed_dirs@.contains(entry.relative_path@) {
                    Some(entry.relative_path@)
                } else {
                    parent_key(entry.relative_path@)
                }
            },
            None => None,
        }
    }

    /// The row of the directory that closing one level collapses.
    pub open spec fn level_to_close(self) -> Option<int> {
        match self.path_to_close() {
            Some(path) => first_directory(self.all_entries@, path, 0),
            None => None,
        }
    }
}

/// The first row from `from` on that is the directory `path`.
pub open spec fn first_directory(entries: Seq<DiffEntry>, path: Seq<char>, from: int) -> Option<int>
    decreases entries.len() - from,
{
    if from >= entries.len() {
        None
    } else if entries[from].is_directory && entries[from].relative_path@ == path {
        Some(from)
    } else {
        first_directory(entries, path, from + 1)
    }
}

pub proof fn lemma_first_directory(entries: Seq<DiffEntry>, path: Seq<char>, at: int)
    requires
        0 <= at < entries.len(),
        entries[at].is_directory && entries[at].relative_path@ == path,
        forall|k: int|
            0 <= k < at ==> !((#[trigger] entries[k]).is_directory && entries[k].relative_path@ == path),
    ensures
        first_directory(entries, path, 0) == Some(at),
{
    lemma_first_directory_from(entries, path, at, 0);
}

proof fn lemma_first_directory_from(entries: Seq<DiffEntry>, path: Seq<char>, at: int, from: int)
    requires
        0 <= from <= at < entries.len(),
        entries[at].is_directory && entries[at].relative_path@ == path,
        forall|k: int|
            0 <= k < at ==> !((#[trigger] entries[k]).is_directory && entries[k].relative_path@ == path),
    ensures
        first_directory(entries, path, from) == Some(at),
    decreases at - from,
{
    if from < at {
        assert(!(entries[from].is_directory && entries[from].relative_path@ == path));
        lemma_first_directory_from(entries, path, at, from + 1);
    }
}

pub proof fn lemma_no_directory(entries: Seq<DiffEntry>, path: Seq<char>, from: int)
    requires
        0 <= from,
        forall|k: int|
            0 <= k < entries.len() ==> !((#[trigger] entries[k]).is_directory
                && entries[k].relative_path@ == path),
    ensures
        first_directory(entries, path, from) is None,
    decreases entries.len() - from,
{
    if from < entries.len() {
        assert(!(entries[from].is_directory && entries[from].relative_path@ == path));
        lemma_no_directory(entries, path, from + 1);
    }
}

/// A directory that is closed is collapsed with every directory below it; no other becomes
/// so, no row changes, and the cursor is on it where it is shown.
pub proof fn law_closed_directory_is_collapsed(
    before: DiffState,
    after: DiffState,
    at: int,
    p: Seq<char>,
)
    requires
        0 <= at < before.all_entries@.len(),
        closed_at(before, after, at),
    ensures
        after.all_entries == before.all_entries,
        after.filter == before.filter,
        after.selected_files == before.selected_files,
        after.collapsed_dirs@.contains(before.all_entries@[at].relative_path@),
        before.collapsed_dirs@.contains(p) ==> after.collapsed_dirs@.contains(p),
        after.collapsed_dirs@.contains(p) && !before.collapsed_dirs@.contains(p) ==> p
            == before.all_entries@[at].relative_path@ || is_ancestor(
            before.all_entries@[at].relative_path@,
            p,
        ),
        forall|k: int|
            0 <= k < before.all_entries@.len() && (#[trigger] before.all_entries@[k]).is_directory
                && is_ancestor(
                before.all_entries@[at].relative_path@,
                before.all_entries@[k].relative_path@,
            ) ==> after.collapsed_dirs@.contains(before.all_entries@[k].relative_path@),
        positions(after.filtered_indices@) == after.rows_to_show(),
        after.rows_to_show().contains(at) ==> after.selected_index < after.filtered_indices@.len()
            && after.filtered_indices@[after.selected_index as int] == at,
{
    let rows = after.rows_to_show();
    let path = before.all_entries@[at].relative_path@;
    assert forall|k: int|
        0 <= k < before.all_entries@.len() && (#[trigger] before.all_entries@[k]).is_directory
            && is_ancestor(path, before.all_entries@[k].relative_path@) implies after.collapsed_dirs@.contains(
        before.all_entries@[k].relative_path@,
    ) by {
        assert(directories_within(before.all_entries@, path).contains(
            before.all_entries@[k].relative_path@,
        ));
    }
    assert(directories_within(before.all_entries@, path).contains(path));
    if rows.contains(at) {
        assert(positions(after.filtered_indices@)[after.selected_index as int]
            == after.filtered_indices@[after.selected_index as int]);
        assert(positions(after.filtered_indices@).len() == after.filtered_indices@.len());
        assert(rows[rows.index_of(at)] == at);
    }
}

/// A directory that is opened is no longer collapsed; everything else that was stays so, and
/// what is read in below it begins collapsed. What is below is read exactly where it was not
/// yet.
pub proof fn law_opened_directory_is_open(
    before: DiffState,
    after: DiffState,
    at: int,
    children: Seq<LoadedChild>,
    p: Seq<char>,
)
    requires
        0 <= at < before.all_entries@.len(),
        opened(before, after, at, children),
    ensures
        ({
            let row = before.all_entries@[at];
            let unread = row.children_not_loaded && row.is_directory;
            &&& !after.collapsed_dirs@.contains(row.relative_path@)
            &&& p != row.relative_path@ && before.collapsed_dirs@.contains(p)
                ==> after.collapsed_dirs@.contains(p)
            &&& !unread ==> after.all_entries@ == before.all_entries@
            &&& !unread && p != row.relative_path@ ==> after.collapsed_dirs@.contains(p)
                == before.collapsed_dirs@.contains(p)
            &&& unread ==> after.all_entries@.len() == before.all_entries@.len()
                + sorted_children(children).len()
            &&& unread ==> !after.all_entries@[at].children_not_loaded
            &&& after.all_entries@[at].relative_path == row.relative_path
            &&& after.filter == before.filter
        }),
        positions(after.filtered_indices@) == after.rows_to_show(),
{
}

/// Closing one level closes the open directory under the cursor, or else the one that holds
/// the row.
pub proof fn law_level_that_is_closed(state: DiffState, target: int)
    requires
        state.cursor_row() is Some,
        state.level_to_close() == Some(target),
    ensures
        ({
            let entry = state.all_entries@[state.cursor_row()->0];
            let open = entry.is_directory && !state.collapsed_dirs@.contains(entry.relative_path@);
            &&& 0 <= target < state.all_entries@.len()
            &&& state.all_entries@[target].is_directory
            &&& open ==> state.all_entries@[target].relative_path@ == entry.relative_path@
            &&& !open ==> Some(state.all_entries@[target].relative_path@) == parent_key(
                entry.relative_path@,
            )
        }),
{
    lemma_directory_found(state.all_entries@, state.path_to_close()->0, 0);
}

proof fn lemma_directory_found(entries: Seq<DiffEntry>, path: Seq<char>, from: int)
    requires
        0 <= from,
    ensures
        first_directory(entries, path, from) matches Some(at) ==> from <= at < entries.len()
            && entries[at].is_directory && entries[at].relative_path@ == path,
    decreases entries.len() - from,
{
    if from < entries.len() && !(entries[from].is_directory && entries[from].relative_path@ == path) {
        lemma_directory_found(entries, path, from + 1);
    }
}

/// The rows that are shown are the same rows after others were put in before them.
pub proof fn law_shown_rows_move_with_their_rows(
    was: Seq<DiffEntry>,
    now: Seq<DiffEntry>,
    at: int,
    children: Seq<LoadedChild>,
    shown: Seq<usize>,
    k: int,
)
    requires
        0 <= at < was.len(),
        rows_loaded(was, now, at, children),
        0 <= k < shown.len(),
        shown[k] < was.len(),
        shown[k] != at,
    ensures
        now[shifted(shown, at + 1, sorted_children(children).len() as int)[k]] == was[shown[k] as int],
{
    let count = sorted_children(children).len() as int;
    let i = shown[k] as int;
    if i > at {
        assert(now[i + count] == was.skip(at + 1)[i - at - 1]);
    }
}

/// A directory is opened and closed in turn by one key; a row that is none is left alone.
pub proof fn law_one_key_opens_and_closes(
    before: DiffState,
    after: DiffState,
    children: Seq<LoadedChild>,
)
    requires
        toggled_at_cursor(before, after, children),
    ensures
        before.cursor_row() matches Some(i) ==> {
            let row = before.all_entries@[i];
            &&& row.is_directory ==> after.collapsed_dirs@.contains(row.relative_path@)
                == !before.collapsed_dirs@.contains(row.relative_path@)
            &&& !row.is_directory ==> after == before
        },
        before.cursor_row() is None ==> after == before,
{
}

/// Children of which nothing could be told stop a refresh; the first of them in the order
/// shown is named.
pub proof fn law_unknown_children_stop_a_refresh(
    parent: DiffEntry,
    list: Vec<LoadedChild>,
    error: String,
)
    ensures
        loading_error(parent, Err(error)) == Some(error@),
        (forall|k: int|
            0 <= k < sorted_children(list@).len() ==> list@[#[trigger] sorted_children(
                list@,
            )[k]].info is Some) <==> loading_error(parent, Ok(list)) is None,
{
    lemma_unknown(list@, sorted_children(list@), 0);
}

proof fn lemma_unknown(children: Seq<LoadedChild>, order: Seq<int>, from: int)
    requires
        0 <= from,
    ensures
        first_unknown(children, order, from) is None <==> forall|k: int|
            from <= k < order.len() ==> children[#[trigger] order[k]].info is Some,
    decreases order.len() - from,
{
    if from < order.len() && children[order[from]].info is Some {
        lemma_unknown(children, order, from + 1);
    }
}

} // verus!
