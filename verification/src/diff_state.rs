//! The state of the comparison screen: which rows are shown, where the cursor
//! stands, what is collapsed and what is marked.

use crate::authorization::{
    DirectoryAuthorization, MissingPathAuthorization, PathAuthorization, TreeAuthorization,
};
use crate::diff_tree::{resort_flat_tree, resorted};
use crate::diff_types::{diff_status_has_difference, differs, CompareMethod, DiffEntry, DiffFilter};
use crate::names::NameSet;
use crate::ranking::positions;
use crate::sorting::{SortBy, SortOrder};
use crate::text::{chars_of, slice_of, stands_at, string_of};
use vstd::prelude::*;

verus! {

/// An item that the user was asked about: the directory that holds it, the item
/// itself, and its tree where it is a directory.
#[derive(Debug)]
pub struct DiffAuthorizedItem {
    pub parent: DirectoryAuthorization,
    pub item: PathAuthorization,
    pub tree: Option<TreeAuthorization>,
}

/// What was seen when the copy dialog was opened.
#[derive(Debug)]
pub struct DiffCopyPrompt {
    pub relative_path: String,
    pub left_root: DirectoryAuthorization,
    pub right_root: DirectoryAuthorization,
    pub left_item: Option<DiffAuthorizedItem>,
    pub right_item: Option<DiffAuthorizedItem>,
    pub left_missing: Option<MissingPathAuthorization>,
    pub right_missing: Option<MissingPathAuthorization>,
}

/// What was seen when the delete dialog was opened.
#[derive(Debug)]
pub struct DiffDeletePrompt {
    pub relative_path: String,
    pub left_root: DirectoryAuthorization,
    pub right_root: DirectoryAuthorization,
    pub left_item: Option<DiffAuthorizedItem>,
    pub right_item: Option<DiffAuthorizedItem>,
    pub left_missing: Option<MissingPathAuthorization>,
    pub right_missing: Option<MissingPathAuthorization>,
    pub contains_directory: bool,
}

/// The comparison screen.
#[derive(Debug)]
pub struct DiffState {
    pub left_root: String,
    pub right_root: String,
    pub all_entries: Vec<DiffEntry>,
    /// The rows that are shown, as positions in `all_entries`.
    pub filtered_indices: Vec<usize>,
    pub selected_index: usize,
    pub scroll_offset: usize,
    pub filter: DiffFilter,
    pub sort_by: SortBy,
    pub sort_order: SortOrder,
    pub compare_method: CompareMethod,
    pub selected_files: NameSet,
    pub visible_height: usize,
    /// The relative paths of the collapsed directories.
    pub collapsed_dirs: NameSet,
    pub is_comparing: bool,
    pub progress_current: String,
    pub progress_count: usize,
    pub progress_total: usize,
    pub left_root_authorization: Option<DirectoryAuthorization>,
    pub right_root_authorization: Option<DirectoryAuthorization>,
    pub copy_prompt: Option<DiffCopyPrompt>,
    pub copy_in_progress: bool,
    pub pending_copy_path: Option<String>,
    pub delete_prompt: Option<DiffDeletePrompt>,
    pub delete_in_progress: bool,
    pub pending_delete_path: Option<String>,
}

/// What the comparison worker tells while it runs.
#[derive(Debug)]
pub enum DiffProgressMsg {
    Counting(usize),
    Comparing(String, usize, usize),
}

/// What came of the comparison worker since the last look.
#[derive(Debug)]
pub enum DiffCompletion {
    /// It is still at work.
    Pending,
    /// It is done, with these rows.
    Finished(Vec<DiffEntry>),
    /// It went away without a result.
    Disconnected,
}

/// Whether the directory `above` is an ancestor of `path`.
pub open spec fn is_ancestor(above: Seq<char>, path: Seq<char>) -> bool {
    above.len() < path.len() && path[above.len() as int] == '/' && path.take(above.len() as int)
        == above
}

/// Whether `path` is `root` or lies below it.
pub open spec fn is_within(path: Seq<char>, root: Seq<char>) -> bool {
    path == root || is_ancestor(root, path)
}

/// Whether row `i` is a directory above a row that passes the filter.
pub open spec fn leads_to_match(entries: Seq<DiffEntry>, filter: DiffFilter, i: int) -> bool {
    entries[i].is_directory && exists|j: int|
        0 <= j < entries.len() && filter.admits((#[trigger] entries[j]).status) && entries[j].depth > 0
            && is_ancestor(entries[i].relative_path@, entries[j].relative_path@)
}

/// Whether row `i` is inside a collapsed directory.
pub open spec fn is_hidden(entry: DiffEntry, collapsed: Set<Seq<char>>) -> bool {
    entry.depth > 0 && exists|a: Seq<char>|
        #[trigger] collapsed.contains(a) && is_ancestor(a, entry.relative_path@)
}

/// Whether row `i` is shown: it passes the filter or leads to a row that does,
/// and no directory above it is collapsed.
pub open spec fn is_shown(
    entries: Seq<DiffEntry>,
    filter: DiffFilter,
    collapsed: Set<Seq<char>>,
    i: int,
) -> bool {
    (filter.admits(entries[i].status) || (filter != DiffFilter::All && leads_to_match(
        entries,
        filter,
        i,
    ))) && !is_hidden(entries[i], collapsed)
}

/// The rows among the first `n` that are shown, in order.
pub open spec fn shown_rows(
    entries: Seq<DiffEntry>,
    filter: DiffFilter,
    collapsed: Set<Seq<char>>,
    n: int,
) -> Seq<int>
    decreases n,
{
    if n <= 0 {
        Seq::empty()
    } else {
        let before = shown_rows(entries, filter, collapsed, n - 1);
        if is_shown(entries, filter, collapsed, n - 1) {
            before.push(n - 1)
        } else {
            before
        }
    }
}

/// The paths of the directories among the rows.
pub open spec fn directory_paths(entries: Seq<DiffEntry>) -> Set<Seq<char>> {
    Set::new(
        |p: Seq<char>|
            exists|k: int|
                0 <= k < entries.len() && (#[trigger] entries[k]).is_directory
                    && entries[k].relative_path@ == p,
    )
}

/// The paths of all rows.
pub open spec fn row_paths(entries: Seq<DiffEntry>) -> Set<Seq<char>> {
    Set::new(
        |p: Seq<char>|
            exists|k: int| 0 <= k < entries.len() && (#[trigger] entries[k]).relative_path@ == p,
    )
}

/// A cursor position held inside a list of `len` rows.
pub open spec fn clamped(index: int, len: nat) -> int {
    if len == 0 {
        0
    } else if index < 0 {
        0
    } else if index >= len {
        len - 1
    } else {
        index
    }
}

/// Whether the directory is an ancestor of the path.
fn is_ancestor_path(above: &Vec<char>, path: &Vec<char>) -> (r: bool)
    ensures
        r == is_ancestor(above@, path@),
{
    if above.len() >= path.len() || path[above.len()] != '/' {
        return false;
    }
    let r = stands_at(path, above, 0);
    assert(path@.subrange(0, above@.len() as int) == path@.take(above@.len() as int));
    r
}

/// Whether `path` is `root` or lies below it.
pub fn diff_path_is_within(path: &str, root: &str) -> (r: bool)
    ensures
        r == is_within(path@, root@),
{
    let p = chars_of(path);
    let q = chars_of(root);
    if is_ancestor_path(&q, &p) {
        true
    } else {
        crate::text::same_chars(&p, &q)
    }
}

/// The end of the rows below row `root`: the first later row that is not
/// deeper.
pub open spec fn subtree_end(entries: Seq<DiffEntry>, root: int, from: int) -> int
    decreases entries.len() - from,
{
    if from >= entries.len() {
        entries.len() as int
    } else if entries[from].depth <= entries[root].depth {
        from
    } else {
        subtree_end(entries, root, from + 1)
    }
}

/// The end of the rows below row `root_index`.
pub fn diff_subtree_end(entries: &Vec<DiffEntry>, root_index: usize) -> (r: usize)
    requires
        root_index < entries@.len(),
    ensures
        r == subtree_end(entries@, root_index as int, root_index + 1),
        root_index < r <= entries@.len(),
        forall|k: int| root_index < k < r ==> (#[trigger] entries@[k]).depth > entries@[root_index as int].depth,
        r < entries@.len() ==> entries@[r as int].depth <= entries@[root_index as int].depth,
{
    let count: usize = entries.len();
    let depth: usize = entries[root_index].depth;
    let mut i: usize = root_index + 1;
    while i < count && entries[i].depth > depth
        invariant
            count == entries@.len(),
            root_index < i <= entries@.len(),
            depth == entries@[root_index as int].depth,
            subtree_end(entries@, root_index as int, root_index + 1) == subtree_end(
                entries@,
                root_index as int,
                i as int,
            ),
            forall|k: int| root_index < k < i ==> (#[trigger] entries@[k]).depth > depth,
        decreases entries@.len() - i,
    {
        i += 1;
    }
    i
}

/// The marks once the path is marked, or its mark taken away.
pub open spec fn marks_toggled(marks: Set<Seq<char>>, path: Seq<char>) -> Set<Seq<char>> {
    if marks.contains(path) {
        marks.remove(path)
    } else {
        marks.insert(path)
    }
}

impl DiffState {
    /// Whether every shown row is a row.
    pub open spec fn wf(self) -> bool {
        forall|k: int|
            0 <= k < self.filtered_indices@.len() ==> #[trigger] self.filtered_indices@[k]
                < self.all_entries@.len()
    }

    /// The rows that the filter and the collapsed directories leave.
    pub open spec fn rows_to_show(self) -> Seq<int> {
        shown_rows(
            self.all_entries@,
            self.filter,
            self.collapsed_dirs@,
            self.all_entries@.len() as int,
        )
    }

    /// The row under the cursor, as a position in `all_entries`.
    pub open spec fn cursor_row(self) -> Option<int> {
        if self.selected_index < self.filtered_indices@.len()
            && self.filtered_indices@[self.selected_index as int] < self.all_entries@.len() {
            Some(self.filtered_indices@[self.selected_index as int] as int)
        } else {
            None
        }
    }

    /// Whether nothing was compared, moved, marked or begun yet.
    pub open spec fn is_untouched(self) -> bool {
        &&& self.all_entries@ == Seq::<DiffEntry>::empty()
        &&& self.filtered_indices@ == Seq::<usize>::empty()
        &&& self.selected_index == 0
        &&& self.scroll_offset == 0
        &&& self.filter == DiffFilter::DifferentOnly
        &&& self.selected_files@ == Set::<Seq<char>>::empty()
        &&& self.visible_height == 0
        &&& self.collapsed_dirs@ == Set::<Seq<char>>::empty()
        &&& !self.is_comparing
        &&& self.progress_current@ == Seq::<char>::empty()
        &&& self.progress_count == 0
        &&& self.progress_total == 0
        &&& self.left_root_authorization is None
        &&& self.right_root_authorization is None
        &&& self.copy_prompt is None
        &&& !self.copy_in_progress
        &&& self.pending_copy_path is None
        &&& self.delete_prompt is None
        &&& !self.delete_in_progress
        &&& self.pending_delete_path is None
    }

    /// A screen for two directories, before anything was compared.
    pub fn new(
        left: String,
        right: String,
        compare_method: CompareMethod,
        sort_by: SortBy,
        sort_order: SortOrder,
    ) -> (r: Self)
        ensures
            r.is_untouched(),
            r.left_root == left,
            r.right_root == right,
            r.compare_method == compare_method,
            r.sort_by == sort_by,
            r.sort_order == sort_order,
            r.wf(),
    {
        DiffState {
            left_root: left,
            right_root: right,
            all_entries: Vec::new(),
            filtered_indices: Vec::new(),
            selected_index: 0,
            scroll_offset: 0,
            filter: DiffFilter::DifferentOnly,
            sort_by,
            sort_order,
            compare_method,
            selected_files: NameSet::new(),
            visible_height: 0,
            collapsed_dirs: NameSet::new(),
            is_comparing: false,
            progress_current: String::new(),
            progress_count: 0,
            progress_total: 0,
            left_root_authorization: None,
            right_root_authorization: None,
            copy_prompt: None,
            copy_in_progress: false,
            pending_copy_path: None,
            delete_prompt: None,
            delete_in_progress: false,
            pending_delete_path: None,
        }
    }

    /// Whether a directory above the row is collapsed.
    fn is_hidden_by_collapsed_ancestor(&self, entry: &DiffEntry) -> (r: bool)
        ensures
            r == is_hidden(*entry, self.collapsed_dirs@),
    {
        if entry.depth == 0 {
            return false;
        }
        let path = chars_of(entry.relative_path.as_str());
        let mut k: usize = path.len();
        while k > 0
            invariant
                k <= path@.len(),
                path@ == entry.relative_path@,
                entry.depth > 0,
                forall|m: int|
                    k <= m < path@.len() && path@[m] == '/' ==> !self.collapsed_dirs@.contains(
                        #[trigger] path@.take(m),
                    ),
            decreases k,
        {
            k -= 1;
            if path[k] == '/' {
                let above = slice_of(&path, 0, k);
                assert(above@ == path@.take(k as int));
                let above = string_of(&above);
                if self.collapsed_dirs.contains(above.as_str()) {
                    assert(is_ancestor(above@, entry.relative_path@));
                    return true;
                }
            }
        }
        proof {
            if is_hidden(*entry, self.collapsed_dirs@) {
                let a = choose|a: Seq<char>|
                    #[trigger] self.collapsed_dirs@.contains(a) && is_ancestor(
                        a,
                        entry.relative_path@,
                    );
                assert(path@.take(a.len() as int) == a);
            }
        }
        false
    }

    /// For each row, whether it passes the filter or leads to a row that does.
    fn matching_rows(&self) -> (r: Vec<bool>)
        ensures
            r@.len() == self.all_entries@.len(),
            forall|i: int|
                0 <= i < r@.len() ==> #[trigger] r@[i] == (self.filter.admits(
                    self.all_entries@[i].status,
                ) || (self.filter != DiffFilter::All && leads_to_match(
                    self.all_entries@,
                    self.filter,
                    i,
                ))),
    {
        let n: usize = self.all_entries.len();
        let mut paths: Vec<Vec<char>> = Vec::new();
        let mut i: usize = 0;
        while i < n
            invariant
                i <= n,
                n == self.all_entries@.len(),
                paths@.len() == i,
                forall|k: int|
                    0 <= k < i ==> (#[trigger] paths@[k])@ == self.all_entries@[k].relative_path@,
            decreases n - i,
        {
            paths.push(chars_of(self.all_entries[i].relative_path.as_str()));
            i += 1;
        }
        let mut r: Vec<bool> = Vec::new();
        i = 0;
        while i < n
            invariant
                i <= n,
                n == self.all_entries@.len(),
                paths@.len() == n,
                forall|k: int|
                    0 <= k < n ==> (#[trigger] paths@[k])@ == self.all_entries@[k].relative_path@,
                r@.len() == i,
                forall|k: int|
                    0 <= k < i ==> #[trigger] r@[k] == (self.filter.admits(
                        self.all_entries@[k].status,
                    ) || (self.filter != DiffFilter::All && leads_to_match(
                        self.all_entries@,
                        self.filter,
                        k,
                    ))),
            decreases n - i,
        {
            let mut shown = self.filter.matches_status(self.all_entries[i].status);
            if !shown && self.filter != DiffFilter::All && self.all_entries[i].is_directory {
                let mut j: usize = 0;
                while j < n && !shown
                    invariant
                        j <= n,
                        i < n,
                        n == self.all_entries@.len(),
                        paths@.len() == n,
                        self.all_entries@[i as int].is_directory,
                        forall|k: int|
                            0 <= k < n ==> (#[trigger] paths@[k])@
                                == self.all_entries@[k].relative_path@,
                        shown ==> leads_to_match(self.all_entries@, self.filter, i as int),
                        !shown ==> forall|k: int|
                            0 <= k < j ==> !(self.filter.admits(
                                (#[trigger] self.all_entries@[k]).status,
                            ) && self.all_entries@[k].depth > 0 && is_ancestor(
                                self.all_entries@[i as int].relative_path@,
                                self.all_entries@[k].relative_path@,
                            )),
                    decreases n - j,
                {
                    assert(paths@[i as int]@ == self.all_entries@[i as int].relative_path@);
                    assert(paths@[j as int]@ == self.all_entries@[j as int].relative_path@);
                    if self.filter.matches_status(self.all_entries[j].status)
                        && self.all_entries[j].depth > 0 && is_ancestor_path(&paths[i], &paths[j]) {
                        shown = true;
                    }
                    j += 1;
                }
            }
            r.push(shown);
            i += 1;
        }
        r
    }

    /// Shows the rows that the filter and the collapsed directories leave, with
    /// the cursor held inside them and the view at the top.
    pub fn apply_filter(&mut self)
        ensures
            *final(self) == (DiffState {
                filtered_indices: final(self).filtered_indices,
                selected_index: final(self).selected_index,
                scroll_offset: 0,
                ..*old(self)
            }),
            positions(final(self).filtered_indices@) == old(self).rows_to_show(),
            final(self).selected_index == clamped(
                old(self).selected_index as int,
                old(self).rows_to_show().len(),
            ),
            final(self).wf(),
    {
        let matching = self.matching_rows();
        let n: usize = self.all_entries.len();
        let mut rows: Vec<usize> = Vec::new();
        let mut i: usize = 0;
        assert(positions(rows@) == Seq::<int>::empty());
        while i < n
            invariant
                i <= n,
                n == self.all_entries@.len(),
                matching@.len() == n,
                *self == *old(self),
                forall|k: int|
                    0 <= k < n ==> #[trigger] matching@[k] == (self.filter.admits(
                        self.all_entries@[k].status,
                    ) || (self.filter != DiffFilter::All && leads_to_match(
                        self.all_entries@,
                        self.filter,
                        k,
                    ))),
                positions(rows@) == shown_rows(
                    self.all_entries@,
                    self.filter,
                    self.collapsed_dirs@,
                    i as int,
                ),
                forall|k: int| 0 <= k < rows@.len() ==> #[trigger] rows@[k] < n,
            decreases n - i,
        {
            assert(matching@[i as int] == (self.filter.admits(self.all_entries@[i as int].status) || (
            self.filter != DiffFilter::All && leads_to_match(
                self.all_entries@,
                self.filter,
                i as int,
            ))));
            if matching[i] && !self.is_hidden_by_collapsed_ancestor(&self.all_entries[i]) {
                let ghost before = rows@;
                rows.push(i);
                assert(positions(rows@) == positions(before).push(i as int));
            }
            i += 1;
        }
        let count: usize = rows.len();
        self.filtered_indices = rows;
        if self.selected_index >= count {
            self.selected_index = if count > 0 { count - 1 } else { 0 };
        }
        self.scroll_offset = 0;
    }

    /// The row under the cursor.
    pub fn current_entry(&self) -> (r: Option<&DiffEntry>)
        ensures
            match self.cursor_row() {
                Some(i) => r == Some(&self.all_entries@[i]),
                None => r is None,
            },
    {
        if self.selected_index < self.filtered_indices.len() {
            let row: usize = self.filtered_indices[self.selected_index];
            if row < self.all_entries.len() {
                return Some(&self.all_entries[row]);
            }
        }
        None
    }

    /// Moves the cursor by `delta` rows, held inside the list.
    pub fn move_cursor(&mut self, delta: i32)
        ensures
            *final(self) == (DiffState {
                selected_index: final(self).selected_index,
                ..*old(self)
            }),
            final(self).selected_index == if old(self).filtered_indices@.len() == 0 {
                old(self).selected_index as int
            } else {
                clamped(old(self).selected_index + delta, old(self).filtered_indices@.len())
            },
    {
        let count: usize = self.filtered_indices.len();
        if count == 0 {
            return;
        }
        let target: i128 = self.selected_index as i128 + delta as i128;
        self.selected_index = if target < 0 {
            0
        } else if target >= count as i128 {
            count - 1
        } else {
            target as usize
        };
    }

    /// Moves the cursor to the first row.
    pub fn cursor_to_start(&mut self)
        ensures
            *final(self) == (DiffState { selected_index: 0, ..*old(self) }),
    {
        self.selected_index = 0;
    }

    /// Moves the cursor to the last row.
    pub fn cursor_to_end(&mut self)
        ensures
            *final(self) == (DiffState {
                selected_index: if old(self).filtered_indices@.len() > 0 {
                    (old(self).filtered_indices@.len() - 1) as usize
                } else {
                    old(self).selected_index
                },
                ..*old(self)
            }),
    {
        if self.filtered_indices.len() > 0 {
            self.selected_index = self.filtered_indices.len() - 1;
        }
    }

    /// Takes note of the height of the view and scrolls just as far as the
    /// cursor needs to be inside it.
    pub fn adjust_scroll(&mut self, visible_height: usize)
        ensures
            *final(self) == (DiffState {
                visible_height,
                scroll_offset: final(self).scroll_offset,
                ..*old(self)
            }),
            final(self).scroll_offset == scrolled_to(
                old(self).scroll_offset as int,
                old(self).selected_index as int,
                visible_height as int,
            ),
    {
        self.visible_height = visible_height;
        if visible_height == 0 {
            return;
        }
        if self.selected_index < self.scroll_offset {
            self.scroll_offset = self.selected_index;
        } else if self.selected_index - self.scroll_offset >= visible_height {
            self.scroll_offset = self.selected_index - visible_height + 1;
        }
    }

    /// Marks the row under the cursor, or takes its mark away.
    pub fn toggle_selection(&mut self)
        ensures
            *final(self) == (DiffState { selected_files: final(self).selected_files, ..*old(self) }),
            final(self).selected_files@ == match old(self).cursor_row() {
                Some(i) => marks_toggled(
                    old(self).selected_files@,
                    old(self).all_entries@[i].relative_path@,
                ),
                None => old(self).selected_files@,
            },
    {
        let key: String = match self.current_entry() {
            Some(entry) => entry.relative_path.clone(),
            None => {
                return;
            },
        };
        if self.selected_files.contains(key.as_str()) {
            self.selected_files.remove(key.as_str());
        } else {
            self.selected_files.insert(key);
        }
    }

    /// Whether any row tells of a difference.
    pub fn has_differences(&self) -> (r: bool)
        ensures
            r == exists|i: int|
                0 <= i < self.all_entries@.len() && differs((#[trigger] self.all_entries@[i]).status),
    {
        let mut i: usize = 0;
        while i < self.all_entries.len()
            invariant
                i <= self.all_entries@.len(),
                forall|k: int| 0 <= k < i ==> !differs((#[trigger] self.all_entries@[k]).status),
            decreases self.all_entries@.len() - i,
        {
            if diff_status_has_difference(self.all_entries[i].status) {
                assert(differs(self.all_entries@[i as int].status));
                return true;
            }
            i += 1;
        }
        false
    }

    /// Arranges the rows by the chosen sort and shows them again.
    pub fn resort_entries(&mut self)
        ensures
            old(self).all_entries@.len() == 0 ==> *final(self) == *old(self),
            old(self).all_entries@.len() > 0 ==> {
                &&& *final(self) == (DiffState {
                    all_entries: final(self).all_entries,
                    filtered_indices: final(self).filtered_indices,
                    selected_index: final(self).selected_index,
                    scroll_offset: 0,
                    ..*old(self)
                })
                &&& final(self).all_entries@ == resorted(
                    old(self).all_entries@,
                    old(self).sort_by,
                    old(self).sort_order,
                )
                &&& positions(final(self).filtered_indices@) == final(self).rows_to_show()
                &&& final(self).selected_index == clamped(
                    old(self).selected_index as int,
                    final(self).rows_to_show().len(),
                )
                &&& final(self).wf()
            },
    {
        if self.all_entries.len() == 0 {
            return;
        }
        self.all_entries = resort_flat_tree(&self.all_entries, self.sort_by, self.sort_order);
        self.apply_filter();
    }
}

/// The rows shown are exactly those that should be, each once and in order.
pub proof fn law_shown_rows_are_exact(
    entries: Seq<DiffEntry>,
    filter: DiffFilter,
    collapsed: Set<Seq<char>>,
    n: int,
)
    requires
        0 <= n <= entries.len(),
    ensures
        forall|k: int|
            0 <= k < shown_rows(entries, filter, collapsed, n).len() ==> 0 <= #[trigger] shown_rows(
                entries,
                filter,
                collapsed,
                n,
            )[k] < n,
        forall|k: int, m: int|
            0 <= k < m < shown_rows(entries, filter, collapsed, n).len() ==> #[trigger] shown_rows(
                entries,
                filter,
                collapsed,
                n,
            )[k] < #[trigger] shown_rows(entries, filter, collapsed, n)[m],
        forall|i: int|
            0 <= i < n ==> (#[trigger] shown_rows(entries, filter, collapsed, n).contains(i)
                <==> is_shown(entries, filter, collapsed, i)),
    decreases n,
{
    if n > 0 {
        law_shown_rows_are_exact(entries, filter, collapsed, n - 1);
        let before = shown_rows(entries, filter, collapsed, n - 1);
        let all = shown_rows(entries, filter, collapsed, n);
        assert forall|k: int| 0 <= k < all.len() implies 0 <= #[trigger] all[k] < n by {
            if k < before.len() {
                assert(all[k] == before[k]);
            }
        }
        assert forall|k: int, m: int| 0 <= k < m < all.len() implies #[trigger] all[k]
            < #[trigger] all[m] by {
            assert(all[k] == before[k]);
            if m < before.len() {
                assert(all[m] == before[m]);
            }
        }
        assert forall|i: int| 0 <= i < n implies (#[trigger] all.contains(i) <==> is_shown(
            entries,
            filter,
            collapsed,
            i,
        )) by {
            if all.contains(i) {
                let k = choose|k: int| 0 <= k < all.len() && all[k] == i;
                if k < before.len() {
                    assert(before[k] == i);
                    assert(before.contains(i));
                    assert(i < n - 1);
                }
            }
            if i < n - 1 && is_shown(entries, filter, collapsed, i) {
                assert(before.contains(i));
                let k = choose|k: int| 0 <= k < before.len() && before[k] == i;
                assert(all[k] == i);
            }
            if i == n - 1 && is_shown(entries, filter, collapsed, i) {
                assert(all[all.len() - 1] == i);
            }
        }
    }
}

pub proof fn lemma_ancestor_transitive(a: Seq<char>, b: Seq<char>, c: Seq<char>)
    requires
        is_ancestor(a, b),
        is_ancestor(b, c),
    ensures
        is_ancestor(a, c),
{
    assert(c.take(b.len() as int)[a.len() as int] == c[a.len() as int]);
    assert(c.take(a.len() as int) == c.take(b.len() as int).take(a.len() as int));
}

/// Nothing below a collapsed directory is shown.
pub proof fn law_collapsed_directory_hides_what_is_below(
    entries: Seq<DiffEntry>,
    filter: DiffFilter,
    collapsed: Set<Seq<char>>,
    dir: Seq<char>,
    i: int,
)
    requires
        0 <= i < entries.len(),
        entries[i].depth > 0,
        collapsed.contains(dir),
        is_ancestor(dir, entries[i].relative_path@),
    ensures
        !is_shown(entries, filter, collapsed, i),
{
}

/// The directories above a shown row that passes the filter are shown with it.
pub proof fn law_shown_match_has_its_directories_shown(
    entries: Seq<DiffEntry>,
    filter: DiffFilter,
    collapsed: Set<Seq<char>>,
    i: int,
    j: int,
)
    requires
        0 <= i < entries.len(),
        0 <= j < entries.len(),
        entries[i].is_directory,
        is_ancestor(entries[i].relative_path@, entries[j].relative_path@),
        entries[j].depth > 0,
        filter.admits(entries[j].status),
        is_shown(entries, filter, collapsed, j),
    ensures
        is_shown(entries, filter, collapsed, i),
{
    if is_hidden(entries[i], collapsed) {
        let a = choose|a: Seq<char>|
            #[trigger] collapsed.contains(a) && is_ancestor(a, entries[i].relative_path@);
        lemma_ancestor_transitive(a, entries[i].relative_path@, entries[j].relative_path@);
        assert(is_hidden(entries[j], collapsed));
    }
    assert(filter.admits(entries[j].status));
}

/// Marking a row twice leaves the marks as they were.
pub proof fn law_marking_twice_is_nothing(marks: Set<Seq<char>>, path: Seq<char>)
    ensures
        marks_toggled(marks_toggled(marks, path), path) == marks,
{
    assert(marks_toggled(marks_toggled(marks, path), path) =~= marks);
}

/// Where a view of `height` rows is scrolled to so that the cursor is in it.
pub open spec fn scrolled_to(scroll: int, cursor: int, height: int) -> int {
    if height == 0 {
        scroll
    } else if cursor < scroll {
        cursor
    } else if cursor >= scroll + height {
        cursor - height + 1
    } else {
        scroll
    }
}

/// Scrolling brings the cursor into view by the shortest way, and does nothing where it is
/// in view already.
pub proof fn law_scrolling_shows_the_cursor(scroll: int, cursor: int, height: int, other: int)
    requires
        height > 0,
    ensures
        scrolled_to(scroll, cursor, height) <= cursor < scrolled_to(scroll, cursor, height)
            + height,
        scroll <= cursor < scroll + height ==> scrolled_to(scroll, cursor, height) == scroll,
        scroll <= other <= cursor < other + height ==> scrolled_to(scroll, cursor, height) <= other,
        other <= scroll && other <= cursor < other + height ==> scrolled_to(scroll, cursor, height)
            >= other,
{
}

/// A row is below a directory exactly where its path is that of the directory, a separator
/// and more.
pub proof fn law_below_is_a_longer_path(above: Seq<char>, path: Seq<char>, rest: Seq<char>)
    ensures
        is_ancestor(above, above + "/"@ + rest),
        is_ancestor(above, path) ==> path == above + "/"@ + path.skip(above.len() as int + 1),
        !is_ancestor(above, above),
        is_ancestor(above, path) ==> !is_ancestor(path, above),
        is_within(path, path),
        is_within(path, above) <==> path == above || is_ancestor(above, path),
{
    reveal_strlit("/");
    assert("/"@ =~= seq!['/']);
    let longer = above + "/"@ + rest;
    assert(longer.take(above.len() as int) =~= above);
    assert(longer[above.len() as int] == '/');
    if is_ancestor(above, path) {
        let n = above.len() as int;
        assert(path =~= path.take(n) + seq![path[n]] + path.skip(n + 1));
    }
}

/// With nothing filtered and nothing collapsed every row is shown. A row is kept back only
/// by a collapsed directory above it or by a filter that it does not pass; and a filter
/// that it does not pass keeps back every row but a directory with a match below.
pub proof fn law_what_keeps_a_row_back(
    entries: Seq<DiffEntry>,
    filter: DiffFilter,
    collapsed: Set<Seq<char>>,
    i: int,
)
    requires
        0 <= i < entries.len(),
    ensures
        is_shown(entries, DiffFilter::All, Set::empty(), i),
        filter.admits(entries[i].status) && (forall|a: Seq<char>| #[trigger]
            collapsed.contains(a) ==> !is_ancestor(a, entries[i].relative_path@)) ==> is_shown(
            entries,
            filter,
            collapsed,
            i,
        ),
        !filter.admits(entries[i].status) && !entries[i].is_directory ==> !is_shown(
            entries,
            filter,
            collapsed,
            i,
        ),
        entries[i].depth == 0 && filter.admits(entries[i].status) ==> is_shown(
            entries,
            filter,
            collapsed,
            i,
        ),
{
}

/// The end of a subtree: all rows up to it are deeper than its root, and the row there, if
/// any, is not.
pub proof fn law_subtree_holds_what_is_deeper(entries: Seq<DiffEntry>, root: int, from: int)
    requires
        0 <= from <= entries.len(),
    ensures
        from <= subtree_end(entries, root, from) <= entries.len(),
        forall|k: int|
            from <= k < subtree_end(entries, root, from) ==> (#[trigger] entries[k]).depth
                > entries[root].depth,
        subtree_end(entries, root, from) < entries.len() ==> entries[subtree_end(
            entries,
            root,
            from,
        )].depth <= entries[root].depth,
    decreases entries.len() - from,
{
    if from < entries.len() && entries[from].depth > entries[root].depth {
        law_subtree_holds_what_is_deeper(entries, root, from + 1);
    }
}

/// A position inside a list stays; one outside goes to the nearest end.
pub proof fn law_position_is_held_inside(index: int, len: nat)
    ensures
        len > 0 ==> 0 <= clamped(index, len) < len,
        0 <= index < len ==> clamped(index, len) == index,
        index < 0 ==> clamped(index, len) == 0,
        len > 0 && index >= len ==> clamped(index, len) == len - 1,
        clamped(index, 0) == 0,
{
}

/// Marking changes whether the row is marked, and no other row.
pub proof fn law_marking_changes_one_row(marks: Set<Seq<char>>, path: Seq<char>, other: Seq<char>)
    ensures
        marks_toggled(marks, path).contains(path) == !marks.contains(path),
        other != path ==> marks_toggled(marks, path).contains(other) == marks.contains(other),
{
}

/// The paths of the directories are those of rows that are directories.
pub proof fn law_directory_paths_are_rows(entries: Seq<DiffEntry>, i: int, path: Seq<char>)
    requires
        0 <= i < entries.len(),
    ensures
        entries[i].is_directory ==> directory_paths(entries).contains(entries[i].relative_path@),
        row_paths(entries).contains(entries[i].relative_path@),
        directory_paths(entries).contains(path) ==> row_paths(entries).contains(path),
        (forall|k: int| 0 <= k < entries.len() ==> !(#[trigger] entries[k]).is_directory)
            ==> !directory_paths(entries).contains(path),
{
}

} // verus!
