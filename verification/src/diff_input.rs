//! What the keys of the comparison screen do.

use crate::app_state::{App, DiffFileView};
use crate::dialogs::Screen;
use crate::diff_fold::{
    closed_at_cursor, level_closed, level_opened, room_for, toggled_at_cursor, LoadedChild,
};
use crate::diff_state::{clamped, marks_toggled, DiffState};
use crate::diff_tree::resorted;
use crate::diff_types::{DiffEntry, DiffFileInfo};
use crate::ranking::positions;
use crate::sorting::{SortBy, SortOrder};
use vstd::prelude::*;

verus! {

/// What a key of the comparison screen asks for.
#[derive(Debug, Clone, Copy, PartialEq, Eq, Structural)]
pub enum DiffScreenAction {
    MoveUp,
    MoveDown,
    ExpandDir,
    CollapseDir,
    PageUp,
    PageDown,
    GoHome,
    GoEnd,
    ToggleSelect,
    CycleFilter,
    SortByName,
    SortBySize,
    SortByDate,
    SortByType,
    ExpandAll,
    CollapseAll,
    CopyEntry,
    DeleteEntry,
    Open,
    Close,
}

/// What is left to be done for a key.
#[derive(Debug, Clone, Copy, PartialEq, Eq, Structural)]
pub enum DiffFollowUp {
    Nothing,
    /// Look at the row again and ask where it is to be copied to.
    AskCopy,
    /// Look at the row again and ask where it is to be deleted.
    AskDelete,
    /// Open the directory under the cursor with everything below it.
    ExpandAll,
    /// Stop the worker that compares.
    StopComparing,
}

/// How far a page goes: the height of the view less one row, and at least one.
pub open spec fn page_of(height: usize) -> int {
    if height <= 2 {
        1
    } else {
        height - 1
    }
}

/// The screen with the cursor moved.
pub open spec fn moved_by(state: DiffState, delta: int) -> DiffState {
    DiffState {
        selected_index: if state.filtered_indices@.len() == 0 {
            state.selected_index
        } else {
            clamped(state.selected_index + delta, state.filtered_indices@.len()) as usize
        },
        ..state
    }
}

/// The screen with another sort chosen; the sort in use turns round. The cursor
/// goes to the top.
pub open spec fn sort_chosen(state: DiffState, sort_by: SortBy) -> DiffState {
    DiffState {
        sort_by,
        sort_order: if state.sort_by == sort_by {
            state.sort_order.flipped()
        } else {
            SortOrder::Asc
        },
        selected_index: 0,
        scroll_offset: 0,
        ..state
    }
}

/// Whether the rows were shown anew, with the cursor held inside them and the view
/// at the top.
pub open spec fn shown_anew(before: DiffState, after: DiffState) -> bool {
    &&& after == DiffState {
        filtered_indices: after.filtered_indices,
        selected_index: after.selected_index,
        scroll_offset: 0,
        ..before
    }
    &&& positions(after.filtered_indices@) == before.rows_to_show()
    &&& after.selected_index == clamped(
        before.selected_index as int,
        before.rows_to_show().len(),
    )
}

/// Whether the rows were arranged by the chosen sort and shown anew.
pub open spec fn arranged_anew(before: DiffState, after: DiffState, sort_by: SortBy) -> bool {
    let chosen = sort_chosen(before, sort_by);
    if before.all_entries@.len() == 0 {
        after == chosen
    } else {
        &&& after.all_entries@ == resorted(
            before.all_entries@,
            chosen.sort_by,
            chosen.sort_order,
        )
        &&& shown_anew(DiffState { all_entries: after.all_entries, ..chosen }, after)
    }
}

/// Chooses a sort; the sort in use turns round.
pub fn toggle_diff_sort(state: &mut DiffState, sort_by: SortBy)
    ensures
        *final(state) == sort_chosen(*old(state), sort_by),
{
    if state.sort_by == sort_by {
        state.sort_order = state.sort_order.flip();
    } else {
        state.sort_by = sort_by;
        state.sort_order = SortOrder::Asc;
    }
    state.selected_index = 0;
    state.scroll_offset = 0;
}

/// The path of a side of a row; empty where it has none.
pub open spec fn side_path(info: Option<DiffFileInfo>) -> Seq<char> {
    match info {
        Some(info) => info.full_path@,
        None => Seq::empty(),
    }
}

fn path_of_side(info: &Option<DiffFileInfo>) -> (r: String)
    ensures
        r@ == side_path(*info),
{
    match info {
        Some(info) => info.full_path.clone(),
        None => String::new(),
    }
}

/// Whether the view is of the two sides of the row.
pub open spec fn is_view_of(view: Option<DiffFileView>, entry: DiffEntry) -> bool {
    &&& view matches Some(v)
    &&& v.left_path@ == side_path(entry.left)
    &&& v.right_path@ == side_path(entry.right)
    &&& v.file_name@ == entry.relative_path@
}

/// What a key that stays on the screen does to it.
pub open spec fn after_key(
    before: DiffState,
    after: DiffState,
    action: DiffScreenAction,
    children: Seq<LoadedChild>,
) -> bool {
    let page = page_of(before.visible_height);
    match action {
        DiffScreenAction::MoveUp => after == moved_by(before, -1),
        DiffScreenAction::MoveDown => after == moved_by(before, 1),
        DiffScreenAction::PageUp => after == moved_by(before, -page),
        DiffScreenAction::PageDown => after == moved_by(before, page),
        DiffScreenAction::GoHome => after == DiffState { selected_index: 0, ..before },
        DiffScreenAction::GoEnd => after == DiffState {
            selected_index: if before.filtered_indices@.len() > 0 {
                (before.filtered_indices@.len() - 1) as usize
            } else {
                before.selected_index
            },
            ..before
        },
        DiffScreenAction::ExpandDir => level_opened(before, after, children),
        DiffScreenAction::CollapseDir => level_closed(before, after),
        DiffScreenAction::CollapseAll => closed_at_cursor(before, after),
        DiffScreenAction::ToggleSelect => {
            &&& after == DiffState { selected_files: after.selected_files, ..before }
            &&& after.selected_files@ == match before.cursor_row() {
                Some(i) => marks_toggled(
                    before.selected_files@,
                    before.all_entries@[i].relative_path@,
                ),
                None => before.selected_files@,
            }
        },
        DiffScreenAction::CycleFilter => shown_anew(
            DiffState { filter: before.filter.following(), ..before },
            after,
        ),
        DiffScreenAction::SortByName => arranged_anew(before, after, SortBy::Name),
        DiffScreenAction::SortBySize => arranged_anew(before, after, SortBy::Size),
        DiffScreenAction::SortByDate => arranged_anew(before, after, SortBy::Modified),
        DiffScreenAction::SortByType => arranged_anew(before, after, SortBy::Type),
        _ => after == before,
    }
}

/// What a key does to the program, and what is left to do.
pub open spec fn took_key(
    before: App,
    after: App,
    action: Option<DiffScreenAction>,
    children: Seq<LoadedChild>,
    r: DiffFollowUp,
) -> bool {
    match (before.diff_state, action) {
        (Some(state), Some(action)) => if action == DiffScreenAction::Close {
            &&& after == (App {
                current_screen: Screen::FilePanel,
                diff_state: None,
                ..before
            })
            &&& r == if state.is_comparing {
                DiffFollowUp::StopComparing
            } else {
                DiffFollowUp::Nothing
            }
        } else if state.is_comparing {
            after == before && r == DiffFollowUp::Nothing
        } else if action == DiffScreenAction::Open {
            entered(before, after, state, children) && r
                == DiffFollowUp::Nothing
        } else {
            &&& after == (App { diff_state: after.diff_state, ..before })
            &&& after.diff_state matches Some(after)
            &&& after_key(state, after, action, children)
            &&& r == follow_up(action)
        },
        _ => after == before && r == DiffFollowUp::Nothing,
    }
}

/// What is left to be done for a key while nothing is being compared.
pub open spec fn follow_up(action: DiffScreenAction) -> DiffFollowUp {
    match action {
        DiffScreenAction::CopyEntry => DiffFollowUp::AskCopy,
        DiffScreenAction::DeleteEntry => DiffFollowUp::AskDelete,
        DiffScreenAction::ExpandAll => DiffFollowUp::ExpandAll,
        _ => DiffFollowUp::Nothing,
    }
}

impl DiffState {
    fn take_key(&mut self, action: DiffScreenAction, children: Vec<LoadedChild>)
        requires
            old(self).wf(),
            old(self).visible_height <= i32::MAX,
            room_for(*old(self), children@),
        ensures
            final(self).wf(),
            after_key(*old(self), *final(self), action, children@),
    {
        let height: usize = self.visible_height;
        let page: i32 = if height <= 2 { 1 } else { (height - 1) as i32 };
        match action {
            DiffScreenAction::MoveUp => {
                self.move_cursor(-1);
            },
            DiffScreenAction::MoveDown => {
                self.move_cursor(1);
            },
            DiffScreenAction::ExpandDir => {
                self.expand_one_level(children);
            },
            DiffScreenAction::CollapseDir => {
                self.collapse_one_level();
            },
            DiffScreenAction::PageUp => {
                self.move_cursor(-page);
            },
            DiffScreenAction::PageDown => {
                self.move_cursor(page);
            },
            DiffScreenAction::GoHome => {
                self.cursor_to_start();
            },
            DiffScreenAction::GoEnd => {
                self.cursor_to_end();
            },
            DiffScreenAction::ToggleSelect => {
                self.toggle_selection();
            },
            DiffScreenAction::CycleFilter => {
                self.filter = self.filter.next();
                self.apply_filter();
            },
            DiffScreenAction::SortByName => {
                toggle_diff_sort(self, SortBy::Name);
                self.resort_entries();
            },
            DiffScreenAction::SortBySize => {
                toggle_diff_sort(self, SortBy::Size);
                self.resort_entries();
            },
            DiffScreenAction::SortByDate => {
                toggle_diff_sort(self, SortBy::Modified);
                self.resort_entries();
            },
            DiffScreenAction::SortByType => {
                toggle_diff_sort(self, SortBy::Type);
                self.resort_entries();
            },
            DiffScreenAction::CollapseAll => {
                self.collapse();
            },
            DiffScreenAction::ExpandAll | DiffScreenAction::CopyEntry
            | DiffScreenAction::DeleteEntry | DiffScreenAction::Open
            | DiffScreenAction::Close => {},
        }
    }
}

impl App {
    /// Does what a key of the comparison screen asks for. While something is being
    /// compared, the screen can only be closed. `children` are those of the
    /// directory under the cursor, where they have to be read first.
    pub fn handle_input(&mut self, action: Option<DiffScreenAction>, children: Vec<LoadedChild>) -> (r:
        DiffFollowUp)
        requires
            old(self).diff_state matches Some(state) ==> state.wf() && state.visible_height
                <= i32::MAX && room_for(state, children@),
        ensures
            final(self).diff_state matches Some(state) ==> state.wf(),
            took_key(*old(self), *final(self), action, children@, r),
    {
        let action: DiffScreenAction = match action {
            None => {
                return DiffFollowUp::Nothing;
            },
            Some(action) => action,
        };
        let comparing = match &self.diff_state {
            None => {
                return DiffFollowUp::Nothing;
            },
            Some(state) => state.is_comparing,
        };
        if action == DiffScreenAction::Close {
            self.current_screen = Screen::FilePanel;
            self.diff_state = None;
            return if comparing {
                DiffFollowUp::StopComparing
            } else {
                DiffFollowUp::Nothing
            };
        }
        if comparing {
            return DiffFollowUp::Nothing;
        }
        if action == DiffScreenAction::Open {
            self.handle_enter(children);
            return DiffFollowUp::Nothing;
        }
        let mut state = self.diff_state.take().unwrap();
        state.take_key(action, children);
        self.diff_state = Some(state);
        match action {
            DiffScreenAction::CopyEntry => DiffFollowUp::AskCopy,
            DiffScreenAction::DeleteEntry => DiffFollowUp::AskDelete,
            DiffScreenAction::ExpandAll => DiffFollowUp::ExpandAll,
            _ => DiffFollowUp::Nothing,
        }
    }

    /// Opens the row under the cursor: a directory is opened or collapsed, and the
    /// contents of files are shown side by side.
    pub fn handle_enter(&mut self, children: Vec<LoadedChild>)
        requires
            old(self).diff_state matches Some(state) ==> state.wf() && room_for(state, children@),
        ensures
            final(self).diff_state matches Some(state) ==> state.wf(),
            match old(self).diff_state {
                None => *final(self) == *old(self),
                Some(state) => entered(*old(self), *final(self), state, children@),
            },
    {
        let entry: DiffEntry = match &self.diff_state {
            None => {
                return;
            },
            Some(state) => match state.current_entry() {
                None => {
                    return;
                },
                Some(entry) => entry.clone(),
            },
        };
        if entry.is_directory {
            let mut state = self.diff_state.take().unwrap();
            state.toggle_collapse(children);
            self.diff_state = Some(state);
            return;
        }
        let left = path_of_side(&entry.left);
        let right = path_of_side(&entry.right);
        self.enter_diff_file_view(left, right, entry.relative_path);
    }
}

/// What opening the row under the cursor comes to.
pub open spec fn entered(before: App, after: App, state: DiffState, children: Seq<LoadedChild>) -> bool {
    match state.cursor_row() {
        None => after == before,
        Some(i) => {
            let entry = state.all_entries@[i];
            if entry.is_directory {
                &&& after == App { diff_state: after.diff_state, ..before }
                &&& after.diff_state matches Some(now)
                &&& toggled_at_cursor(state, now, children)
            } else {
                &&& after == App {
                    diff_file_view_state: after.diff_file_view_state,
                    current_screen: Screen::DiffFileView,
                    ..before
                }
                &&& is_view_of(after.diff_file_view_state, entry)
            }
        },
    }
}

/// Choosing the sort in use twice leaves it as it was.
pub proof fn law_choosing_a_sort_twice(state: DiffState)
    ensures
        sort_chosen(sort_chosen(state, state.sort_by), state.sort_by).sort_order
            == state.sort_order,
        sort_chosen(sort_chosen(state, state.sort_by), state.sort_by).sort_by == state.sort_by,
{
}

/// Moving the cursor goes by one row, or by a view less one, and stops at the ends; going
/// down and up again leads back unless an end was reached.
pub proof fn law_keys_move_the_cursor(
    before: DiffState,
    after: DiffState,
    action: DiffScreenAction,
    children: Seq<LoadedChild>,
)
    requires
        after_key(before, after, action, children),
        before.selected_index < before.filtered_indices@.len(),
    ensures
        ({
            let at = before.selected_index as int;
            let last = before.filtered_indices@.len() - 1;
            let page = if before.visible_height > 2 {
                before.visible_height - 1
            } else {
                1
            };
            &&& action == DiffScreenAction::MoveDown ==> after.selected_index == if at < last {
                at + 1
            } else {
                at
            }
            &&& action == DiffScreenAction::MoveUp ==> after.selected_index == if at > 0 {
                at - 1
            } else {
                0
            }
            &&& action == DiffScreenAction::PageDown ==> after.selected_index == if at + page
                <= last {
                at + page
            } else {
                last
            }
            &&& action == DiffScreenAction::PageUp ==> after.selected_index == if at >= page {
                at - page
            } else {
                0
            }
            &&& action == DiffScreenAction::GoHome ==> after.selected_index == 0
            &&& action == DiffScreenAction::GoEnd ==> after.selected_index == last
            &&& action == DiffScreenAction::MoveDown || action == DiffScreenAction::MoveUp || action
                == DiffScreenAction::PageDown || action == DiffScreenAction::PageUp || action
                == DiffScreenAction::GoHome || action == DiffScreenAction::GoEnd ==> {
                &&& after.all_entries == before.all_entries
                &&& after.filtered_indices == before.filtered_indices
                &&& after.selected_files == before.selected_files
                &&& after.collapsed_dirs == before.collapsed_dirs
            }
        }),
{
    assert(before.filtered_indices.len() == before.filtered_indices@.len());
}

/// Each sorting key sorts by what it names, in ascending order at first and the other way
/// round when it is pressed again, with the cursor on top.
pub proof fn law_sorting_keys_choose_the_order(
    before: DiffState,
    after: DiffState,
    action: DiffScreenAction,
    children: Seq<LoadedChild>,
    sort_by: SortBy,
)
    requires
        after_key(before, after, action, children),
        match sort_by {
            SortBy::Name => action == DiffScreenAction::SortByName,
            SortBy::Size => action == DiffScreenAction::SortBySize,
            SortBy::Modified => action == DiffScreenAction::SortByDate,
            SortBy::Type => action == DiffScreenAction::SortByType,
        },
    ensures
        after.sort_by == sort_by,
        before.sort_by != sort_by ==> after.sort_order == SortOrder::Asc,
        before.sort_by == sort_by ==> after.sort_order != before.sort_order,
        after.selected_index == 0,
        after.scroll_offset == 0,
        after.filter == before.filter,
        after.all_entries@.len() > 0 ==> after.all_entries@ == resorted(
            before.all_entries@,
            after.sort_by,
            after.sort_order,
        ) || before.all_entries@.len() == 0,
{
}

/// The filter key goes on to the next filter and shows the rows that it admits; the marking
/// key changes the mark of the row under the cursor and nothing else.
pub proof fn law_filter_and_mark_keys(
    before: DiffState,
    after: DiffState,
    action: DiffScreenAction,
    children: Seq<LoadedChild>,
)
    requires
        after_key(before, after, action, children),
    ensures
        action == DiffScreenAction::CycleFilter ==> {
            &&& after.filter != before.filter
            &&& after.all_entries == before.all_entries
            &&& positions(after.filtered_indices@) == after.rows_to_show()
        },
        action == DiffScreenAction::ToggleSelect ==> {
            &&& after.filtered_indices == before.filtered_indices
            &&& after.selected_index == before.selected_index
            &&& before.cursor_row() matches Some(i) ==> {
                let path = before.all_entries@[i].relative_path@;
                &&& after.selected_files@.contains(path) == !before.selected_files@.contains(path)
                &&& forall|other: Seq<char>|
                    other != path ==> (#[trigger] after.selected_files@.contains(other))
                        == before.selected_files@.contains(other)
            }
        },
{
}

/// Two files are viewed each under its own path: the left one on the left, the right one on
/// the right, and none where there is none.
pub proof fn law_view_shows_each_side(view: Option<DiffFileView>, entry: DiffEntry)
    requires
        is_view_of(view, entry),
    ensures
        view is Some,
        entry.left matches Some(info) ==> view->0.left_path@ == info.full_path@,
        entry.left is None ==> view->0.left_path@.len() == 0,
        entry.right matches Some(info) ==> view->0.right_path@ == info.full_path@,
        entry.right is None ==> view->0.right_path@.len() == 0,
        view->0.file_name@ == entry.relative_path@,
{
}

/// The screen can always be left, which stops a comparison that is under way; nothing else
/// is done while one is. Copying, deleting and opening all are left to do for their keys
/// alone.
pub proof fn law_key_is_answered(
    before: App,
    after: App,
    action: DiffScreenAction,
    children: Seq<LoadedChild>,
    r: DiffFollowUp,
)
    requires
        took_key(before, after, Some(action), children, r),
        before.diff_state is Some,
    ensures
        action == DiffScreenAction::Close ==> {
            &&& after.diff_state is None
            &&& after.current_screen == Screen::FilePanel
            &&& r == DiffFollowUp::StopComparing <==> before.diff_state->0.is_comparing
        },
        action != DiffScreenAction::Close ==> after.diff_state is Some && r
            != DiffFollowUp::StopComparing,
        action != DiffScreenAction::Close && before.diff_state->0.is_comparing ==> after == before
            && r == DiffFollowUp::Nothing,
        !before.diff_state->0.is_comparing ==> {
            &&& r == DiffFollowUp::AskCopy <==> action == DiffScreenAction::CopyEntry
            &&& r == DiffFollowUp::AskDelete <==> action == DiffScreenAction::DeleteEntry
            &&& r == DiffFollowUp::ExpandAll <==> action == DiffScreenAction::ExpandAll
        },
{
}

/// Going into a directory opens or closes it; going into anything else shows the two files.
pub proof fn law_enter_opens_what_is_under_the_cursor(
    before: App,
    after: App,
    state: DiffState,
    children: Seq<LoadedChild>,
)
    requires
        before.diff_state == Some(state),
        entered(before, after, state, children),
        state.cursor_row() is Some,
    ensures
        ({
            let entry = state.all_entries@[state.cursor_row()->0];
            &&& entry.is_directory ==> {
                &&& after.current_screen == before.current_screen
                &&& after.diff_state is Some
                &&& after.diff_state->0.collapsed_dirs@.contains(entry.relative_path@)
                    == !state.collapsed_dirs@.contains(entry.relative_path@)
            }
            &&& !entry.is_directory ==> {
                &&& after.current_screen == Screen::DiffFileView
                &&& after.diff_state == before.diff_state
            }
        }),
{
}

} // verus!
