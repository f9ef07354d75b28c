//! The ways into the comparison screen.

use crate::app_state::{says, App};
use crate::dialogs::Screen;
use crate::diff_state::DiffState;
use crate::diff_types::{method_word, parse_compare_method};
use crate::names::NameSet;
use crate::panel::{FileItem, PanelState};
use crate::paths::{components, join_path, joined_path, same_path};
use crate::sorting::lowercase_text;
use crate::text::{concat5, views};
use vstd::prelude::*;

verus! {

/// A comparison of two directories that was not begun yet.
pub open spec fn is_fresh_comparison(app: App, state: DiffState, left: Seq<char>, right: Seq<char>) -> bool {
    &&& state.left_root@ == left
    &&& state.right_root@ == right
    &&& state.compare_method == method_word(lowercase_text(app.settings.diff_compare_method@))
    &&& state.sort_by == app.active().sort_by
    &&& state.sort_order == app.active().sort_order
    &&& state.is_untouched()
    &&& state.wf()
}

/// What entering the comparison of two directories comes to.
pub open spec fn enters(before: App, after: App, left: Seq<char>, right: Seq<char>, r: bool) -> bool {
    if components(left) == components(right) {
        says(before, after, "Both paths are the same"@) && !r
    } else {
        &&& r
        &&& after == App {
            diff_state: after.diff_state,
            current_screen: Screen::DiffScreen,
            ..before
        }
        &&& after.diff_state matches Some(state)
        &&& is_fresh_comparison(before, state, left, right)
    }
}

/// The marked directories of a listing, as paths.
pub open spec fn marked_dirs(path: Seq<char>, files: Seq<FileItem>, marks: Set<Seq<char>>) -> Seq<
    Seq<char>,
>
    decreases files.len(),
{
    if files.len() == 0 {
        Seq::empty()
    } else {
        let before = marked_dirs(path, files.drop_last(), marks);
        if files.last().is_directory && marks.contains(files.last().name@) {
            before.push(joined_path(path, files.last().name@))
        } else {
            before
        }
    }
}

/// Whether a panel shows a remote machine.
pub open spec fn some_remote(panels: Seq<PanelState>) -> bool {
    exists|i: int| 0 <= i < panels.len() && (#[trigger] panels[i]).remote()
}

fn find_marked_dirs(panel: &PanelState) -> (r: Vec<String>)
    ensures
        views(r@) == marked_dirs(panel.path@, panel.files@, panel.selected_files@),
{
    let mut r: Vec<String> = Vec::new();
    let mut i: usize = 0;
    assert(views(r@) =~= Seq::<Seq<char>>::empty());
    while i < panel.files.len()
        invariant
            i <= panel.files@.len(),
            views(r@) == marked_dirs(
                panel.path@,
                panel.files@.take(i as int),
                panel.selected_files@,
            ),
        decreases panel.files@.len() - i,
    {
        assert(panel.files@.take(i + 1).drop_last() =~= panel.files@.take(i as int));
        let file = &panel.files[i];
        if file.is_directory && panel.selected_files.contains(file.name.as_str()) {
            let ghost held = r@;
            r.push(join_path(panel.path.as_str(), file.name.as_str()));
            assert(views(r@) =~= views(held).push(r@.last()@));
        }
        i += 1;
    }
    assert(panel.files@.take(i as int) =~= panel.files@);
    r
}

/// The panel that the user chose first for a comparison.
pub open spec fn first_choice(app: App) -> Option<usize> {
    match app.diff_first_panel {
        Some(first) => if first < app.panels@.len() {
            Some(first)
        } else {
            None
        },
        None => None,
    }
}

/// What asking for a comparison comes to.
pub open spec fn starts_diff(
    app: App,
    after: App,
    diff_key: Seq<char>,
    cancel_key: Seq<char>,
    r: bool,
) -> bool {
    let panel = app.active();
    let dirs = marked_dirs(panel.path@, panel.files@, panel.selected_files@);
    if some_remote(app.panels@) {
        says(app, after, "Diff is not supported for remote panels"@) && !r
    } else if dirs.len() == 2 {
        &&& after.panels@ == app.panels@.update(
            app.active_panel_index as int,
            PanelState { selected_files: after.active().selected_files, ..panel },
        )
        &&& after.active().selected_files@ == Set::<Seq<char>>::empty()
        &&& enters(
            App { panels: after.panels, ..app },
            after,
            dirs[0],
            dirs[1],
            r,
        )
    } else if app.panels@.len() < 2 {
        says(app, after, "Need at least 2 panels for diff"@) && !r
    } else if app.panels@.len() == 2 {
        enters(app, after, app.panels@[0].path@, app.panels@[1].path@, r)
    } else {
        match first_choice(app) {
            Some(first) => if first == app.active_panel_index {
                says(app, after, "Select a different panel for diff"@) && !r
            } else {
                enters(
                    App { diff_first_panel: None, ..app },
                    after,
                    app.panels@[first as int].path@,
                    panel.path@,
                    r,
                )
            },
            None => {
                &&& !r
                &&& says(
                    App { diff_first_panel: Some(app.active_panel_index), ..app },
                    after,
                    "Select second panel for diff ("@ + diff_key + ") or "@ + cancel_key
                        + " to cancel"@,
                )
            },
        }
    }
}

impl App {
    /// Opens the comparison of two directories. True where it is now to be begun.
    pub fn enter_diff_screen(&mut self, left: String, right: String) -> (r: bool)
        requires
            old(self).wf(),
        ensures
            final(self).wf(),
            enters(*old(self), *final(self), left@, right@, r),
    {
        if same_path(left.as_str(), right.as_str()) {
            self.show_message("Both paths are the same");
            return false;
        }
        let method = parse_compare_method(self.settings.diff_compare_method.as_str());
        let sort_by = self.active_panel().sort_by;
        let sort_order = self.active_panel().sort_order;
        let state = DiffState::new(left, right, method, sort_by, sort_order);
        self.diff_state = Some(state);
        self.current_screen = Screen::DiffScreen;
        true
    }

    /// Begins a comparison: of two marked directories of the panel with the focus,
    /// of the two panels, or of two panels that are chosen one after the other.
    /// The two keys are named to the user while a choice is left. True where the
    /// comparison is now to be begun.
    pub fn start_diff(&mut self, diff_key: &str, cancel_key: &str) -> (r: bool)
        requires
            old(self).wf(),
        ensures
            final(self).wf(),
            starts_diff(*old(self), *final(self), diff_key@, cancel_key@, r),
    {
        let mut i: usize = 0;
        while i < self.panels.len()
            invariant
                i <= self.panels@.len(),
                *self == *old(self),
                self.wf(),
                forall|k: int| 0 <= k < i ==> !(#[trigger] self.panels@[k]).remote(),
            decreases self.panels@.len() - i,
        {
            if self.panels[i].is_remote() {
                assert(self.panels@[i as int].remote());
                self.show_message("Diff is not supported for remote panels");
                return false;
            }
            i += 1;
        }
        let dirs = find_marked_dirs(self.active_panel());
        assert(views(dirs@).len() == dirs@.len());
        if dirs.len() == 2 {
            let left = dirs[0].clone();
            let right = dirs[1].clone();
            assert(views(dirs@)[0] == left@);
            assert(views(dirs@)[1] == right@);
            let at: usize = self.active_panel_index;
            self.panels[at].selected_files = NameSet::new();
            return self.enter_diff_screen(left, right);
        }
        if self.panels.len() < 2 {
            self.show_message("Need at least 2 panels for diff");
            return false;
        }
        if self.panels.len() == 2 {
            let left = self.panels[0].path.clone();
            let right = self.panels[1].path.clone();
            return self.enter_diff_screen(left, right);
        }
        let first = match self.diff_first_panel {
            Some(first) => if first < self.panels.len() {
                Some(first)
            } else {
                None
            },
            None => None,
        };
        let second: usize = self.active_panel_index;
        match first {
            Some(first) => {
                if first == second {
                    self.show_message("Select a different panel for diff");
                    return false;
                }
                let left = self.panels[first].path.clone();
                let right = self.panels[second].path.clone();
                self.diff_first_panel = None;
                self.enter_diff_screen(left, right)
            },
            None => {
                self.diff_first_panel = Some(second);
                let text = concat5(
                    "Select second panel for diff (",
                    diff_key,
                    ") or ",
                    cancel_key,
                    " to cancel",
                );
                self.show_message(text.as_str());
                false
            },
        }
    }
}

/// The directories to compare are the marked directories of the panel, in the order of its
/// lines, and nothing else.
pub proof fn law_marked_directories_are_compared(
    path: Seq<char>,
    files: Seq<FileItem>,
    marks: Set<Seq<char>>,
)
    ensures
        marked_dirs(path, files, marks).len() <= files.len(),
        forall|i: int|
            0 <= i < files.len() && (#[trigger] files[i]).is_directory && marks.contains(
                files[i].name@,
            ) ==> marked_dirs(path, files, marks).contains(joined_path(path, files[i].name@)),
        forall|k: int|
            0 <= k < marked_dirs(path, files, marks).len() ==> exists|i: int|
                0 <= i < files.len() && (#[trigger] files[i]).is_directory && marks.contains(
                    files[i].name@,
                ) && joined_path(path, files[i].name@) == #[trigger] marked_dirs(
                    path,
                    files,
                    marks,
                )[k],
    decreases files.len(),
{
    if files.len() > 0 {
        let rest = files.drop_last();
        law_marked_directories_are_compared(path, rest, marks);
        let before = marked_dirs(path, rest, marks);
        let now = marked_dirs(path, files, marks);
        assert forall|i: int|
            0 <= i < files.len() && (#[trigger] files[i]).is_directory && marks.contains(
                files[i].name@,
            ) implies now.contains(joined_path(path, files[i].name@)) by {
            let wanted = joined_path(path, files[i].name@);
            if i < rest.len() {
                assert(rest[i] == files[i]);
                let k = choose|k: int| 0 <= k < before.len() && before[k] == wanted;
                assert(now[k] == wanted);
            } else {
                assert(now[now.len() - 1] == wanted);
            }
        }
        assert forall|k: int| 0 <= k < now.len() implies exists|i: int|
            0 <= i < files.len() && (#[trigger] files[i]).is_directory && marks.contains(
                files[i].name@,
            ) && joined_path(path, files[i].name@) == #[trigger] now[k] by {
            if k < before.len() {
                assert(now[k] == before[k]);
                let i = choose|i: int|
                    0 <= i < rest.len() && (#[trigger] rest[i]).is_directory && marks.contains(
                        rest[i].name@,
                    ) && joined_path(path, rest[i].name@) == before[k];
                assert(files[i] == rest[i]);
            } else {
                assert(files[files.len() - 1] == files.last());
            }
        }
    }
}

/// Panels are compared each on its own side: of two panels the first is the left side; of
/// more, the panel that was chosen first is the left side and the active one the right.
/// Two marked directories take the place of the panels. Nothing is compared with a remote
/// panel about, nor with itself.
pub proof fn law_comparison_has_its_sides(
    app: App,
    after: App,
    diff_key: Seq<char>,
    cancel_key: Seq<char>,
    r: bool,
)
    requires
        app.wf(),
        starts_diff(app, after, diff_key, cancel_key, r),
    ensures
        (exists|i: int| 0 <= i < app.panels@.len() && (#[trigger] app.panels@[i]).remote()) ==> !r
            && after.diff_state == app.diff_state && after.current_screen == app.current_screen,
        r ==> {
            let panel = app.active();
            let dirs = marked_dirs(panel.path@, panel.files@, panel.selected_files@);
            &&& after.current_screen == Screen::DiffScreen
            &&& after.diff_state matches Some(state)
            &&& components(state.left_root@) != components(state.right_root@)
            &&& dirs.len() == 2 ==> state.left_root@ == dirs[0] && state.right_root@ == dirs[1]
            &&& dirs.len() != 2 && app.panels@.len() == 2 ==> state.left_root@
                == app.panels@[0].path@ && state.right_root@ == app.panels@[1].path@
            &&& dirs.len() != 2 && app.panels@.len() > 2 ==> {
                &&& app.diff_first_panel matches Some(first)
                &&& first != app.active_panel_index
                &&& state.left_root@ == app.panels@[first as int].path@
                &&& state.right_root@ == panel.path@
                &&& after.diff_first_panel is None
            }
            &&& state.sort_by == panel.sort_by
            &&& state.sort_order == panel.sort_order
            &&& state.all_entries@.len() == 0
        },
        !r ==> after.diff_state == app.diff_state && after.current_screen == app.current_screen,
{
}

} // verus!
