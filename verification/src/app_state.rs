//! The state of the program: its panels, what is open on them, and what is
//! pending.

use crate::authorization::{DirectoryAuthorization, PathAuthorization, PathedAuthorization};
use crate::dialogs::{
    Clipboard, ConflictState, Dialog, GitLogDiffState, HelpState, Screen, TarExcludeState,
    ThemeWatchState,
};
use crate::diff_state::DiffState;
use crate::names::NameSet;
use crate::navigation::Places;
use crate::panel::{is_fresh_panel, moved_cursor, FileItem, PanelState};
use crate::progress::FileOperationProgress;
use crate::remote_connect::{optional_text, RemoteConnectState};
use crate::settings::{Settings, SettingsState};
use crate::sorting::{SortBy, SortOrder};
use crate::text::same_text;
use vstd::prelude::*;

verus! {

/// The most panels that can be open.
pub const MAX_PANELS: usize = 10;

/// The deletion that the user was asked about.
#[derive(Debug)]
pub enum PendingDeleteOperation {
    Local {
        entries: Vec<PathedAuthorization>,
        directory: DirectoryAuthorization,
        close_image_viewer: bool,
    },
    Remote { panel_index: usize, paths: Vec<String> },
}

/// The renaming that the user was asked about.
#[derive(Debug)]
pub enum PendingRenameOperation {
    Local {
        panel_index: usize,
        old_path: String,
        source: PathAuthorization,
        directory: DirectoryAuthorization,
    },
    Remote { panel_index: usize, old_path: String, parent_path: String },
}

/// The version of a remote file.
#[derive(Debug, Clone, Copy, PartialEq, Eq, Structural)]
pub struct RemoteFileVersion {
    pub size: u64,
    pub modified: u64,
}

/// The endpoint that a file under edit came from.
#[derive(Debug)]
pub struct RemoteEditEndpoint {
    pub user: String,
    pub host: String,
    pub port: u16,
}

/// Where a file under edit came from.
#[derive(Debug)]
pub struct RemoteEditOrigin {
    pub panel_index: usize,
    pub remote_path: String,
    pub endpoint: RemoteEditEndpoint,
    pub edit_session_id: u64,
    pub expected_version: RemoteFileVersion,
}

/// What the program knows of the open editor.
#[derive(Debug)]
pub struct EditorLink {
    pub file_path: String,
    pub remote_origin: Option<RemoteEditOrigin>,
    /// Whether a local save is still to be uploaded.
    pub remote_dirty: bool,
    pub remote_save_generation: u64,
    /// The save after whose upload the editor closes.
    pub pending_close_after_remote_save: Option<u64>,
    pub exit_confirm_open: bool,
    pub message: String,
    pub message_timer: u8,
}

/// What to do once a remote file has been fetched.
#[derive(Debug)]
pub enum PendingRemoteOpen {
    Editor {
        tmp_path: String,
        panel_index: usize,
        remote_path: String,
        endpoint: RemoteEditEndpoint,
        edit_session_id: u64,
    },
    ImageViewer { tmp_path: String },
}

/// A remote operation under way.
#[derive(Debug)]
pub struct RemoteSpinner {
    pub message: String,
}

/// A line of a search result.
#[derive(Debug)]
pub struct SearchResultItem {
    pub full_path: String,
    pub relative_path: String,
    pub name: String,
    pub is_directory: bool,
}

/// The result of a search.
#[derive(Debug)]
pub struct SearchResultState {
    pub results: Vec<SearchResultItem>,
    pub selected_index: usize,
    pub scroll_offset: usize,
    pub search_term: String,
    pub base_path: String,
    pub active: bool,
}

/// Two files whose contents are shown side by side; an empty path stands for a
/// side without a file.
#[derive(Debug)]
pub struct DiffFileView {
    pub left_path: String,
    pub right_path: String,
    pub file_name: String,
}

/// A binary file without a handler, and its extension.
#[derive(Debug)]
pub struct PendingBinaryFile {
    pub path: String,
    pub extension: String,
}

/// The program.
#[derive(Debug)]
pub struct App {
    pub panels: Vec<PanelState>,
    pub active_panel_index: usize,
    pub current_screen: Screen,
    pub previous_screen: Option<Screen>,
    pub dialog: Option<Dialog>,
    pub message: Option<String>,
    pub message_timer: u8,
    pub settings: Settings,
    /// The name of the theme in use.
    pub theme: String,
    pub theme_watch_state: ThemeWatchState,
    pub editor_state: Option<EditorLink>,
    pub image_viewer_open: bool,
    pub ai_active: bool,
    pub ai_panel_index: Option<usize>,
    pub ai_previous_panel: Option<usize>,
    pub pending_large_image: Option<String>,
    pub pending_large_file: Option<String>,
    pub pending_binary_file: Option<PendingBinaryFile>,
    pub search_result_state: SearchResultState,
    pub clipboard: Option<Clipboard>,
    pub pending_delete_operation: Option<PendingDeleteOperation>,
    pub pending_rename_operation: Option<PendingRenameOperation>,
    /// A cut that is consumed once its move has succeeded.
    pub pending_cut_clipboard: Option<Clipboard>,
    pub file_operation_progress: Option<FileOperationProgress>,
    pub pending_tar_archive: Option<String>,
    pub pending_extract_dir: Option<String>,
    pub pending_paste_focus: Option<Vec<String>>,
    pub conflict_state: Option<ConflictState>,
    pub tar_exclude_state: Option<TarExcludeState>,
    pub help_state: HelpState,
    pub settings_state: Option<SettingsState>,
    pub remote_connect_state: Option<RemoteConnectState>,
    pub diff_first_panel: Option<usize>,
    pub diff_state: Option<DiffState>,
    pub diff_file_view_state: Option<DiffFileView>,
    pub git_log_diff_state: Option<GitLogDiffState>,
    pub pending_remote_open: Option<PendingRemoteOpen>,
    pub remote_spinner: Option<RemoteSpinner>,
}

/// Whether a remembered panel is a panel.
pub open spec fn panel_in(index: Option<usize>, count: nat) -> bool {
    index matches Some(i) ==> i < count
}

/// Whether the program says `text` and nothing else changed.
pub open spec fn says(before: App, after: App, text: Seq<char>) -> bool {
    &&& after == App { message: after.message, message_timer: 10, ..before }
    &&& optional_text(after.message) == Some(text)
}

/// The place of a remembered panel once one was put in at `at`.
pub open spec fn after_insert(index: Option<usize>, at: int) -> Option<usize> {
    match index {
        Some(i) => if i >= at {
            Some((i + 1) as usize)
        } else {
            Some(i)
        },
        None => None,
    }
}

/// The place of a remembered panel once the one at `at` was taken out.
pub open spec fn after_remove(index: Option<usize>, at: int) -> Option<usize> {
    match index {
        Some(i) => if i > at {
            Some((i - 1) as usize)
        } else if i == at {
            None
        } else {
            Some(i)
        },
        None => None,
    }
}

/// A line of the panel is marked, or its mark taken away; the line to the parent
/// cannot be marked.
pub open spec fn toggled_mark(marks: Set<Seq<char>>, item: Option<FileItem>) -> Set<Seq<char>> {
    match item {
        Some(item) => if item.name@ == ".."@ {
            marks
        } else if marks.contains(item.name@) {
            marks.remove(item.name@)
        } else {
            marks.insert(item.name@)
        },
        None => marks,
    }
}

/// What going to the panel on the left does.
pub open spec fn switched_left(before: App, after: App) -> bool {
    if before.active_panel_index == 0 {
        after == before
    } else {
        &&& after == (App {
            panels: after.panels,
            active_panel_index: (before.active_panel_index - 1) as usize,
            ..before
        })
        &&& kept_line(before, after, before.active_panel_index - 1)
    }
}

/// What going to the panel on the right does.
pub open spec fn switched_right(before: App, after: App) -> bool {
    if before.active_panel_index + 1 == before.panels@.len() {
        after == before
    } else {
        &&& after == (App {
            panels: after.panels,
            active_panel_index: (before.active_panel_index + 1) as usize,
            ..before
        })
        &&& kept_line(before, after, before.active_panel_index + 1)
    }
}

/// What moving the cursor does that marks the line it leaves.
pub open spec fn moved_marking(before: App, after: App, delta: i32) -> bool {
    let panel = before.active();
    let wanted = moved_cursor(panel.selected_index, delta, panel.files@.len());
    if wanted == panel.selected_index {
        after.active() == panel
    } else {
        &&& after.active() == (PanelState {
            selected_index: wanted as usize,
            selected_files: after.active().selected_files,
            ..panel
        })
        &&& after.active().selected_files@ == toggled_mark(
            panel.selected_files@,
            panel.current(),
        )
    }
}

/// Whether the program shows its panels, with nothing open and nothing under way.
pub open spec fn nothing_open(app: App) -> bool {
    &&& app.current_screen == Screen::FilePanel
    &&& app.previous_screen is None
    &&& app.dialog is None
    &&& app.message is None
    &&& app.message_timer == 0
    &&& app.editor_state is None
    &&& !app.image_viewer_open
    &&& !app.ai_active
    &&& app.ai_panel_index is None
    &&& app.ai_previous_panel is None
    &&& app.pending_large_image is None
    &&& app.pending_large_file is None
    &&& app.pending_binary_file is None
    &&& app.search_result_state.results@.len() == 0
    &&& app.search_result_state.selected_index == 0
    &&& app.search_result_state.scroll_offset == 0
    &&& app.search_result_state.search_term@.len() == 0
    &&& app.search_result_state.base_path@.len() == 0
    &&& !app.search_result_state.active
    &&& app.clipboard is None
    &&& app.pending_delete_operation is None
    &&& app.pending_rename_operation is None
    &&& app.pending_cut_clipboard is None
    &&& app.file_operation_progress is None
    &&& app.pending_tar_archive is None
    &&& app.pending_extract_dir is None
    &&& app.pending_paste_focus is None
    &&& app.conflict_state is None
    &&& app.tar_exclude_state is None
    &&& app.help_state == (HelpState { scroll_offset: 0, max_scroll: 0, visible_height: 0 })
    &&& app.settings_state is None
    &&& app.remote_connect_state is None
    &&& app.diff_first_panel is None
    &&& app.diff_state is None
    &&& app.diff_file_view_state is None
    &&& app.git_log_diff_state is None
    &&& app.pending_remote_open is None
    &&& app.remote_spinner is None
}

/// What opening panels on paths comes to.
pub open spec fn opens_on(
    before: App,
    after: App,
    paths: Seq<String>,
    places: Places,
) -> bool {
    &&& paths.len() == 0 ==> after == before
    &&& paths.len() > 0 ==> {
        &&& after == (App {
            panels: after.panels,
            active_panel_index: 0,
            ..before
        })
        &&& after.panels@.len() == if paths.len() < MAX_PANELS {
            paths.len() as int
        } else {
            MAX_PANELS as int
        }
        &&& forall|i: int|
            0 <= i < after.panels@.len() ==> is_fresh_panel(
                #[trigger] after.panels@[i],
                places.nearest(paths[i]@),
                SortBy::Name,
                SortOrder::Asc,
            )
    }
}

impl App {
    /// Whether the indices of panels name panels, and there is at least one.
    pub open spec fn wf(self) -> bool {
        &&& 0 < self.panels@.len()
        &&& self.active_panel_index < self.panels@.len()
        &&& panel_in(self.ai_panel_index, self.panels@.len())
        &&& panel_in(self.ai_previous_panel, self.panels@.len())
        &&& panel_in(self.diff_first_panel, self.panels@.len())
    }

    /// The panel that has the focus.
    pub open spec fn active(self) -> PanelState {
        self.panels@[self.active_panel_index as int]
    }

    /// The panel that follows the active one; the first follows the last.
    pub open spec fn target(self) -> PanelState {
        self.panels@[(self.active_panel_index + 1) % self.panels@.len() as int]
    }

    /// The program with another state of the panel that has the focus.
    pub open spec fn only_active_changed(before: App, after: App) -> bool {
        &&& after == App { panels: after.panels, ..before }
        &&& after.panels@ == before.panels@.update(
            before.active_panel_index as int,
            after.panels@[before.active_panel_index as int],
        )
    }

    /// The program with the given panels and settings, and nothing open.
    pub fn with_panels(panels: Vec<PanelState>, active_panel_index: usize, settings: Settings, theme: String, watch: ThemeWatchState) -> (r:
        App)
        ensures
            r.panels == panels,
            r.active_panel_index == active_panel_index,
            r.settings == settings,
            r.theme == theme,
            r.theme_watch_state == watch,
            nothing_open(r),
    {
        App {
            panels,
            active_panel_index,
            current_screen: Screen::FilePanel,
            previous_screen: None,
            dialog: None,
            message: None,
            message_timer: 0,
            settings,
            theme,
            theme_watch_state: watch,
            editor_state: None,
            image_viewer_open: false,
            ai_active: false,
            ai_panel_index: None,
            ai_previous_panel: None,
            pending_large_image: None,
            pending_large_file: None,
            pending_binary_file: None,
            search_result_state: SearchResultState {
                results: Vec::new(),
                selected_index: 0,
                scroll_offset: 0,
                search_term: String::new(),
                base_path: String::new(),
                active: false,
            },
            clipboard: None,
            pending_delete_operation: None,
            pending_rename_operation: None,
            pending_cut_clipboard: None,
            file_operation_progress: None,
            pending_tar_archive: None,
            pending_extract_dir: None,
            pending_paste_focus: None,
            conflict_state: None,
            tar_exclude_state: None,
            help_state: HelpState { scroll_offset: 0, max_scroll: 0, visible_height: 0 },
            settings_state: None,
            remote_connect_state: None,
            diff_first_panel: None,
            diff_state: None,
            diff_file_view_state: None,
            git_log_diff_state: None,
            pending_remote_open: None,
            remote_spinner: None,
        }
    }

    /// Shows a message for ten ticks.
    pub fn show_message(&mut self, msg: &str)
        ensures
            says(*old(self), *final(self), msg@),
    {
        self.message = Some(msg.to_owned());
        self.message_timer = 10;
    }

    /// The panel that has the focus.
    pub fn active_panel(&self) -> (r: &PanelState)
        requires
            self.wf(),
        ensures
            *r == self.active(),
    {
        &self.panels[self.active_panel_index]
    }

    /// The panel that has the focus.
    pub fn active_panel_mut(&mut self) -> (r: &mut PanelState)
        requires
            old(self).wf(),
        ensures
            *r == old(self).active(),
            *final(self) == (App { panels: final(self).panels, ..*old(self) }),
            final(self).panels@ == old(self).panels@.update(
                old(self).active_panel_index as int,
                *final(r),
            ),
    {
        &mut self.panels[self.active_panel_index]
    }

    /// The panel that operations aim at: the one after the one with the focus.
    pub fn target_panel(&self) -> (r: &PanelState)
        requires
            self.wf(),
        ensures
            *r == self.target(),
    {
        let count: usize = self.panels.len();
        let target: usize = (self.active_panel_index + 1) % count;
        &self.panels[target]
    }

    /// Moves the focus to the panel that follows, around; the marks of the panel
    /// that is left are taken away.
    pub fn switch_panel(&mut self)
        requires
            old(self).wf(),
        ensures
            final(self).wf(),
            panel_switched(*old(self), *final(self)),
    {
        let count: usize = self.panels.len();
        let at: usize = self.active_panel_index;
        self.panels[at].selected_files = NameSet::new();
        self.active_panel_index = (at + 1) % count;
        assert(self.panels@.len() == old(self).panels@.len());
    }

    /// Moves the focus to `target`, keeping the line of the view that the cursor
    /// stands in; the scroll of the target stays.
    fn switch_panel_keep_index_to(&mut self, target: usize)
        requires
            old(self).wf(),
            target < old(self).panels@.len(),
            target != old(self).active_panel_index,
        ensures
            final(self).wf(),
            *final(self) == (App {
                panels: final(self).panels,
                active_panel_index: target,
                ..*old(self)
            }),
            kept_line(*old(self), *final(self), target as int),
    {
        let at: usize = self.active_panel_index;
        let scroll: usize = self.panels[at].scroll_offset;
        let index: usize = self.panels[at].selected_index;
        let line: usize = if index > scroll { index - scroll } else { 0 };
        self.panels[at].selected_files = NameSet::new();
        self.active_panel_index = target;
        let total: usize = self.panels[target].files.len();
        if total > 0 {
            let top: usize = self.panels[target].scroll_offset;
            let last: usize = total - 1;
            let wanted: usize = if top >= last || line >= last - top { last } else { top + line };
            self.panels[target].selected_index = wanted;
        }
        assert(self.panels@.len() == old(self).panels@.len());
    }

    /// Moves the focus to the panel on the left, if there is one.
    pub fn switch_panel_left(&mut self)
        requires
            old(self).wf(),
        ensures
            final(self).wf(),
            switched_left(*old(self), *final(self)),
    {
        if self.active_panel_index == 0 {
            return;
        }
        self.switch_panel_keep_index_to(self.active_panel_index - 1);
    }

    /// Moves the focus to the panel on the right, if there is one.
    pub fn switch_panel_right(&mut self)
        requires
            old(self).wf(),
        ensures
            final(self).wf(),
            switched_right(*old(self), *final(self)),
    {
        if self.active_panel_index >= self.panels.len() - 1 {
            return;
        }
        self.switch_panel_keep_index_to(self.active_panel_index + 1);
    }

    /// Replaces the panels by new ones for the first ten of the paths, with the focus
    /// on the first. Without any path nothing changes.
    pub fn set_panels_from_paths(&mut self, paths: Vec<String>, places: &Places)
        requires
            old(self).wf(),
        ensures
            opens_on(*old(self), *final(self), paths@, *places),
    {
        let mut panels: Vec<PanelState> = Vec::new();
        let mut i: usize = 0;
        while i < paths.len() && i < MAX_PANELS
            invariant
                i <= paths@.len(),
                i <= MAX_PANELS,
                panels@.len() == i,
                forall|k: int|
                    0 <= k < i ==> is_fresh_panel(
                        #[trigger] panels@[k],
                        places.nearest(paths@[k]@),
                        SortBy::Name,
                        SortOrder::Asc,
                    ),
            decreases paths@.len() - i,
        {
            panels.push(PanelState::new(paths[i].as_str(), places));
            i += 1;
        }
        if panels.len() == 0 {
            return;
        }
        self.panels = panels;
        self.active_panel_index = 0;
    }

    /// Opens a new local panel for the same path beside the one with the focus, and
    /// gives it the focus. Remembered panels keep their panel. With ten panels nothing
    /// changes.
    pub fn add_panel(&mut self, places: &Places)
        requires
            old(self).wf(),
        ensures
            final(self).wf(),
            panel_added(*old(self), *final(self), *places),
    {
        if self.panels.len() >= MAX_PANELS {
            return;
        }
        let panel = PanelState::new(self.active_panel().path.as_str(), places);
        let at: usize = self.active_panel_index + 1;
        self.panels.insert(at, panel);
        self.ai_panel_index = shift_up(self.ai_panel_index, at);
        self.ai_previous_panel = shift_up(self.ai_previous_panel, at);
        self.diff_first_panel = shift_up(self.diff_first_panel, at);
        self.active_panel_index = at;
    }

    /// Closes the panel with the focus. Remembered panels keep their panel, and
    /// a remembered one that is closed is forgotten. The last panel stays. The
    /// AI screen goes with its panel.
    pub fn close_panel(&mut self)
        requires
            old(self).wf(),
        ensures
            final(self).wf(),
            panel_closed(*old(self), *final(self)),
    {
        if self.panels.len() <= 1 {
            return;
        }
        let at: usize = self.active_panel_index;
        let here = match self.ai_panel_index {
            Some(i) => i == at,
            None => false,
        };
        if here {
            self.ai_panel_index = None;
            self.ai_previous_panel = None;
            self.ai_active = false;
        }
        let _ = self.panels.remove(at);
        self.ai_panel_index = shift_down(self.ai_panel_index, at);
        self.ai_previous_panel = shift_down(self.ai_previous_panel, at);
        self.diff_first_panel = shift_down(self.diff_first_panel, at);
        if self.active_panel_index >= self.panels.len() {
            self.active_panel_index = self.panels.len() - 1;
        }
    }

    /// Moves the cursor by `delta` lines, held inside the listing.
    pub fn move_cursor(&mut self, delta: i32)
        requires
            old(self).wf(),
        ensures
            final(self).wf(),
            App::only_active_changed(*old(self), *final(self)),
            final(self).active() == (PanelState {
                selected_index: moved_cursor(
                    old(self).active().selected_index,
                    delta,
                    old(self).active().files@.len(),
                ) as usize,
                ..old(self).active()
            }),
    {
        let at: usize = self.active_panel_index;
        let wanted = target_line(
            self.panels[at].selected_index,
            delta,
            self.panels[at].files.len(),
        );
        self.panels[at].selected_index = wanted;
    }

    /// Moves the cursor to the first line.
    pub fn cursor_to_start(&mut self)
        requires
            old(self).wf(),
        ensures
            final(self).wf(),
            App::only_active_changed(*old(self), *final(self)),
            final(self).active() == (PanelState { selected_index: 0, ..old(self).active() }),
    {
        let at: usize = self.active_panel_index;
        self.panels[at].selected_index = 0;
    }

    /// Moves the cursor to the last line.
    pub fn cursor_to_end(&mut self)
        requires
            old(self).wf(),
        ensures
            final(self).wf(),
            App::only_active_changed(*old(self), *final(self)),
            final(self).active() == (PanelState {
                selected_index: if old(self).active().files@.len() > 0 {
                    (old(self).active().files@.len() - 1) as usize
                } else {
                    old(self).active().selected_index
                },
                ..old(self).active()
            }),
    {
        let at: usize = self.active_panel_index;
        let count: usize = self.panels[at].files.len();
        if count > 0 {
            self.panels[at].selected_index = count - 1;
        }
        assert(self.panels@ =~= old(self).panels@.update(at as int, self.panels@[at as int]));
    }

    /// Marks the line under the cursor, or takes its mark away, and moves the
    /// cursor. Where the cursor cannot move nothing changes.
    pub fn move_cursor_with_selection(&mut self, delta: i32)
        requires
            old(self).wf(),
        ensures
            final(self).wf(),
            App::only_active_changed(*old(self), *final(self)),
            moved_marking(*old(self), *final(self), delta),
    {
        let at: usize = self.active_panel_index;
        let wanted = target_line(
            self.panels[at].selected_index,
            delta,
            self.panels[at].files.len(),
        );
        if wanted == self.panels[at].selected_index {
            assert(self.panels@ =~= old(self).panels@.update(at as int, self.panels@[at as int]));
            return;
        }
        self.mark_current(at);
        self.panels[at].selected_index = wanted;
        assert(self.panels@ =~= old(self).panels@.update(at as int, self.panels@[at as int]));
    }

    fn mark_current(&mut self, at: usize)
        requires
            at < old(self).panels@.len(),
        ensures
            *final(self) == (App { panels: final(self).panels, ..*old(self) }),
            final(self).panels@ == old(self).panels@.update(
                at as int,
                (PanelState {
                    selected_files: final(self).panels@[at as int].selected_files,
                    ..old(self).panels@[at as int]
                }),
            ),
            final(self).panels@[at as int].selected_files@ == toggled_mark(
                old(self).panels@[at as int].selected_files@,
                old(self).panels@[at as int].current(),
            ),
    {
        let name: String = match self.panels[at].current_file() {
            Some(file) => file.name.clone(),
            None => {
                return;
            },
        };
        if same_text(name.as_str(), "..") {
            return;
        }
        let mut marks = NameSet::new();
        core::mem::swap(&mut marks, &mut self.panels[at].selected_files);
        if marks.contains(name.as_str()) {
            marks.remove(name.as_str());
        } else {
            marks.insert(name);
        }
        self.panels[at].selected_files = marks;
    }
}

/// The focus goes to the panel that follows, around, and the marks of the panel
/// that is left are taken away.
pub open spec fn panel_switched(before: App, after: App) -> bool {
    let at = before.active_panel_index as int;
    &&& after == App {
        panels: after.panels,
        active_panel_index: after.active_panel_index,
        ..before
    }
    &&& after.active_panel_index == (at + 1) % before.panels@.len() as int
    &&& after.panels@ == before.panels@.update(
        at,
        PanelState { selected_files: after.panels@[at].selected_files, ..before.active() },
    )
    &&& after.panels@[at].selected_files@ == Set::<Seq<char>>::empty()
}

/// A new local panel for the same path stands behind the one with the focus and has
/// the focus, unless there are ten panels.
pub open spec fn panel_added(before: App, after: App, places: Places) -> bool {
    if before.panels@.len() >= MAX_PANELS {
        after == before
    } else {
        let at = before.active_panel_index + 1;
        &&& after == App {
            panels: after.panels,
            active_panel_index: at as usize,
            ai_panel_index: after_insert(before.ai_panel_index, at),
            ai_previous_panel: after_insert(before.ai_previous_panel, at),
            diff_first_panel: after_insert(before.diff_first_panel, at),
            ..before
        }
        &&& after.panels@ == before.panels@.insert(at, after.panels@[at])
        &&& is_fresh_panel(
            after.panels@[at],
            places.nearest(before.active().path@),
            SortBy::Name,
            SortOrder::Asc,
        )
    }
}

/// The panel with the focus is gone, and with it the AI screen that it showed,
/// unless it was the last panel.
pub open spec fn panel_closed(before: App, after: App) -> bool {
    if before.panels@.len() <= 1 {
        after == before
    } else {
        let at = before.active_panel_index as int;
        let here = before.ai_panel_index == Some(before.active_panel_index);
        &&& after == App {
            panels: after.panels,
            active_panel_index: if at == before.panels@.len() - 1 {
                (at - 1) as usize
            } else {
                at as usize
            },
            ai_panel_index: after_remove(before.ai_panel_index, at),
            ai_previous_panel: if here {
                None
            } else {
                after_remove(before.ai_previous_panel, at)
            },
            ai_active: !here && before.ai_active,
            diff_first_panel: after_remove(before.diff_first_panel, at),
            ..before
        }
        &&& after.panels@ == before.panels@.remove(at)
    }
}

/// The target of a switch shows the cursor in the line of its view that the
/// cursor stood in, as far as its listing reaches; the marks left behind are
/// taken away.
pub open spec fn kept_line(before: App, after: App, target: int) -> bool {
    let at = before.active_panel_index as int;
    let panel = before.panels@[at];
    let line = if panel.selected_index > panel.scroll_offset {
        panel.selected_index - panel.scroll_offset
    } else {
        0
    };
    let to = before.panels@[target];
    let wanted = to.scroll_offset + line;
    &&& after.panels@.len() == before.panels@.len()
    &&& forall|k: int|
        0 <= k < before.panels@.len() && k != at && k != target ==> after.panels@[k]
            == before.panels@[k]
    &&& after.panels@[at] == PanelState { selected_files: after.panels@[at].selected_files, ..panel }
    &&& after.panels@[at].selected_files@ == Set::<Seq<char>>::empty()
    &&& after.panels@[target] == PanelState {
        selected_index: if to.files@.len() == 0 {
            to.selected_index
        } else if wanted < to.files@.len() {
            wanted as usize
        } else {
            (to.files@.len() - 1) as usize
        },
        ..to
    }
}

fn shift_up(index: Option<usize>, at: usize) -> (r: Option<usize>)
    requires
        panel_in(index, usize::MAX as nat),
    ensures
        r == after_insert(index, at as int),
{
    match index {
        Some(i) => if i >= at {
            Some(i + 1)
        } else {
            Some(i)
        },
        None => None,
    }
}

fn shift_down(index: Option<usize>, at: usize) -> (r: Option<usize>)
    ensures
        r == after_remove(index, at as int),
{
    match index {
        Some(i) => if i > at {
            Some(i - 1)
        } else if i == at {
            None
        } else {
            Some(i)
        },
        None => None,
    }
}

fn target_line(index: usize, delta: i32, count: usize) -> (r: usize)
    ensures
        r == moved_cursor(index, delta, count as nat),
{
    let target: i128 = index as i128 + delta as i128;
    if target < 0 || count == 0 {
        0
    } else if target >= count as i128 {
        count - 1
    } else {
        target as usize
    }
}

/// Opening a panel and closing it again leaves the panels as they were, and the
/// remembered ones where they were.
pub proof fn law_add_then_close_restores(before: App, added: App, closed: App, places: Places)
    requires
        before.wf(),
        before.panels@.len() < MAX_PANELS,
        panel_added(before, added, places),
        panel_closed(added, closed),
    ensures
        closed.panels@ == before.panels@,
        closed.ai_panel_index == before.ai_panel_index,
        closed.ai_previous_panel == before.ai_previous_panel,
        closed.ai_active == before.ai_active,
        closed.diff_first_panel == before.diff_first_panel,
{
    assert(closed.panels@ =~= before.panels@);
}

proof fn lemma_switches(states: Seq<App>, k: int)
    requires
        0 <= k < states.len(),
        states[0].wf(),
        forall|i: int|
            0 <= i < states.len() - 1 ==> panel_switched(#[trigger] states[i], states[i + 1]),
    ensures
        states[k].panels@.len() == states[0].panels@.len(),
        states[k].active_panel_index == (states[0].active_panel_index + k)
            % states[0].panels@.len() as int,
    decreases k,
{
    let count = states[0].panels@.len() as int;
    let first = states[0].active_panel_index as int;
    if k > 0 {
        lemma_switches(states, k - 1);
        assert(panel_switched(states[k - 1], states[k - 1 + 1]));
        assert(((first + k - 1) % count + 1) % count == (first + k) % count) by (nonlinear_arith)
            requires
                0 < count,
        ;
    } else {
        assert(first % count == first) by (nonlinear_arith)
            requires
                0 <= first < count,
        ;
    }
}

/// Going from panel to panel as often as there are panels comes back to the first.
pub proof fn law_switching_goes_around(states: Seq<App>)
    requires
        states.len() > 0,
        states[0].wf(),
        states.len() == states[0].panels@.len() + 1,
        forall|i: int|
            0 <= i < states.len() - 1 ==> panel_switched(#[trigger] states[i], states[i + 1]),
    ensures
        states.last().active_panel_index == states[0].active_panel_index,
{
    let count = states[0].panels@.len() as int;
    let first = states[0].active_panel_index as int;
    lemma_switches(states, count);
    assert((first + count) % count == first) by (nonlinear_arith)
        requires
            0 <= first < count,
    ;
}

/// What is said stays for ten rounds, and nothing else changes.
pub proof fn law_message_is_shown(before: App, after: App, text: Seq<char>)
    requires
        says(before, after, text),
    ensures
        after.message is Some,
        after.message->0@ == text,
        after.message_timer == 10,
        after.panels == before.panels,
        after.dialog == before.dialog,
        after.clipboard == before.clipboard,
        after.current_screen == before.current_screen,
{
}

/// Of two panels each is the target of the other; the last of more has the first for its
/// target, any other the one to its right.
pub proof fn law_target_is_the_next_panel(app: App)
    requires
        app.wf(),
    ensures
        app.panels@.len() == 1 ==> app.target() == app.active(),
        app.panels@.len() == 2 && app.active_panel_index == 0 ==> app.target() == app.panels@[1],
        app.panels@.len() == 2 && app.active_panel_index == 1 ==> app.target() == app.panels@[0],
        app.active_panel_index + 1 < app.panels@.len() ==> app.target()
            == app.panels@[app.active_panel_index + 1],
        app.active_panel_index + 1 == app.panels@.len() ==> app.target() == app.panels@[0],
{
    let n = app.panels@.len() as int;
    let at = app.active_panel_index as int;
    if at + 1 < n {
        vstd::arithmetic::div_mod::lemma_small_mod((at + 1) as nat, n as nat);
    } else {
        vstd::arithmetic::div_mod::lemma_mod_self_0(n);
    }
}

/// Going right and left again leads back; at the ends nothing happens. The panel that is
/// left loses its marks and keeps everything else, and the cursor stays on the same line of
/// the screen where the other panel has one there.
pub proof fn law_going_right_and_left(before: App, middle: App, after: App)
    requires
        before.wf(),
        switched_right(before, middle),
        switched_left(middle, after),
        before.active_panel_index + 1 < before.panels@.len(),
    ensures
        middle.active_panel_index == before.active_panel_index + 1,
        after.active_panel_index == before.active_panel_index,
        middle.panels@[before.active_panel_index as int].selected_files@ == Set::<
            Seq<char>,
        >::empty(),
        middle.panels@[before.active_panel_index as int].files == before.active().files,
        middle.active().files == before.panels@[before.active_panel_index + 1].files,
        ({
            let from = before.active();
            let to = middle.active();
            let line = from.selected_index - from.scroll_offset;
            0 <= line && to.scroll_offset + line < to.files@.len() ==> to.selected_index
                - to.scroll_offset == line
        }),
        middle.active().files@.len() > 0 ==> middle.active().selected_index
            < middle.active().files@.len(),
{
    assert(before.panels.len() == before.panels@.len());
    assert(middle.panels@.len() == before.panels@.len());
    assert(middle.active().files.len() == middle.active().files@.len());
}

/// At the ends there is no panel to go to.
pub proof fn law_no_panel_beyond_the_ends(before: App, after: App)
    requires
        before.wf(),
    ensures
        before.active_panel_index == 0 && switched_left(before, after) ==> after == before,
        before.active_panel_index == before.panels@.len() - 1 && switched_right(before, after)
            ==> after == before,
{
}

/// A new panel stands right of the active one, shows the nearest directory that can be read,
/// and is active; every other panel keeps its place in the order, and whoever pointed to a
/// panel still points to it.
pub proof fn law_new_panel_moves_the_others(before: App, after: App, places: Places, i: int)
    requires
        before.wf(),
        panel_added(before, after, places),
        before.panels@.len() < MAX_PANELS,
        0 <= i < before.panels@.len(),
    ensures
        after.panels@.len() == before.panels@.len() + 1,
        after.active_panel_index == before.active_panel_index + 1,
        after.active().path@ == places.nearest(before.active().path@),
        after.active().files@.len() == 0,
        i <= before.active_panel_index ==> after.panels@[i] == before.panels@[i],
        i > before.active_panel_index ==> after.panels@[i + 1] == before.panels@[i],
        before.ai_panel_index == Some(i as usize) ==> after.ai_panel_index is Some
            && after.panels@[after.ai_panel_index->0 as int] == before.panels@[i],
        before.ai_previous_panel == Some(i as usize) ==> after.ai_previous_panel is Some
            && after.panels@[after.ai_previous_panel->0 as int] == before.panels@[i],
        before.diff_first_panel == Some(i as usize) ==> after.diff_first_panel is Some
            && after.panels@[after.diff_first_panel->0 as int] == before.panels@[i],
{
    assert(before.panels.len() == before.panels@.len());
}

/// The active panel is the one that is closed, never the last one left; whoever pointed to
/// it points nowhere, and whoever pointed to another still points to that one.
pub proof fn law_closed_panel_is_forgotten(before: App, after: App, i: int)
    requires
        before.wf(),
        panel_closed(before, after),
        before.panels@.len() > 1,
        0 <= i < before.panels@.len(),
    ensures
        after.panels@ == before.panels@.remove(before.active_panel_index as int),
        after.active_panel_index < after.panels@.len(),
        before.active_panel_index + 1 < before.panels@.len() ==> after.active()
            == before.panels@[before.active_panel_index + 1],
        before.active_panel_index + 1 == before.panels@.len() ==> after.active()
            == before.panels@[before.active_panel_index - 1],
        before.ai_panel_index == Some(before.active_panel_index) ==> after.ai_panel_index is None
            && after.ai_previous_panel is None && !after.ai_active,
        before.ai_panel_index != Some(before.active_panel_index) ==> after.ai_active
            == before.ai_active,
        i != before.active_panel_index && before.ai_panel_index == Some(i as usize) ==> {
            &&& after.ai_panel_index is Some
            &&& after.panels@[after.ai_panel_index->0 as int] == before.panels@[i]
        },
        before.diff_first_panel == Some(before.active_panel_index) ==> after.diff_first_panel is None,
        i != before.active_panel_index && before.diff_first_panel == Some(i as usize) ==> {
            &&& after.diff_first_panel is Some
            &&& after.panels@[after.diff_first_panel->0 as int] == before.panels@[i]
        },
{
    assert(before.panels.len() == before.panels@.len());
}

/// Moving with marks changes the mark of the line that the cursor leaves and no other, and
/// nothing at the ends.
pub proof fn law_leaving_a_line_marks_it(before: App, after: App, delta: i32)
    requires
        before.wf(),
        moved_marking(before, after, delta),
        before.active().selected_index < before.active().files@.len(),
        0 <= before.active().selected_index + delta < before.active().files@.len(),
    ensures
        after.active().selected_index == before.active().selected_index + delta,
        delta == 0 ==> after.active() == before.active(),
        delta != 0 ==> {
            let name = before.active().files@[before.active().selected_index as int].name@;
            &&& name != ".."@ ==> after.active().selected_files@.contains(name)
                == !before.active().selected_files@.contains(name)
            &&& name == ".."@ ==> after.active().selected_files@
                == before.active().selected_files@
            &&& forall|other: Seq<char>|
                other != name ==> (#[trigger] after.active().selected_files@.contains(other))
                    == before.active().selected_files@.contains(other)
        },
{
    assert(before.active().files.len() == before.active().files@.len());
}

/// Panels are opened on the paths in their order, as many as there may be, with the focus on
/// the first one; without paths nothing changes.
pub proof fn law_panels_open_on_the_paths(before: App, after: App, paths: Seq<String>, places: Places, i: int)
    requires
        opens_on(before, after, paths, places),
    ensures
        paths.len() == 0 ==> after == before,
        0 < paths.len() <= MAX_PANELS ==> after.panels@.len() == paths.len(),
        paths.len() > MAX_PANELS ==> after.panels@.len() == MAX_PANELS,
        paths.len() > 0 ==> after.active_panel_index == 0,
        paths.len() > 0 && 0 <= i < after.panels@.len() ==> {
            &&& after.panels@[i].path@ == places.nearest(paths[i]@)
            &&& after.panels@[i].sort_by == SortBy::Name
            &&& after.panels@[i].sort_order == SortOrder::Asc
            &&& !after.panels@[i].remote()
        },
{
}

} // verus!
