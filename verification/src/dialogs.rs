//! Screens, dialogs, and what they carry.

use crate::authorization::{
    DirectoryAuthorization, NamedAuthorization, PathAuthorization, PathedAuthorization,
};
use crate::remote_connect::RemoteProfile;
use crate::text::views;
use vstd::prelude::*;

verus! {

/// A screen of the program.
#[derive(Debug, Clone, Copy, PartialEq, Eq, Structural)]
pub enum Screen {
    FilePanel,
    FileViewer,
    FileEditor,
    FileInfo,
    ProcessManager,
    Help,
    AIScreen,
    SystemInfo,
    ImageViewer,
    SearchResult,
    DiffScreen,
    DiffFileView,
    GitScreen,
    DedupScreen,
}

/// A kind of dialog.
#[derive(Debug, Clone, Copy, PartialEq, Eq, Structural)]
pub enum DialogType {
    Delete,
    Mkdir,
    Mkfile,
    Rename,
    Search,
    Goto,
    Tar,
    TarExcludeConfirm,
    LargeImageConfirm,
    LargeFileConfirm,
    TrueColorWarning,
    Progress,
    TarError,
    DuplicateConflict,
    Settings,
    ExtensionHandlerError,
    BinaryFileHandler,
    GitLogDiff,
    RemoteConnect,
    RemoteProfileSave,
    EncryptConfirm,
    DecryptConfirm,
    DedupConfirm,
    DiffCopy,
    DiffDelete,
}

/// The suggestions for a path that is being typed.
#[derive(Debug)]
pub struct PathCompletion {
    pub suggestions: Vec<String>,
    pub selected_index: usize,
    pub visible: bool,
}

/// The suggestions for a path, as text.
pub struct CompletionView {
    pub suggestions: Seq<Seq<char>>,
    pub selected_index: usize,
    pub visible: bool,
}

impl View for PathCompletion {
    type V = CompletionView;

    open spec fn view(&self) -> CompletionView {
        CompletionView {
            suggestions: views(self.suggestions@),
            selected_index: self.selected_index,
            visible: self.visible,
        }
    }
}

/// No suggestions, out of sight.
pub open spec fn no_completion() -> CompletionView {
    CompletionView { suggestions: Seq::empty(), selected_index: 0, visible: false }
}

impl Default for PathCompletion {
    fn default() -> (r: Self)
        ensures
            r@ == no_completion(),
    {
        assert(views(Seq::<String>::empty()) =~= Seq::<Seq<char>>::empty());
        PathCompletion { suggestions: Vec::new(), selected_index: 0, visible: false }
    }
}

/// A dialog on the screen.
#[derive(Debug)]
pub struct Dialog {
    pub dialog_type: DialogType,
    pub input: String,
    /// The place of the cursor in the input, in characters.
    pub cursor_pos: usize,
    pub message: String,
    pub completion: Option<PathCompletion>,
    /// The chosen button; the first one is yes.
    pub selected_button: usize,
    /// The selected range of the input, in characters.
    pub selection: Option<(usize, usize)>,
    pub use_md5: bool,
}

/// A dialog as text.
pub struct DialogView {
    pub dialog_type: DialogType,
    pub input: Seq<char>,
    pub cursor_pos: nat,
    pub message: Seq<char>,
    pub completion: Option<CompletionView>,
    pub selected_button: usize,
    pub selection: Option<(usize, usize)>,
    pub use_md5: bool,
}

impl View for Dialog {
    type V = DialogView;

    open spec fn view(&self) -> DialogView {
        DialogView {
            dialog_type: self.dialog_type,
            input: self.input@,
            cursor_pos: self.cursor_pos as nat,
            message: self.message@,
            completion: match self.completion {
                Some(completion) => Some(completion@),
                None => None,
            },
            selected_button: self.selected_button,
            selection: self.selection,
            use_md5: self.use_md5,
        }
    }
}

/// The dialog that a value holds, as text.
pub open spec fn dialog_view(d: Option<Dialog>) -> Option<DialogView> {
    match d {
        Some(d) => Some(d@),
        None => None,
    }
}

/// A dialog with an input and a message and nothing else set.
pub open spec fn plain_dialog(dialog_type: DialogType, input: Seq<char>, message: Seq<char>) -> DialogView {
    DialogView {
        dialog_type,
        input,
        cursor_pos: 0,
        message,
        completion: None,
        selected_button: 0,
        selection: None,
        use_md5: false,
    }
}

impl Dialog {
    /// A dialog with an input and a message and nothing else set.
    pub fn plain(dialog_type: DialogType, input: String, message: String) -> (r: Self)
        ensures
            r@ == plain_dialog(dialog_type, input@, message@),
    {
        Dialog {
            dialog_type,
            input,
            cursor_pos: 0,
            message,
            completion: None,
            selected_button: 0,
            selection: None,
            use_md5: false,
        }
    }
}

/// Where the help screen is scrolled to.
#[derive(Debug)]
pub struct HelpState {
    pub scroll_offset: usize,
    pub max_scroll: usize,
    pub visible_height: usize,
}

impl Default for HelpState {
    fn default() -> (r: Self)
        ensures
            r.scroll_offset == 0,
            r.max_scroll == 0,
            r.visible_height == 0,
    {
        HelpState { scroll_offset: 0, max_scroll: 0, visible_height: 0 }
    }
}

/// The watch over a theme file.
#[derive(Debug)]
pub struct ThemeWatchState {
    pub theme_path: Option<String>,
    /// When the file was last seen to change.
    pub last_modified: Option<u64>,
    /// How many calls there were, in rounds of 250.
    pub check_counter: u8,
}

/// The count after one more call. A round is a multiple of ten calls long, so that
/// every tenth call is a look at the file in each round alike.
pub open spec fn counted(count: u8) -> int {
    (count + 1) % 250
}

/// What one call does to a watch. `seen` is what a look at the file shows of its change
/// time; None stands for a file that could not be looked at. `changed` tells whether
/// this was a look, and showed another change time.
pub open spec fn watched(
    before: ThemeWatchState,
    seen: Option<Option<u64>>,
    after: ThemeWatchState,
    changed: bool,
) -> bool {
    &&& after.theme_path == before.theme_path
    &&& after.check_counter == counted(before.check_counter)
    &&& changed == (before.due() && seen is Some && seen->0 != before.last_modified)
    &&& after.last_modified == if changed { seen->0 } else { before.last_modified }
}

impl ThemeWatchState {
    /// Whether the coming call looks at the file: every tenth one does, where there is
    /// a file to look at.
    pub open spec fn due(self) -> bool {
        counted(self.check_counter) % 10 == 0 && self.theme_path is Some
    }

    /// A watch over a theme file as it was seen.
    pub fn watch_theme(theme_path: Option<String>, modified: Option<u64>) -> (r: Self)
        ensures
            r.theme_path == theme_path,
            r.last_modified == if theme_path is Some { modified } else { None },
            r.check_counter == 0,
    {
        let last_modified = if theme_path.is_some() { modified } else { None };
        ThemeWatchState { theme_path, last_modified, check_counter: 0 }
    }

    /// Watches another theme file.
    pub fn update_theme(&mut self, theme_path: Option<String>, modified: Option<u64>)
        ensures
            final(self).theme_path == theme_path,
            final(self).last_modified == if theme_path is Some { modified } else { None },
            final(self).check_counter == 0,
    {
        self.last_modified = if theme_path.is_some() { modified } else { None };
        self.theme_path = theme_path;
        self.check_counter = 0;
    }

    fn next_count(&self) -> (r: u8)
        ensures
            r == counted(self.check_counter),
    {
        if self.check_counter >= 249 {
            self.check_counter - 249
        } else {
            self.check_counter + 1
        }
    }

    /// Whether the coming call looks at the file: every tenth one does, where there is
    /// a file to look at.
    pub fn is_due(&self) -> (r: bool)
        ensures
            r == self.due(),
    {
        self.next_count() % 10 == 0 && self.theme_path.is_some()
    }

    /// Counts one call, and looks at the file where it is due. `seen` is what a look
    /// shows of its change time; None stands for a file that could not be looked at.
    /// True where the file has changed.
    pub fn check_for_changes(&mut self, seen: Option<Option<u64>>) -> (r: bool)
        ensures
            watched(*old(self), seen, *final(self), r),
    {
        self.check_counter = self.next_count();
        if self.check_counter % 10 != 0 || self.theme_path.is_none() {
            return false;
        }
        match seen {
            None => false,
            Some(modified) => {
                let changed = match (modified, self.last_modified) {
                    (Some(a), Some(b)) => a != b,
                    (None, None) => false,
                    _ => true,
                };
                if changed {
                    self.last_modified = modified;
                }
                changed
            },
        }
    }
}

/// Whether `states` holds a watch before the first call and after each of ten.
pub open spec fn ten_calls(
    states: Seq<ThemeWatchState>,
    seen: Seq<Option<Option<u64>>>,
    changed: Seq<bool>,
) -> bool {
    &&& states.len() == 11
    &&& seen.len() == 10
    &&& changed.len() == 10
    &&& forall|n: int| 0 <= n < 10 ==> #[trigger] call_at(states, seen, changed, n)
}

/// Whether the watch took its call with the given number.
pub open spec fn call_at(
    states: Seq<ThemeWatchState>,
    seen: Seq<Option<Option<u64>>>,
    changed: Seq<bool>,
    n: int,
) -> bool {
    watched(states[n], seen[n], states[n + 1], changed[n])
}

/// A fresh watch, and one that has just looked at its file, lets nine calls pass
/// without a look, whatever the file is like by then, and looks at the tenth.
pub proof fn law_every_tenth_call_looks(
    states: Seq<ThemeWatchState>,
    seen: Seq<Option<Option<u64>>>,
    changed: Seq<bool>,
)
    requires
        ten_calls(states, seen, changed),
        states[0].theme_path is Some,
        states[0].check_counter % 10 == 0,
    ensures
        forall|n: int| 0 <= n < 9 ==> !(#[trigger] states[n]).due(),
        forall|n: int| 0 <= n < 9 ==> !(#[trigger] changed[n]),
        forall|n: int|
            0 <= n < 10 ==> (#[trigger] states[n]).last_modified == states[0].last_modified,
        states[9].due(),
        changed[9] == (seen[9] is Some && seen[9]->0 != states[0].last_modified),
        states[10].last_modified == if changed[9] { seen[9]->0 } else { states[0].last_modified },
        states[10].check_counter % 10 == 0,
{
    assert forall|n: int| 0 <= n <= 9 implies passed((#[trigger] states[n]), states[0], n) by {
        lemma_passing_calls(states, seen, changed, n);
    }
    assert forall|n: int| 0 <= n < 9 implies !(#[trigger] states[n]).due() by {
        assert(passed(states[n], states[0], n));
        lemma_counted(states[n].check_counter);
    }
    assert forall|n: int| 0 <= n < 9 implies !(#[trigger] changed[n]) by {
        assert(call_at(states, seen, changed, n));
        assert(!states[n].due());
    }
    assert(call_at(states, seen, changed, 9));
    assert(passed(states[9], states[0], 9));
    lemma_counted(states[9].check_counter);
}

/// Whether a watch has let `n` calls pass since it was `first`.
spec fn passed(watch: ThemeWatchState, first: ThemeWatchState, n: int) -> bool {
    &&& watch.theme_path is Some
    &&& watch.last_modified == first.last_modified
    &&& watch.check_counter % 10 == n
}

proof fn lemma_counted(count: u8)
    ensures
        counted(count) % 10 == (count % 10 + 1) % 10,
        0 <= counted(count) < 250,
{
    if count >= 249 {
        assert(counted(count) == count - 249);
    } else {
        assert(counted(count) == count + 1);
    }
}

proof fn lemma_passing_calls(
    states: Seq<ThemeWatchState>,
    seen: Seq<Option<Option<u64>>>,
    changed: Seq<bool>,
    n: int,
)
    requires
        ten_calls(states, seen, changed),
        states[0].theme_path is Some,
        states[0].check_counter % 10 == 0,
        0 <= n <= 9,
    ensures
        passed(states[n], states[0], n),
    decreases n,
{
    if n > 0 {
        lemma_passing_calls(states, seen, changed, n - 1);
        assert(call_at(states, seen, changed, n - 1));
        lemma_counted(states[n - 1].check_counter);
    }
}

/// What the user chose about a file that is already there.
#[derive(Debug, Clone, Copy, PartialEq, Eq, Structural)]
pub enum ConflictResolution {
    Overwrite,
    Skip,
    OverwriteAll,
    SkipAll,
}

/// A file that is already there.
#[derive(Debug)]
pub struct Conflict {
    pub source: String,
    pub destination: String,
    pub name: String,
    /// What was seen at the destination when the user was asked.
    pub authorization: Option<PathAuthorization>,
}

/// What a clipboard is for.
#[derive(Debug, Clone, Copy, PartialEq, Eq, Structural)]
pub enum ClipboardOperation {
    Copy,
    Cut,
}

/// Files to copy or move.
#[derive(Debug)]
pub struct Clipboard {
    pub files: Vec<String>,
    pub source_path: String,
    pub operation: ClipboardOperation,
    /// The endpoint that the files are on; None stands for this machine.
    pub source_remote_profile: Option<RemoteProfile>,
    /// The local objects that were chosen.
    pub source_authorizations: Vec<NamedAuthorization>,
    /// The local directory that they were chosen in.
    pub source_directory_authorization: Option<DirectoryAuthorization>,
}

/// The files of a paste that are already there, while the user is asked.
#[derive(Debug)]
pub struct ConflictState {
    pub conflicts: Vec<Conflict>,
    pub current_index: usize,
    /// The sources whose destination may be replaced, and what was seen there.
    pub files_to_overwrite: Vec<PathedAuthorization>,
    /// The sources that are left out.
    pub files_to_skip: Vec<String>,
    /// The files that may be pasted at all.
    pub valid_files: Vec<String>,
    pub clipboard_backup: Option<Clipboard>,
    pub target_path: String,
    pub target_authorization: DirectoryAuthorization,
}

/// The paths that an archive leaves out, while the user is asked.
#[derive(Debug)]
pub struct TarExcludeState {
    pub archive_name: String,
    pub files: Vec<String>,
    pub excluded_paths: Vec<String>,
    pub scroll_offset: usize,
}

/// A commit in a log.
#[derive(Debug)]
pub struct GitLogEntry {
    pub hash: String,
    pub subject: String,
}

/// The choice of two commits to compare.
#[derive(Debug)]
pub struct GitLogDiffState {
    pub repo_path: String,
    pub project_name: String,
    pub log_entries: Vec<GitLogEntry>,
    pub selected_index: usize,
    pub scroll_offset: usize,
    pub selected_commits: Vec<String>,
    pub visible_height: usize,
}

/// A process that the user was asked about: the start time tells it from a later
/// one with the same number.
#[derive(Debug, Clone, Copy, PartialEq, Eq, Structural)]
pub struct ProcessKillTarget {
    pub pid: i32,
    pub start_time_ticks: Option<u64>,
}

} // verus!
