//! The screens and dialogs that are opened from a panel, and what their answers
//! come to.

use crate::app_state::{says, App, DiffFileView, RemoteSpinner};
use crate::archive::{ends_with, has_end, lemma_end_is_suffix, lemma_end_of_sum};
use crate::clipboard::operation_files;
use crate::deletion::{brief_file_list, brief_list};
use crate::dialogs::{
    dialog_view, no_completion, plain_dialog, Dialog, DialogType, DialogView, GitLogDiffState,
    GitLogEntry, PathCompletion, Screen,
};
use crate::navigation::{cautious_dialog, Places};
use crate::panel::{is_fresh_panel, PanelState};
use crate::paths::{
    is_plain_name, join_path, joined_path, law_joined_name_is_found_again, local_name, name_of_path,
};
use crate::progress::{fresh_operation, FileOperationProgress, FileOperationType, OperationView};
use crate::remote_cache::ascii_alphanumeric;
use crate::remote_ops::ListJob;
use crate::settings::Settings;
use crate::sorting::{SortBy, SortOrder};
use crate::spinner::all_refreshed;
use crate::text::{
    blank, chars_of, concat2, concat3, concat5, decimal, is_blank, number_text, views,
};
use vstd::prelude::*;

verus! {

/// Whether only a dialog was opened.
pub open spec fn opens(before: App, after: App, dialog: DialogView) -> bool {
    &&& after == App { dialog: after.dialog, ..before }
    &&& dialog_view(after.dialog) == Some(dialog)
}

/// Whether a file is one that an encryption takes: not hidden, and not encrypted.
pub open spec fn is_encryptable(name: Seq<char>) -> bool {
    !ends_with(name, ".cokacenc"@) && !(name.len() > 0 && name[0] == '.')
}

/// How many names an encryption takes.
pub open spec fn encryptable_count(names: Seq<String>) -> nat
    decreases names.len(),
{
    if names.len() == 0 {
        0
    } else {
        encryptable_count(names.drop_last()) + if is_encryptable(names.last()@) {
            1nat
        } else {
            0nat
        }
    }
}

/// How many names are those of encrypted files.
pub open spec fn encrypted_count(names: Seq<String>) -> nat
    decreases names.len(),
{
    if names.len() == 0 {
        0
    } else {
        encrypted_count(names.drop_last()) + if ends_with(names.last()@, ".cokacenc"@) {
            1nat
        } else {
            0nat
        }
    }
}

fn count_encryptable(names: &Vec<String>) -> (r: usize)
    ensures
        r == encryptable_count(names@),
{
    let mut count: usize = 0;
    let mut i: usize = 0;
    while i < names.len()
        invariant
            i <= names@.len(),
            count <= i,
            count == encryptable_count(names@.take(i as int)),
        decreases names@.len() - i,
    {
        assert(names@.take(i + 1).drop_last() =~= names@.take(i as int));
        let chars = chars_of(names[i].as_str());
        let hidden = chars.len() > 0 && chars[0] == '.';
        if !has_end(names[i].as_str(), ".cokacenc") && !hidden {
            count += 1;
        }
        i += 1;
    }
    assert(names@.take(i as int) =~= names@);
    count
}

fn count_encrypted(names: &Vec<String>) -> (r: usize)
    ensures
        r == encrypted_count(names@),
{
    let mut count: usize = 0;
    let mut i: usize = 0;
    while i < names.len()
        invariant
            i <= names@.len(),
            count <= i,
            count == encrypted_count(names@.take(i as int)),
        decreases names@.len() - i,
    {
        assert(names@.take(i + 1).drop_last() =~= names@.take(i as int));
        if has_end(names[i].as_str(), ".cokacenc") {
            count += 1;
        }
        i += 1;
    }
    assert(names@.take(i as int) =~= names@);
    count
}

/// The dialog that asks how to encrypt.
pub open spec fn encrypt_dialog(split: Seq<char>, count: nat) -> DialogView {
    DialogView {
        dialog_type: DialogType::EncryptConfirm,
        input: split,
        cursor_pos: split.len(),
        message: "Encrypt "@ + decimal(count) + " file(s)? Split size MB (0=no split):"@,
        completion: None,
        selected_button: 0,
        selection: None,
        use_md5: true,
    }
}

/// A dialog with an input and the cursor behind it.
pub open spec fn input_dialog(dialog_type: DialogType, input: Seq<char>, message: Seq<char>) -> DialogView {
    DialogView { cursor_pos: input.len(), ..plain_dialog(dialog_type, input, message) }
}

/// The dialog that asks for a path.
pub open spec fn goto_dialog(path: Seq<char>) -> DialogView {
    DialogView {
        completion: Some(no_completion()),
        selection: Some((0usize, path.len() as usize)),
        ..input_dialog(DialogType::Goto, path, "Go to path:"@)
    }
}

/// An encryption to be done.
#[derive(Debug)]
pub struct EncryptJob {
    pub dir: String,
    pub split_size_mb: u64,
    pub use_md5: bool,
}

/// A comparison of two commits to be prepared.
#[derive(Debug)]
pub struct GitDiffJob {
    pub repo_path: String,
    pub project_name: String,
    pub hash1: String,
    pub hash2: String,
}

/// Whether a text is made of ASCII letters and digits.
pub open spec fn is_hash(s: Seq<char>) -> bool {
    forall|i: int| 0 <= i < s.len() ==> ascii_alphanumeric(#[trigger] s[i])
}

fn is_commit_hash(s: &str) -> (r: bool)
    ensures
        r == is_hash(s@),
{
    let v = chars_of(s);
    let mut i: usize = 0;
    while i < v.len()
        invariant
            i <= v@.len(),
            v@ == s@,
            forall|k: int| 0 <= k < i ==> ascii_alphanumeric(#[trigger] s@[k]),
        decreases v@.len() - i,
    {
        let c = v[i];
        let plain = ('0' <= c && c <= '9') || ('a' <= c && c <= 'z') || ('A' <= c && c <= 'Z');
        if !plain {
            assert(!ascii_alphanumeric(s@[i as int]));
            return false;
        }
        i += 1;
    }
    true
}

/// The directory that a commit is laid out in.
pub open spec fn commit_dir(home: Seq<char>, project: Seq<char>, hash: Seq<char>) -> Seq<char> {
    joined_path(
        joined_path(joined_path(home, ".cokacdir"@), "diff"@),
        project + "_"@ + hash,
    )
}

/// The directories that the two commits of a comparison are laid out in.
pub fn git_diff_dirs(home: &str, job: &GitDiffJob) -> (r: (String, String))
    ensures
        r.0@ == commit_dir(home@, job.project_name@, job.hash1@),
        r.1@ == commit_dir(home@, job.project_name@, job.hash2@),
{
    let own = join_path(home, ".cokacdir");
    let base = join_path(own.as_str(), "diff");
    let first = concat3(job.project_name.as_str(), "_", job.hash1.as_str());
    let second = concat3(job.project_name.as_str(), "_", job.hash2.as_str());
    (join_path(base.as_str(), first.as_str()), join_path(base.as_str(), second.as_str()))
}

/// What came of laying out a commit.
#[derive(Debug, Clone, Copy, PartialEq, Eq, Structural)]
pub enum LayOut {
    Done,
    NotCopied,
    NotCheckedOut,
}

/// What preparing a comparison of two commits comes to. `made` is whether the
/// directory above both was made.
pub fn git_diff_result(
    home: Option<&str>,
    made: bool,
    first: LayOut,
    second: LayOut,
    job: &GitDiffJob,
) -> (r: Result<(String, String), String>)
    ensures
        match home {
            None => r matches Err(e) && e@ == "Failed to get home directory"@,
            Some(path) => if !made {
                r matches Err(e) && e@ == "Failed to create diff directory"@
            } else {
                match (first, second) {
                    (LayOut::NotCopied, _) => r matches Err(e) && e@ == "Failed to copy repository"@,
                    (LayOut::NotCheckedOut, _) => r matches Err(e) && e@ == "Failed to checkout "@
                        + job.hash1@,
                    (LayOut::Done, LayOut::NotCopied) => r matches Err(e) && e@
                        == "Failed to copy repository"@,
                    (LayOut::Done, LayOut::NotCheckedOut) => r matches Err(e) && e@
                        == "Failed to checkout "@ + job.hash2@,
                    (LayOut::Done, LayOut::Done) => r matches Ok((a, b)) && a@ == commit_dir(
                        path@,
                        job.project_name@,
                        job.hash1@,
                    ) && b@ == commit_dir(path@, job.project_name@, job.hash2@),
                }
            },
        },
{
    match home {
        None => Err("Failed to get home directory".to_owned()),
        Some(path) => {
            if !made {
                return Err("Failed to create diff directory".to_owned());
            }
            match (first, second) {
                (LayOut::NotCopied, _) => Err("Failed to copy repository".to_owned()),
                (LayOut::NotCheckedOut, _) => Err(
                    concat2("Failed to checkout ", job.hash1.as_str()),
                ),
                (LayOut::Done, LayOut::NotCopied) => Err("Failed to copy repository".to_owned()),
                (LayOut::Done, LayOut::NotCheckedOut) => Err(
                    concat2("Failed to checkout ", job.hash2.as_str()),
                ),
                (LayOut::Done, LayOut::Done) => Ok(git_diff_dirs(path, job)),
            }
        },
    }
}

/// A running operation.
pub open spec fn active_operation(operation_type: FileOperationType) -> OperationView {
    OperationView { is_active: true, ..fresh_operation(operation_type) }
}

/// Whether an operation with the files of the panel's directory was begun.
pub open spec fn begins_operation(before: App, after: App, operation_type: FileOperationType) -> bool {
    &&& after == App {
        file_operation_progress: after.file_operation_progress,
        dialog: after.dialog,
        ..before
    }
    &&& after.file_operation_progress matches Some(progress) && progress@ == active_operation(
        operation_type,
    )
    &&& dialog_view(after.dialog) == Some(
        plain_dialog(DialogType::Progress, Seq::empty(), Seq::empty()),
    )
}

/// What showing the assistant comes to: it takes the panel beside the one with the
/// focus, and the focus; with a single panel another one is opened for it.
pub open spec fn assistant_shown(before: App, after: App, places: Places) -> bool {
    let count = if before.panels@.len() == 1 {
        2nat
    } else {
        before.panels@.len()
    };
    let at = (before.active_panel_index + 1) % count as int;
    &&& after == App {
        panels: after.panels,
        ai_active: true,
        ai_previous_panel: Some(before.active_panel_index),
        ai_panel_index: Some(at as usize),
        active_panel_index: at as usize,
        ..before
    }
    &&& after.panels@.len() == count
    &&& forall|i: int|
        0 <= i < before.panels@.len() ==> (#[trigger] after.panels@[i]) == before.panels@[i]
    &&& before.panels@.len() == 1 ==> is_fresh_panel(
        after.panels@[1],
        places.nearest(before.active().path@),
        SortBy::Name,
        SortOrder::Asc,
    )
}

/// The program once the assistant is closed, before its panels are read again.
pub open spec fn assistant_closed(before: App) -> App {
    App {
        active_panel_index: match before.ai_previous_panel {
            Some(previous) => previous,
            None => before.active_panel_index,
        },
        ai_panel_index: None,
        ai_previous_panel: None,
        ai_active: false,
        ..before
    }
}

/// What agreeing to compare two commits comes to.
pub open spec fn begins_git_diff(
    before: App,
    after: App,
    r: Option<GitDiffJob>,
) -> bool {
    let closed = App { dialog: None, git_log_diff_state: None, ..before };
    match before.git_log_diff_state {
        None => after == closed && r is None,
        Some(state) => if state.selected_commits@.len() != 2 {
            after == closed && r is None
        } else {
            let first = state.selected_commits@[0];
            let second = state.selected_commits@[1];
            if !is_hash(first@) || !is_hash(second@) {
                says(closed, after, "Invalid commit hash"@) && r is None
            } else if before.remote_spinner is Some {
                after == closed && r is None
            } else {
                &&& r == Some(
                    GitDiffJob {
                        repo_path: state.repo_path,
                        project_name: state.project_name,
                        hash1: first,
                        hash2: second,
                    },
                )
                &&& after == (App {
                    remote_spinner: after.remote_spinner,
                    ..closed
                })
                &&& after.remote_spinner matches Some(spinner)
                    && spinner.message@ == "Preparing diff..."@
            }
        },
    }
}

/// What agreeing to encrypt comes to.
pub open spec fn begins_encryption(
    before: App,
    after: App,
    split_size_mb: u64,
    use_md5: bool,
    key: Result<(), String>,
    r: Option<EncryptJob>,
) -> bool {
    let start = App {
        settings: Settings { encrypt_split_size: split_size_mb, ..before.settings },
        ..before
    };
    match key {
        Err(error) => says(start, after, "Key error: "@ + error@) && r is None,
        Ok(_) => {
            &&& begins_operation(start, after, FileOperationType::Encrypt)
            &&& r == Some(
                EncryptJob { dir: before.active().path, split_size_mb, use_md5 },
            )
        },
    }
}

/// What asking for a search comes to.
pub open spec fn begins_search(
    before: App,
    after: App,
    term: Seq<char>,
    r: Option<String>,
) -> bool {
    if before.active().remote() {
        says(before, after, "Search is not supported on remote panels"@)
            && r is None
    } else if blank(term) {
        says(before, after, "Please enter a search term"@) && r is None
    } else if before.remote_spinner is Some {
        after == before && r is None
    } else {
        &&& r == Some(before.active().path)
        &&& after == (App { remote_spinner: after.remote_spinner, ..before })
        &&& after.remote_spinner matches Some(spinner) && spinner.message@
            == "Searching..."@
    }
}

/// What asking to encrypt comes to.
pub open spec fn asks_encryption(
    before: App,
    after: App,
    names: Seq<String>,
) -> bool {
    if before.active().remote() {
        says(before, after, "Encryption is not available on remote panels"@)
    } else if encryptable_count(names) == 0 {
        says(before, after, "No files to encrypt"@)
    } else {
        opens(
            before,
            after,
            encrypt_dialog(
                decimal(before.settings.encrypt_split_size as nat),
                encryptable_count(names),
            ),
        )
    }
}

/// What asking to decrypt comes to.
pub open spec fn asks_decryption(
    before: App,
    after: App,
    names: Seq<String>,
) -> bool {
    if before.active().remote() {
        says(before, after, "Decryption is not available on remote panels"@)
    } else if encrypted_count(names) == 0 {
        says(before, after, "No .cokacenc files to decrypt"@)
    } else {
        opens(
            before,
            after,
            cautious_dialog(
                DialogType::DecryptConfirm,
                "Decrypt "@ + decimal(encrypted_count(names)) + " .cokacenc file(s) in "@
                    + before.active().path@ + "?"@,
            ),
        )
    }
}

impl App {
    fn open_dialog(&mut self, dialog_type: DialogType, input: String, message: String)
        ensures
            opens(*old(self), *final(self), plain_dialog(dialog_type, input@, message@)),
    {
        let dialog = Dialog::plain(dialog_type, input, message);
        self.dialog = Some(dialog);
    }

    pub(crate) fn begin_directory_operation(&mut self, operation_type: FileOperationType)
        ensures
            begins_operation(*old(self), *final(self), operation_type),
    {
        let mut progress = FileOperationProgress::new(operation_type);
        progress.is_active = true;
        assert(progress@ == active_operation(operation_type));
        self.file_operation_progress = Some(progress);
        self.open_dialog(DialogType::Progress, String::new(), String::new());
    }

    /// Shows the help.
    pub fn show_help(&mut self)
        ensures
            *final(self) == (App { current_screen: Screen::Help, ..*old(self) }),
    {
        self.current_screen = Screen::Help;
    }

    /// Asks for the name of a new directory.
    pub fn show_mkdir_dialog(&mut self)
        ensures
            opens(
                *old(self),
                *final(self),
                plain_dialog(DialogType::Mkdir, Seq::empty(), Seq::empty()),
            ),
    {
        self.open_dialog(DialogType::Mkdir, String::new(), String::new());
    }

    /// Asks for the name of a new file.
    pub fn show_mkfile_dialog(&mut self)
        ensures
            opens(
                *old(self),
                *final(self),
                plain_dialog(DialogType::Mkfile, Seq::empty(), Seq::empty()),
            ),
    {
        self.open_dialog(DialogType::Mkfile, String::new(), String::new());
    }

    /// Asks for the name of an archive of the selection.
    pub fn show_tar_dialog(&mut self)
        requires
            old(self).wf(),
        ensures
            ({
                let files = operation_files(old(self).active());
                if files.len() == 0 {
                    says(*old(self), *final(self), "No files selected"@)
                } else {
                    opens(
                        *old(self),
                        *final(self),
                        input_dialog(DialogType::Tar, files[0] + ".tar"@, brief_list(files)),
                    )
                }
            }),
    {
        let files = self.get_operation_files();
        assert(views(files@).len() == files@.len());
        if files.len() == 0 {
            self.show_message("No files selected");
            return;
        }
        assert(views(files@)[0] == files@[0]@);
        let name = concat2(files[0].as_str(), ".tar");
        let list = brief_file_list(&files);
        let length: usize = chars_of(name.as_str()).len();
        let mut dialog = Dialog::plain(DialogType::Tar, name, list);
        dialog.cursor_pos = length;
        self.dialog = Some(dialog);
    }

    /// Asks what to search for.
    pub fn show_search_dialog(&mut self)
        ensures
            opens(
                *old(self),
                *final(self),
                plain_dialog(DialogType::Search, Seq::empty(), "Search for:"@),
            ),
    {
        self.open_dialog(DialogType::Search, String::new(), "Search for:".to_owned());
    }

    /// Asks for a path, beginning with the one of the panel. `remote` stands for its
    /// remote path.
    pub fn show_goto_dialog(&mut self, remote: String)
        requires
            old(self).wf(),
        ensures
            opens(
                *old(self),
                *final(self),
                goto_dialog(old(self).active().shown_as(remote)@),
            ),
    {
        let current_path = self.active_panel().display_path(remote);
        let length: usize = chars_of(current_path.as_str()).len();
        let mut dialog = Dialog::plain(DialogType::Goto, current_path, "Go to path:".to_owned());
        dialog.cursor_pos = length;
        dialog.completion = Some(PathCompletion::default());
        dialog.selection = Some((0, length));
        self.dialog = Some(dialog);
    }

    /// Begins a search below the directory of the panel. Gives the directory.
    pub fn execute_search(&mut self, term: &str) -> (r: Option<String>)
        requires
            old(self).wf(),
        ensures
            begins_search(*old(self), *final(self), term@, r),
    {
        if self.active_panel().is_remote() {
            self.show_message("Search is not supported on remote panels");
            return None;
        }
        if is_blank(term) {
            self.show_message("Please enter a search term");
            return None;
        }
        if self.remote_spinner.is_some() {
            return None;
        }
        let base = self.active_panel().path.clone();
        self.remote_spinner = Some(RemoteSpinner { message: "Searching...".to_owned() });
        Some(base)
    }

    /// Asks how to encrypt the files of the panel's directory. `names` holds the
    /// names of the files in it.
    pub fn show_encrypt_dialog(&mut self, names: &Vec<String>)
        requires
            old(self).wf(),
        ensures
            asks_encryption(*old(self), *final(self), names@),
    {
        if self.active_panel().is_remote() {
            self.show_message("Encryption is not available on remote panels");
            return;
        }
        let count: usize = count_encryptable(names);
        if count == 0 {
            self.show_message("No files to encrypt");
            return;
        }
        let split = number_text(self.settings.encrypt_split_size);
        let length: usize = chars_of(split.as_str()).len();
        let number = number_text(count as u64);
        let message = concat3(
            "Encrypt ",
            number.as_str(),
            " file(s)? Split size MB (0=no split):",
        );
        let mut dialog = Dialog::plain(DialogType::EncryptConfirm, split, message);
        dialog.cursor_pos = length;
        dialog.use_md5 = true;
        self.dialog = Some(dialog);
    }

    /// Asks to confirm a decryption of the files of the panel's directory.
    pub fn show_decrypt_dialog(&mut self, names: &Vec<String>)
        requires
            old(self).wf(),
        ensures
            asks_decryption(*old(self), *final(self), names@),
    {
        if self.active_panel().is_remote() {
            self.show_message("Decryption is not available on remote panels");
            return;
        }
        let count: usize = count_encrypted(names);
        if count == 0 {
            self.show_message("No .cokacenc files to decrypt");
            return;
        }
        let number = number_text(count as u64);
        let text = concat5(
            "Decrypt ",
            number.as_str(),
            " .cokacenc file(s) in ",
            self.active_panel().path.as_str(),
            "?",
        );
        self.ask(DialogType::DecryptConfirm, text);
    }

    /// Begins to encrypt the files of the panel's directory. The split size is
    /// remembered. `key` is whether there is a key.
    pub fn execute_encrypt(&mut self, split_size_mb: u64, use_md5: bool, key: Result<(), String>) -> (r:
        Option<EncryptJob>)
        requires
            old(self).wf(),
        ensures
            begins_encryption(*old(self), *final(self), split_size_mb, use_md5, key, r),
    {
        self.settings.encrypt_split_size = split_size_mb;
        if let Err(error) = key {
            let text = concat2("Key error: ", error.as_str());
            self.show_message(text.as_str());
            return None;
        }
        let dir = self.active_panel().path.clone();
        self.begin_directory_operation(FileOperationType::Encrypt);
        Some(EncryptJob { dir, split_size_mb, use_md5 })
    }

    /// Begins to decrypt the files of the panel's directory. Gives the directory.
    pub fn execute_decrypt(&mut self, key: Result<(), String>) -> (r: Option<String>)
        requires
            old(self).wf(),
        ensures
            match key {
                Err(error) => says(*old(self), *final(self), "Key error: "@ + error@) && r is None,
                Ok(_) => {
                    &&& begins_operation(*old(self), *final(self), FileOperationType::Decrypt)
                    &&& r == Some(old(self).active().path)
                },
            },
    {
        if let Err(error) = key {
            let text = concat2("Key error: ", error.as_str());
            self.show_message(text.as_str());
            return None;
        }
        let dir = self.active_panel().path.clone();
        self.begin_directory_operation(FileOperationType::Decrypt);
        Some(dir)
    }

    /// Asks to confirm that duplicates are deleted.
    pub fn show_dedup_screen(&mut self)
        requires
            old(self).wf(),
        ensures
            opens(
                *old(self),
                *final(self),
                cautious_dialog(
                    DialogType::DedupConfirm,
                    "WARNING: This will PERMANENTLY DELETE duplicate files in "@
                        + old(self).active().path@
                        + ". This action cannot be undone. Proceed?"@,
                ),
            ),
    {
        let text = concat3(
            "WARNING: This will PERMANENTLY DELETE duplicate files in ",
            self.active_panel().path.as_str(),
            ". This action cannot be undone. Proceed?",
        );
        self.ask(DialogType::DedupConfirm, text);
    }

    /// Shows the deletion of duplicates. Gives the directory.
    pub fn execute_dedup(&mut self) -> (r: String)
        requires
            old(self).wf(),
        ensures
            r == old(self).active().path,
            *final(self) == (App { current_screen: Screen::DedupScreen, ..*old(self) }),
    {
        self.current_screen = Screen::DedupScreen;
        self.active_panel().path.clone()
    }

    /// Shows the processes.
    pub fn show_process_manager(&mut self)
        ensures
            *final(self) == (App { current_screen: Screen::ProcessManager, ..*old(self) }),
    {
        self.current_screen = Screen::ProcessManager;
    }

    /// Shows the system.
    pub fn show_system_info(&mut self)
        ensures
            *final(self) == (App { current_screen: Screen::SystemInfo, ..*old(self) }),
    {
        self.current_screen = Screen::SystemInfo;
    }

    /// Shows the repository that the panel is in. Gives its path.
    pub fn show_git_screen(&mut self, is_repo: bool) -> (r: Option<String>)
        requires
            old(self).wf(),
        ensures
            if is_repo {
                &&& r == Some(old(self).active().path)
                &&& *final(self) == (App { current_screen: Screen::GitScreen, ..*old(self) })
            } else {
                says(*old(self), *final(self), "Not a git repository"@) && r is None
            },
    {
        if !is_repo {
            self.show_message("Not a git repository");
            return None;
        }
        self.current_screen = Screen::GitScreen;
        Some(self.active_panel().path.clone())
    }

    /// Asks for two commits to compare. `repo_root` and `entries` are what is known
    /// of the repository that the panel is in.
    pub fn show_git_log_diff_dialog(
        &mut self,
        is_repo: bool,
        repo_root: Option<String>,
        entries: Vec<GitLogEntry>,
    )
        ensures
            if !is_repo {
                says(*old(self), *final(self), "Not a git repository"@)
            } else {
                match repo_root {
                    None => says(*old(self), *final(self), "Failed to get git repo root"@),
                    Some(root) => if entries@.len() == 0 {
                        says(*old(self), *final(self), "No git commits found"@)
                    } else {
                        &&& *final(self) == (App {
                            git_log_diff_state: final(self).git_log_diff_state,
                            dialog: final(self).dialog,
                            ..*old(self)
                        })
                        &&& dialog_view(final(self).dialog) == Some(
                            plain_dialog(DialogType::GitLogDiff, Seq::empty(), Seq::empty()),
                        )
                        &&& final(self).git_log_diff_state matches Some(state)
                        &&& state.repo_path == root
                        &&& state.project_name@ == match local_name(root@) {
                            Some(name) => name,
                            None => "project"@,
                        }
                        &&& state.log_entries == entries
                        &&& state.selected_index == 0
                        &&& state.scroll_offset == 0
                        &&& state.selected_commits@.len() == 0
                        &&& state.visible_height == 20
                    },
                }
            },
    {
        if !is_repo {
            self.show_message("Not a git repository");
            return;
        }
        match repo_root {
            None => {
                self.show_message("Failed to get git repo root");
            },
            Some(root) => {
                if entries.len() == 0 {
                    self.show_message("No git commits found");
                    return;
                }
                let project_name = match name_of_path(root.as_str()) {
                    Some(name) => name,
                    None => "project".to_owned(),
                };
                self.git_log_diff_state =
                Some(
                    GitLogDiffState {
                        repo_path: root,
                        project_name,
                        log_entries: entries,
                        selected_index: 0,
                        scroll_offset: 0,
                        selected_commits: Vec::new(),
                        visible_height: 20,
                    },
                );
                self.open_dialog(DialogType::GitLogDiff, String::new(), String::new());
            },
        }
    }

    /// Begins to prepare the comparison of the two chosen commits.
    pub fn execute_git_log_diff(&mut self) -> (r: Option<GitDiffJob>)
        ensures
            begins_git_diff(*old(self), *final(self), r),
    {
        self.dialog = None;
        let state = match self.git_log_diff_state.take() {
            None => {
                return None;
            },
            Some(state) => state,
        };
        if state.selected_commits.len() != 2 {
            return None;
        }
        let hash1 = state.selected_commits[0].clone();
        let hash2 = state.selected_commits[1].clone();
        if !is_commit_hash(hash1.as_str()) || !is_commit_hash(hash2.as_str()) {
            self.show_message("Invalid commit hash");
            return None;
        }
        if self.remote_spinner.is_some() {
            return None;
        }
        self.remote_spinner = Some(RemoteSpinner { message: "Preparing diff...".to_owned() });
        Some(
            GitDiffJob {
                repo_path: state.repo_path,
                project_name: state.project_name,
                hash1,
                hash2,
            },
        )
    }

    /// Shows the assistant on the panel beside the one with the focus, which it
    /// takes. With a single panel another one is opened for it. Gives the directory
    /// that it works in.
    pub fn show_ai_screen(&mut self, places: &Places) -> (r: Option<String>)
        requires
            old(self).wf(),
        ensures
            final(self).wf(),
            if old(self).active().remote() {
                says(
                    *old(self),
                    *final(self),
                    "AI features are not available for remote panels"@,
                ) && r is None
            } else {
                assistant_shown(*old(self), *final(self), *places) && r == Some(
                    old(self).active().path,
                )
            },
    {
        if self.active_panel().is_remote() {
            self.show_message("AI features are not available for remote panels");
            return None;
        }
        let path = self.active_panel().path.clone();
        if self.panels.len() == 1 {
            self.panels.push(PanelState::new(path.as_str(), places));
        }
        let count: usize = self.panels.len();
        let before: usize = self.active_panel_index;
        let at: usize = (before + 1) % count;
        self.ai_active = true;
        self.ai_previous_panel = Some(before);
        self.ai_panel_index = Some(at);
        self.active_panel_index = at;
        Some(path)
    }

    /// Closes the assistant; the focus goes back, and the panels are read again.
    pub fn close_ai_screen(&mut self) -> (list: Option<ListJob>)
        requires
            old(self).wf(),
        ensures
            all_refreshed(assistant_closed(*old(self)), *final(self), list),
    {
        if let Some(previous) = self.ai_previous_panel {
            if previous < self.panels.len() {
                self.active_panel_index = previous;
            }
        }
        self.ai_panel_index = None;
        self.ai_previous_panel = None;
        self.ai_active = false;
        self.refresh_panels()
    }

    /// Whether the assistant is shown.
    pub fn is_ai_mode(&self) -> (r: bool)
        ensures
            r == (self.ai_panel_index is Some && self.ai_active),
    {
        self.ai_panel_index.is_some() && self.ai_active
    }

    /// Shows the contents of two files of the comparison.
    pub fn enter_diff_file_view(&mut self, left_path: String, right_path: String, file_name: String)
        ensures
            *final(self) == (App {
                diff_file_view_state: Some(DiffFileView { left_path, right_path, file_name }),
                current_screen: Screen::DiffFileView,
                ..*old(self)
            }),
    {
        self.diff_file_view_state = Some(DiffFileView { left_path, right_path, file_name });
        self.current_screen = Screen::DiffFileView;
    }
}

/// Closing the assistant brings the focus back to where it was before.
pub proof fn law_assistant_gives_the_focus_back(before: App, shown: App, places: Places)
    requires
        before.wf(),
        assistant_shown(before, shown, places),
    ensures
        assistant_closed(shown).active_panel_index == before.active_panel_index,
        assistant_closed(shown).ai_panel_index is None,
        !assistant_closed(shown).ai_active,
{
}

/// Files that are encrypted already are not encrypted again, and hidden ones never are;
/// every other file is.
pub proof fn law_what_is_encrypted(stem: Seq<char>, name: Seq<char>)
    ensures
        !is_encryptable(stem + ".cokacenc"@),
        !is_encryptable("."@ + stem),
        name.len() > 0 && name[0] != '.' && !".cokacenc"@.is_suffix_of(name) ==> is_encryptable(
            name,
        ),
{
    reveal_strlit(".");
    assert(("."@ + stem)[0] == '.');
    lemma_end_of_sum(stem, ".cokacenc"@);
    lemma_end_is_suffix(stem + ".cokacenc"@, ".cokacenc"@);
    lemma_end_is_suffix(name, ".cokacenc"@);
}

/// The files are counted as they are.
pub proof fn law_files_to_encrypt_are_counted(names: Seq<String>)
    ensures
        encryptable_count(names) == names.filter(|n: String| is_encryptable(n@)).len(),
        encrypted_count(names) == names.filter(|n: String| ends_with(n@, ".cokacenc"@)).len(),
        encryptable_count(names) + encrypted_count(names) <= names.len(),
    decreases names.len(),
{
    reveal(Seq::filter);
    if names.len() > 0 {
        law_files_to_encrypt_are_counted(names.drop_last());
    }
}

/// It is asked about encryption exactly where there is something to encrypt on this machine,
/// with the number of files; about decryption likewise, with its safe answer chosen.
pub proof fn law_encryption_is_asked_for(before: App, after: App, names: Seq<String>)
    requires
        before.wf(),
        before.dialog is None,
    ensures
        asks_encryption(before, after, names) ==> {
            &&& after.dialog is Some <==> !before.active().remote() && encryptable_count(names) > 0
            &&& after.dialog is Some ==> dialog_view(after.dialog)->0.dialog_type
                == DialogType::EncryptConfirm && dialog_view(after.dialog)->0.input == decimal(
                before.settings.encrypt_split_size as nat,
            ) && dialog_view(after.dialog)->0.use_md5
        },
        asks_decryption(before, after, names) ==> {
            &&& after.dialog is Some <==> !before.active().remote() && encrypted_count(names) > 0
            &&& after.dialog is Some ==> dialog_view(after.dialog)->0.dialog_type
                == DialogType::DecryptConfirm && dialog_view(after.dialog)->0.selected_button == 1
        },
{
}

/// What is encrypted is the directory shown, with the split that was asked for, which is
/// remembered.
pub proof fn law_encryption_takes_the_directory_shown(
    before: App,
    after: App,
    split_size_mb: u64,
    use_md5: bool,
    key: Result<(), String>,
    r: Option<EncryptJob>,
)
    requires
        before.wf(),
        begins_encryption(before, after, split_size_mb, use_md5, key, r),
    ensures
        r is Some <==> key is Ok,
        after.settings.encrypt_split_size == split_size_mb,
        r matches Some(job) ==> {
            &&& job.dir == before.active().path
            &&& job.split_size_mb == split_size_mb
            &&& job.use_md5 == use_md5
            &&& after.file_operation_progress is Some
            &&& after.file_operation_progress->0@.operation_type == FileOperationType::Encrypt
            &&& after.file_operation_progress->0@.is_active
        },
{
}

/// A search looks below the directory shown, on this machine only, for a term that is not
/// blank.
pub proof fn law_search_looks_below_the_directory_shown(
    before: App,
    after: App,
    term: Seq<char>,
    r: Option<String>,
)
    requires
        before.wf(),
        begins_search(before, after, term, r),
    ensures
        r is Some <==> !before.active().remote() && !blank(term) && before.remote_spinner is None,
        r matches Some(path) ==> path == before.active().path && after.remote_spinner is Some,
        r is None ==> after.remote_spinner == before.remote_spinner,
{
}

/// Two commits are compared exactly where two were chosen, both are named by plain hashes
/// and nothing else is under way: the one chosen first on the left.
pub proof fn law_two_commits_are_compared(before: App, after: App, r: Option<GitDiffJob>)
    requires
        begins_git_diff(before, after, r),
    ensures
        after.dialog is None,
        after.git_log_diff_state is None,
        r is Some <==> {
            &&& before.git_log_diff_state matches Some(state)
            &&& state.selected_commits@.len() == 2
            &&& is_hash(state.selected_commits@[0]@)
            &&& is_hash(state.selected_commits@[1]@)
            &&& before.remote_spinner is None
        },
        r matches Some(job) ==> {
            let state = before.git_log_diff_state->0;
            &&& job.hash1 == state.selected_commits@[0]
            &&& job.hash2 == state.selected_commits@[1]
            &&& job.repo_path == state.repo_path
            &&& job.project_name == state.project_name
        },
{
}

/// A commit is laid out in a directory of its own, named after the project and the commit.
pub proof fn law_commits_have_their_own_directories(
    home: Seq<char>,
    project: Seq<char>,
    hash: Seq<char>,
)
    requires
        is_plain_name(project + "_"@ + hash),
    ensures
        local_name(commit_dir(home, project, hash)) == Some(project + "_"@ + hash),
{
    law_joined_name_is_found_again(
        joined_path(joined_path(home, ".cokacdir"@), "diff"@),
        project + "_"@ + hash,
    );
}

/// The assistant takes the panel that follows, or a new one where there is only one, and
/// remembers where the focus was.
pub proof fn law_assistant_takes_the_next_panel(before: App, after: App, places: Places)
    requires
        before.wf(),
        assistant_shown(before, after, places),
    ensures
        after.ai_active,
        after.ai_panel_index == Some(after.active_panel_index),
        after.ai_previous_panel == Some(before.active_panel_index),
        after.active_panel_index != before.active_panel_index,
        before.panels@.len() > 1 ==> after.panels@.len() == before.panels@.len(),
        before.panels@.len() == 1 ==> after.panels@.len() == 2 && after.active_panel_index == 1,
        before.active_panel_index + 1 < before.panels@.len() ==> after.active_panel_index
            == before.active_panel_index + 1,
{
    assert(before.panels.len() == before.panels@.len());
    let count = if before.panels@.len() == 1 {
        2int
    } else {
        before.panels@.len() as int
    };
    let at = before.active_panel_index as int;
    if at + 1 < count {
        vstd::arithmetic::div_mod::lemma_small_mod((at + 1) as nat, count as nat);
    } else {
        vstd::arithmetic::div_mod::lemma_mod_self_0(count);
    }
}

/// An operation that begins is shown as active from the start.
pub proof fn law_operation_is_shown(before: App, after: App, operation_type: FileOperationType)
    requires
        begins_operation(before, after, operation_type),
    ensures
        after.file_operation_progress is Some,
        after.file_operation_progress->0@.operation_type == operation_type,
        after.file_operation_progress->0@.is_active,
        after.file_operation_progress->0@.result is None,
        dialog_view(after.dialog) is Some,
        dialog_view(after.dialog)->0.dialog_type == DialogType::Progress,
        after.panels == before.panels,
{
}

} // verus!
