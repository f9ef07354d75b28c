//! Looking at files and editing them, also those of remote machines.

use crate::app_state::{
    says, App, EditorLink, PendingBinaryFile, PendingRemoteOpen, RemoteEditEndpoint,
};
use crate::archive_run::{failure, failure_messages};
use crate::dialogs::{dialog_view, plain_dialog, Dialog, DialogType, DialogView, Screen};
use crate::navigation::{
    asks_about, cautious_dialog, extension_or_empty, FileFacts, LARGE_FILE_THRESHOLD,
};
use crate::paths::{extension_of, join_path, joined_path};
use crate::progress::{
    fresh_operation, message_views, FileOperationProgress, FileOperationType, MessageView,
    OperationView, ProgressMessage,
};
use crate::remote_cache::{cache_path, remote_cache_path_in};
use crate::remote_connect::{given_text, optional_text, RemoteProfile};
use crate::remote_path::{child, normalized_remote_child_path, plain_name};
use crate::text::{chars_of, concat2, concat3, same_text};
use vstd::prelude::*;

verus! {

/// `rand::random::<u64>`: a random number. Nothing is said of its value.
#[verifier::external_body]
fn random_session_id() -> (r: u64)
{
    rand::random::<u64>()
}

/// A remote file to be fetched.
#[derive(Debug)]
pub struct DownloadJob {
    pub profile: RemoteProfile,
    pub file_name: String,
    pub file_size: u64,
    pub remote_path: String,
    pub tmp_path: String,
    /// Whether the version of the file is kept for a later upload.
    pub for_editor: bool,
}

/// What a wish to edit comes to.
#[derive(Debug)]
pub enum EditStart {
    Nothing,
    Download(DownloadJob),
    /// A local file is to be loaded.
    Load { path: String },
}

/// What a wish to look at a file comes to.
#[derive(Debug)]
pub enum ViewStart {
    Nothing,
    /// The image is on the screen.
    Image { path: String },
    /// A text is to be loaded.
    Load { path: String },
}

/// A running download.
pub open spec fn downloading() -> OperationView {
    OperationView { is_active: true, ..fresh_operation(FileOperationType::Download) }
}

/// The endpoint of a profile.
pub open spec fn endpoint_of(profile: RemoteProfile) -> RemoteEditEndpoint {
    RemoteEditEndpoint { user: profile.user, host: profile.host, port: profile.port }
}

/// Whether a download was begun.
pub open spec fn begins_download(
    before: App,
    after: App,
    job: DownloadJob,
    action: PendingRemoteOpen,
) -> bool {
    &&& after == App {
        pending_remote_open: Some(action),
        file_operation_progress: after.file_operation_progress,
        dialog: after.dialog,
        ..before
    }
    &&& after.file_operation_progress matches Some(progress) && progress@ == downloading()
    &&& dialog_view(after.dialog) == Some(
        plain_dialog(DialogType::Progress, Seq::empty(), Seq::empty()),
    )
    &&& before.active().remote_ctx matches Some(ctx) && job.profile == ctx.profile
    &&& job.for_editor == (action is Editor)
}

/// What the fetching of a file is told as: it is being connected.
pub fn download_preparing(host: &str) -> (r: Vec<ProgressMessage>)
    ensures
        message_views(r@) == seq![MessageView::Preparing("Connecting to "@ + host@ + "..."@)],
{
    let mut r: Vec<ProgressMessage> = Vec::new();
    r.push(ProgressMessage::Preparing(concat3("Connecting to ", host, "...")));
    assert(message_views(r@) =~= seq![
        MessageView::Preparing("Connecting to "@ + host@ + "..."@),
    ]);
    r
}

/// What the fetching of a file is told as once it was connected.
pub fn download_connected(file_name: &str, file_size: u64, result: Result<(), String>) -> (r: Vec<
    ProgressMessage,
>)
    ensures
        message_views(r@) == match result {
            Ok(_) => seq![
                MessageView::PrepareComplete,
                MessageView::FileStarted(file_name@),
                MessageView::TotalProgress(0, 1, 0, file_size),
            ],
            Err(error) => failure(file_name@, "Connection failed: "@ + error@),
        },
{
    match result {
        Ok(_) => {
            let mut r: Vec<ProgressMessage> = Vec::new();
            r.push(ProgressMessage::PrepareComplete);
            r.push(ProgressMessage::FileStarted(file_name.to_owned()));
            r.push(ProgressMessage::TotalProgress(0, 1, 0, file_size));
            assert(message_views(r@) =~= seq![
                MessageView::PrepareComplete,
                MessageView::FileStarted(file_name@),
                MessageView::TotalProgress(0, 1, 0, file_size),
            ]);
            r
        },
        Err(error) => {
            let text = concat2("Connection failed: ", error.as_str());
            failure_messages(file_name, text.as_str())
        },
    }
}

/// What the fetching of a file is told as while bytes come in.
pub fn download_progressed(downloaded: u64, total: u64) -> (r: Vec<ProgressMessage>)
    ensures
        message_views(r@) == seq![
            MessageView::FileProgress(downloaded, total),
            MessageView::TotalProgress(0, 1, downloaded, total),
        ],
{
    let mut r: Vec<ProgressMessage> = Vec::new();
    r.push(ProgressMessage::FileProgress(downloaded, total));
    r.push(ProgressMessage::TotalProgress(0, 1, downloaded, total));
    assert(message_views(r@) =~= seq![
        MessageView::FileProgress(downloaded, total),
        MessageView::TotalProgress(0, 1, downloaded, total),
    ]);
    r
}

/// What the fetching of a file is told as at its end.
pub fn download_ended(file_name: &str, file_size: u64, result: Result<(), String>) -> (r: Vec<
    ProgressMessage,
>)
    ensures
        message_views(r@) == match result {
            Ok(_) => seq![
                MessageView::FileCompleted(file_name@),
                MessageView::TotalProgress(1, 1, file_size, file_size),
                MessageView::Completed(1, 0),
            ],
            Err(error) => failure(file_name@, error@),
        },
{
    match result {
        Ok(_) => {
            let mut r: Vec<ProgressMessage> = Vec::new();
            r.push(ProgressMessage::FileCompleted(file_name.to_owned()));
            r.push(ProgressMessage::TotalProgress(1, 1, file_size, file_size));
            r.push(ProgressMessage::Completed(1, 0));
            assert(message_views(r@) =~= seq![
                MessageView::FileCompleted(file_name@),
                MessageView::TotalProgress(1, 1, file_size, file_size),
                MessageView::Completed(1, 0),
            ]);
            r
        },
        Err(error) => failure_messages(file_name, error.as_str()),
    }
}

/// What opening a remote file for editing comes to, under a session number.
pub open spec fn edits_remote(
    before: App,
    after: App,
    cache_root: Result<String, String>,
    canonical: Option<Seq<char>>,
    id: u64,
    r: EditStart,
) -> bool {
    let panel = before.active();
    match panel.current() {
        None => after == before && r is Nothing,
        Some(file) => if file.is_directory {
            says(before, after, "Select a file to edit"@) && r is Nothing
        } else if !plain_name(file.name@) {
            says(before, after, "Remote entry has an unsafe or ambiguous name"@) && r is Nothing
        } else {
            match panel.remote_ctx {
                None => after == before && r is Nothing,
                Some(ctx) => match cache_root {
                    Err(error) => says(before, after, error@) && r is Nothing,
                    Ok(root) => {
                        let remote = child(panel.path@, file.name@);
                        &&& r matches EditStart::Download(job)
                        &&& job.file_name == file.name
                        &&& job.file_size == file.size
                        &&& job.remote_path@ == remote
                        &&& job.tmp_path@ == cache_path(root@, ctx.profile@, canonical, remote)
                        &&& after.pending_remote_open matches Some(action)
                        &&& begins_download(before, after, job, action)
                        &&& action matches PendingRemoteOpen::Editor {
                            tmp_path,
                            panel_index,
                            remote_path,
                            endpoint,
                            edit_session_id,
                        }
                        &&& tmp_path == job.tmp_path
                        &&& panel_index == before.active_panel_index
                        &&& remote_path == job.remote_path
                        &&& endpoint == endpoint_of(ctx.profile)
                        &&& edit_session_id == id
                    },
                },
            }
        },
    }
}

/// What asking to edit a file comes to.
pub open spec fn edits_file(
    before: App,
    after: App,
    cache_root: Result<String, String>,
    canonical: Option<&str>,
    r: EditStart,
) -> bool {
    let panel = before.active();
    if panel.remote() {
        exists|id: u64| #[trigger]
            edits_remote(
                before,
                after,
                cache_root,
                given_text(canonical),
                id,
                r,
            )
    } else {
        match panel.current() {
            None => after == before && r is Nothing,
            Some(file) => if file.is_directory {
                says(before, after, "Select a file to edit"@) && r is Nothing
            } else {
                &&& after == before
                &&& r matches EditStart::Load { path }
                &&& path@ == joined_path(panel.path@, file.name@)
            },
        }
    }
}

/// What asking to view a file comes to.
pub open spec fn views_file(
    before: App,
    after: App,
    facts: FileFacts,
    r: ViewStart,
) -> bool {
    let panel = before.active();
    if panel.remote() {
        says(
            before,
            after,
            "Cannot view remote files directly. Use copy to download first."@,
        ) && r is Nothing
    } else {
        match panel.current() {
            None => after == before && r is Nothing,
            Some(file) => {
                let path = joined_path(panel.path@, file.name@);
                if file.is_directory {
                    says(before, after, "Select a file to view"@)
                        && r is Nothing
                } else if !facts.is_image {
                    &&& after == before
                    &&& r matches ViewStart::Load { path: p } && p@ == path
                } else if !facts.can_show_images() || facts.size > LARGE_FILE_THRESHOLD {
                    &&& r is Nothing
                    &&& after.pending_large_image matches Some(p)
                    &&& p@ == path
                    &&& asks_about(
                        before,
                        after,
                        p,
                        if !facts.can_show_images() {
                            cautious_dialog(
                                DialogType::TrueColorWarning,
                                "Terminal doesn't support true color. Open anyway?"@,
                            )
                        } else {
                            cautious_dialog(
                                DialogType::LargeImageConfirm,
                                "This image is "@ + facts.size_text@
                                    + "MB. Open anyway?"@,
                            )
                        },
                    )
                } else {
                    &&& r matches ViewStart::Image { path: p } && p@ == path
                    &&& after == (App {
                        image_viewer_open: true,
                        current_screen: Screen::ImageViewer,
                        ..before
                    })
                }
            },
        }
    }
}

/// What asking about a file comes to.
pub open spec fn informs_of_file(
    before: App,
    after: App,
    r: Option<(String, bool)>,
) -> bool {
    let panel = before.active();
    if panel.remote() {
        says(
            before,
            after,
            "File info is not available for remote files"@,
        ) && r is None
    } else {
        match panel.current() {
            None => after == before && r is None,
            Some(file) => if file.name@ == ".."@ {
                says(before, after, "Select a file for info"@) && r is None
            } else {
                &&& after == (App {
                    current_screen: Screen::FileInfo,
                    ..before
                })
                &&& r matches Some((path, whole))
                &&& path@ == joined_path(panel.path@, file.name@)
                &&& whole == (file.is_directory && !file.is_symlink)
            },
        }
    }
}

impl App {
    /// Where a remote file of the panel with the focus is kept on this machine.
    /// `canonical` is the host of its endpoint in canonical form, where it has one.
    pub fn remote_tmp_path(
        &self,
        cache_root: Result<String, String>,
        canonical: Option<&str>,
        remote_path: &str,
    ) -> (r: Result<String, String>)
        requires
            self.wf(),
        ensures
            match self.active().remote_ctx {
                None => r matches Err(e) && e@ == "Remote connection is not available"@,
                Some(ctx) => match cache_root {
                    Err(error) => r matches Err(e) && e == error,
                    Ok(root) => r matches Ok(path) && path@ == cache_path(
                        root@,
                        ctx.profile@,
                        given_text(canonical),
                        remote_path@,
                    ),
                },
            },
    {
        match &self.active_panel().remote_ctx {
            None => Err("Remote connection is not available".to_owned()),
            Some(ctx) => match cache_root {
                Err(error) => Err(error),
                Ok(root) => Ok(
                    remote_cache_path_in(root.as_str(), &ctx.profile, canonical, remote_path),
                ),
            },
        }
    }

    /// Begins to fetch a remote file that is opened once it is here.
    pub fn download_for_remote_open(
        &mut self,
        file_name: &str,
        file_size: u64,
        remote_path: String,
        tmp_path: String,
        open_action: PendingRemoteOpen,
    ) -> (r: Option<DownloadJob>)
        requires
            old(self).wf(),
        ensures
            match old(self).active().remote_ctx {
                None => *final(self) == *old(self) && r is None,
                Some(ctx) => {
                    &&& r matches Some(job)
                    &&& begins_download(*old(self), *final(self), job, open_action)
                    &&& job.file_name@ == file_name@
                    &&& job.file_size == file_size
                    &&& job.remote_path == remote_path
                    &&& job.tmp_path == tmp_path
                },
            },
    {
        let profile = match &self.active_panel().remote_ctx {
            None => {
                return None;
            },
            Some(ctx) => ctx.profile.clone(),
        };
        let for_editor = match &open_action {
            PendingRemoteOpen::Editor { .. } => true,
            PendingRemoteOpen::ImageViewer { .. } => false,
        };
        let mut progress = FileOperationProgress::new(FileOperationType::Download);
        progress.is_active = true;
        assert(progress@ == downloading());
        self.pending_remote_open = Some(open_action);
        self.file_operation_progress = Some(progress);
        let dialog = Dialog::plain(DialogType::Progress, String::new(), String::new());
        assert(dialog@ == plain_dialog(DialogType::Progress, Seq::empty(), Seq::empty()));
        self.dialog = Some(dialog);
        Some(
            DownloadJob {
                profile,
                file_name: file_name.to_owned(),
                file_size,
                remote_path,
                tmp_path,
                for_editor,
            },
        )
    }

    /// Begins to edit the remote file under the cursor. Its copy on this machine
    /// is kept below `cache_root`, and its session is told by `edit_session_id`;
    /// `canonical` is the host of its endpoint in canonical form, where it has one.
    pub fn edit_remote_file(
        &mut self,
        cache_root: Result<String, String>,
        canonical: Option<&str>,
        edit_session_id: u64,
    ) -> (r: EditStart)
        requires
            old(self).wf(),
        ensures
            edits_remote(
                *old(self),
                *final(self),
                cache_root,
                given_text(canonical),
                edit_session_id,
                r,
            ),
    {
        let panel = self.active_panel();
        let file = match panel.current_file() {
            None => {
                return EditStart::Nothing;
            },
            Some(file) => file.clone(),
        };
        if file.is_directory {
            self.show_message("Select a file to edit");
            return EditStart::Nothing;
        }
        let remote_path = match normalized_remote_child_path(
            panel.path.as_str(),
            file.name.as_str(),
        ) {
            Err(error) => {
                self.show_message(error.as_str());
                return EditStart::Nothing;
            },
            Ok(path) => path,
        };
        let endpoint = match &panel.remote_ctx {
            None => {
                return EditStart::Nothing;
            },
            Some(ctx) => RemoteEditEndpoint {
                user: ctx.profile.user.clone(),
                host: ctx.profile.host.clone(),
                port: ctx.profile.port,
            },
        };
        let tmp_path = match self.remote_tmp_path(cache_root, canonical, remote_path.as_str()) {
            Err(error) => {
                self.show_message(error.as_str());
                return EditStart::Nothing;
            },
            Ok(path) => path,
        };
        let action = PendingRemoteOpen::Editor {
            tmp_path: tmp_path.clone(),
            panel_index: self.active_panel_index,
            remote_path: remote_path.clone(),
            endpoint,
            edit_session_id,
        };
        match self.download_for_remote_open(
            file.name.as_str(),
            file.size,
            remote_path,
            tmp_path,
            action,
        ) {
            Some(job) => {
                let mut job = job;
                job.file_name = file.name;
                EditStart::Download(job)
            },
            None => EditStart::Nothing,
        }
    }

    /// Begins to edit the file under the cursor. A remote one is fetched first,
    /// under a session number that tells it from other sessions; `canonical` is the host
    /// of its endpoint in canonical form, where it has one.
    pub fn edit_file(&mut self, cache_root: Result<String, String>, canonical: Option<&str>) -> (r:
        EditStart)
        requires
            old(self).wf(),
        ensures
            edits_file(*old(self), *final(self), cache_root, canonical, r),
    {
        if self.active_panel().is_remote() {
            let id = random_session_id();
            let r = self.edit_remote_file(cache_root, canonical, id);
            assert(edits_remote(*old(self), *self, cache_root, given_text(canonical), id, r));
            return r;
        }
        let panel = self.active_panel();
        match panel.current_file() {
            None => EditStart::Nothing,
            Some(file) => {
                if file.is_directory {
                    self.show_message("Select a file to edit");
                    return EditStart::Nothing;
                }
                let path = join_path(panel.path.as_str(), file.name.as_str());
                EditStart::Load { path }
            },
        }
    }

    /// Opens the editor on a file that was loaded.
    pub fn editor_loaded(&mut self, result: Result<EditorLink, String>)
        ensures
            match result {
                Ok(editor) => *final(self) == (App {
                    editor_state: Some(editor),
                    current_screen: Screen::FileEditor,
                    ..*old(self)
                }),
                Err(error) => says(*old(self), *final(self), "Cannot open file: "@ + error@),
            },
    {
        match result {
            Ok(editor) => {
                self.editor_state = Some(editor);
                self.current_screen = Screen::FileEditor;
            },
            Err(error) => {
                let text = concat2("Cannot open file: ", error.as_str());
                self.show_message(text.as_str());
            },
        }
    }

    /// Opens the editor on a file that was just made and then loaded.
    pub fn new_file_loaded(&mut self, result: Result<EditorLink, String>)
        ensures
            match result {
                Ok(editor) => *final(self) == (App {
                    editor_state: Some(editor),
                    current_screen: Screen::FileEditor,
                    ..*old(self)
                }),
                Err(error) => says(
                    *old(self),
                    *final(self),
                    "File created but cannot open: "@ + error@,
                ),
            },
    {
        match result {
            Ok(editor) => {
                self.editor_state = Some(editor);
                self.current_screen = Screen::FileEditor;
            },
            Err(error) => {
                let text = concat2("File created but cannot open: ", error.as_str());
                self.show_message(text.as_str());
            },
        }
    }

    /// Begins to look at the file under the cursor.
    pub fn view_file(&mut self, facts: &FileFacts) -> (r: ViewStart)
        requires
            old(self).wf(),
        ensures
            views_file(*old(self), *final(self), *facts, r),
    {
        if self.active_panel().is_remote() {
            self.show_message("Cannot view remote files directly. Use copy to download first.");
            return ViewStart::Nothing;
        }
        let panel = self.active_panel();
        let (path, directory) = match panel.current_file() {
            None => {
                return ViewStart::Nothing;
            },
            Some(file) => (
                join_path(panel.path.as_str(), file.name.as_str()),
                file.is_directory,
            ),
        };
        if directory {
            self.show_message("Select a file to view");
            return ViewStart::Nothing;
        }
        if !facts.is_image {
            return ViewStart::Load { path };
        }
        if !facts.shows_images() {
            self.pending_large_image = Some(path);
            self.ask(
                DialogType::TrueColorWarning,
                "Terminal doesn't support true color. Open anyway?".to_owned(),
            );
            return ViewStart::Nothing;
        }
        if facts.size > LARGE_FILE_THRESHOLD {
            let text = concat3("This image is ", facts.size_text.as_str(), "MB. Open anyway?");
            self.pending_large_image = Some(path);
            self.ask(DialogType::LargeImageConfirm, text);
            return ViewStart::Nothing;
        }
        self.image_viewer_open = true;
        self.current_screen = Screen::ImageViewer;
        ViewStart::Image { path }
    }

    /// Opens the viewer on a text that was loaded.
    pub fn viewer_loaded(&mut self, result: Result<(), String>)
        ensures
            match result {
                Ok(_) => *final(self) == (App {
                    current_screen: Screen::FileViewer,
                    ..*old(self)
                }),
                Err(error) => says(*old(self), *final(self), "Cannot read file: "@ + error@),
            },
    {
        match result {
            Ok(_) => {
                self.current_screen = Screen::FileViewer;
            },
            Err(error) => {
                let text = concat2("Cannot read file: ", error.as_str());
                self.show_message(text.as_str());
            },
        }
    }

    /// Shows the image that the user was asked about. Gives its path.
    pub fn execute_open_large_image(&mut self) -> (r: Option<String>)
        ensures
            r == old(self).pending_large_image,
            match r {
                Some(_) => *final(self) == (App {
                    pending_large_image: None,
                    image_viewer_open: true,
                    current_screen: Screen::ImageViewer,
                    ..*old(self)
                }),
                None => *final(self) == *old(self),
            },
    {
        match self.pending_large_image.take() {
            Some(path) => {
                self.image_viewer_open = true;
                self.current_screen = Screen::ImageViewer;
                Some(path)
            },
            None => None,
        }
    }

    /// Gives the path of the file that the user was asked about; it is to be
    /// loaded.
    pub fn execute_open_large_file(&mut self) -> (r: Option<String>)
        ensures
            r == old(self).pending_large_file,
            *final(self) == (App { pending_large_file: None, ..*old(self) }),
    {
        self.pending_large_file.take()
    }

    /// Shows the properties of the file under the cursor. Gives its path, and
    /// whether the size of all it holds is to be taken.
    pub fn show_file_info(&mut self) -> (r: Option<(String, bool)>)
        requires
            old(self).wf(),
        ensures
            informs_of_file(*old(self), *final(self), r),
    {
        if self.active_panel().is_remote() {
            self.show_message("File info is not available for remote files");
            return None;
        }
        let panel = self.active_panel();
        let file = match panel.current_file() {
            None => {
                return None;
            },
            Some(file) => file.clone(),
        };
        if same_text(file.name.as_str(), "..") {
            self.show_message("Select a file for info");
            return None;
        }
        let path = join_path(panel.path.as_str(), file.name.as_str());
        self.current_screen = Screen::FileInfo;
        Some((path, file.is_directory && !file.is_symlink))
    }

    /// Asks for the command that opens files like the one under the cursor.
    /// `existing` is the command that opens them now.
    pub fn show_handler_dialog(&mut self, existing: Option<&str>)
        requires
            old(self).wf(),
            old(self).active().files@.len() > 0 && !old(self).active().remote()
                ==> old(self).active().selected_index < old(self).active().files@.len(),
        ensures
            ({
                let panel = old(self).active();
                let command = match existing {
                    Some(text) => text@,
                    None => Seq::empty(),
                };
                if panel.remote() {
                    says(
                        *old(self),
                        *final(self),
                        "Extension handlers are not available for remote files"@,
                    )
                } else {
                    match panel.current() {
                        None => *final(self) == *old(self),
                        Some(file) => {
                            let extension = extension_or_empty(file.name@);
                            if file.is_directory {
                                *final(self) == *old(self)
                            } else if extension.len() == 0 {
                                &&& *final(self) == (App {
                                    message: final(self).message,
                                    message_timer: 30,
                                    ..*old(self)
                                })
                                &&& optional_text(final(self).message) == Some(
                                    "No extension - cannot set handler"@,
                                )
                            } else {
                                &&& *final(self) == (App {
                                    pending_binary_file: final(self).pending_binary_file,
                                    dialog: final(self).dialog,
                                    ..*old(self)
                                })
                                &&& final(self).pending_binary_file matches Some(pending)
                                &&& pending.path@ == joined_path(panel.path@, file.name@)
                                &&& pending.extension@ == extension
                                &&& dialog_view(final(self).dialog) == Some(
                                    handler_dialog(command, extension),
                                )
                            }
                        },
                    }
                }
            }),
    {
        if self.active_panel().is_remote() {
            self.show_message("Extension handlers are not available for remote files");
            return;
        }
        let panel = self.active_panel();
        let file = match panel.current_file() {
            None => {
                return;
            },
            Some(file) => file.clone(),
        };
        if file.is_directory {
            return;
        }
        let path = join_path(panel.path.as_str(), file.name.as_str());
        let extension = match extension_of(file.name.as_str()) {
            Some(extension) => extension,
            None => String::new(),
        };
        assert(extension@ =~= extension_or_empty(file.name@));
        if extension.as_str().is_empty() {
            self.message = Some("No extension - cannot set handler".to_owned());
            self.message_timer = 30;
            return;
        }
        let command = match existing {
            Some(text) => text.to_owned(),
            None => String::new(),
        };
        let length: usize = chars_of(command.as_str()).len();
        let edits = length > 0;
        let mut dialog = Dialog::plain(DialogType::BinaryFileHandler, command, extension.clone());
        dialog.cursor_pos = length;
        dialog.selected_button = if edits { 1 } else { 0 };
        dialog.selection = if edits { Some((0, length)) } else { None };
        assert(dialog@ == handler_dialog(command@, extension@));
        self.pending_binary_file = Some(PendingBinaryFile { path, extension });
        self.dialog = Some(dialog);
    }
}

/// The dialog that asks for the command that opens files of an extension.
pub open spec fn handler_dialog(command: Seq<char>, extension: Seq<char>) -> DialogView {
    DialogView {
        dialog_type: DialogType::BinaryFileHandler,
        input: command,
        cursor_pos: command.len(),
        message: extension,
        completion: None,
        selected_button: if command.len() > 0 { 1 } else { 0 },
        selection: if command.len() > 0 { Some((0usize, command.len() as usize)) } else { None },
        use_md5: false,
    }
}

/// A file of this machine is edited under its own path; a remote one is brought here first,
/// from its own path to a place that belongs to it, and its origin is noted.
pub proof fn law_file_is_edited_under_its_path(
    before: App,
    after: App,
    cache_root: Result<String, String>,
    canonical: Option<&str>,
    r: EditStart,
)
    requires
        before.wf(),
        before.active().current() is Some,
        edits_file(before, after, cache_root, canonical, r),
    ensures
        ({
            let panel = before.active();
            let file = panel.current()->0;
            &&& file.is_directory ==> r is Nothing
            &&& !panel.remote() && !file.is_directory ==> {
                &&& r matches EditStart::Load { path }
                &&& path@ == joined_path(panel.path@, file.name@)
            }
            &&& r matches EditStart::Download(job) ==> {
                &&& panel.remote_ctx matches Some(ctx)
                &&& job.profile == ctx.profile
                &&& job.remote_path@ == child(panel.path@, file.name@)
                &&& job.file_name == file.name
                &&& job.file_size == file.size
                &&& job.for_editor
                &&& after.pending_remote_open is Some
                &&& after.pending_remote_open->0 is Editor
            }
            &&& panel.remote_ctx is Some && !file.is_directory && plain_name(file.name@)
                && cache_root is Ok ==> r is Download
            &&& panel.remote() && !plain_name(file.name@) ==> r is Nothing
        }),
{
}

/// A file is viewed under its own path, an image as an image; what is large or cannot be
/// shown is asked about first, with the safe answer chosen.
pub proof fn law_file_is_viewed_under_its_path(
    before: App,
    after: App,
    facts: FileFacts,
    r: ViewStart,
)
    requires
        before.wf(),
        before.active().current() is Some,
        views_file(before, after, facts, r),
    ensures
        ({
            let panel = before.active();
            let file = panel.current()->0;
            let path = joined_path(panel.path@, file.name@);
            let here = !panel.remote() && !file.is_directory;
            let shows = facts.inline_images || facts.true_color;
            &&& !here ==> r is Nothing
            &&& r is Load <==> here && !facts.is_image
            &&& r is Image <==> here && facts.is_image && shows && facts.size
                <= LARGE_FILE_THRESHOLD
            &&& r matches ViewStart::Load { path: p } ==> p@ == path
            &&& r matches ViewStart::Image { path: p } ==> p@ == path && after.current_screen
                == Screen::ImageViewer
            &&& here && facts.is_image && !(r is Image) ==> {
                &&& after.pending_large_image matches Some(p)
                &&& p@ == path
                &&& dialog_view(after.dialog) is Some
                &&& dialog_view(after.dialog)->0.selected_button == 1
                &&& dialog_view(after.dialog)->0.dialog_type == if shows {
                    DialogType::LargeImageConfirm
                } else {
                    DialogType::TrueColorWarning
                }
            }
        }),
{
}

/// A file is told about under its own path; of a directory that is no link all that it holds
/// is counted.
pub proof fn law_file_is_told_about(before: App, after: App, r: Option<(String, bool)>)
    requires
        before.wf(),
        before.active().current() is Some,
        informs_of_file(before, after, r),
    ensures
        ({
            let file = before.active().current()->0;
            &&& r is Some <==> !before.active().remote() && file.name@ != ".."@
            &&& r matches Some((path, whole)) ==> {
                &&& path@ == joined_path(before.active().path@, file.name@)
                &&& whole <==> file.is_directory && !file.is_symlink
                &&& after.current_screen == Screen::FileInfo
            }
        }),
{
}

/// A download is noted with what follows it, and shown while it goes on.
pub proof fn law_download_is_shown(
    before: App,
    after: App,
    job: DownloadJob,
    action: PendingRemoteOpen,
)
    requires
        begins_download(before, after, job, action),
    ensures
        after.pending_remote_open == Some(action),
        after.file_operation_progress is Some,
        after.file_operation_progress->0@.operation_type == FileOperationType::Download,
        after.file_operation_progress->0@.is_active,
        dialog_view(after.dialog) is Some,
        dialog_view(after.dialog)->0.dialog_type == DialogType::Progress,
        job.for_editor <==> action is Editor,
{
}

/// A dialog that asks for a handler begins with the command that there is, selected.
pub proof fn law_handler_dialog_holds_the_command(command: Seq<char>, extension: Seq<char>)
    requires
        command.len() <= usize::MAX,
    ensures
        handler_dialog(command, extension).dialog_type == DialogType::BinaryFileHandler,
        handler_dialog(command, extension).input == command,
        handler_dialog(command, extension).message == extension,
        handler_dialog(command, extension).cursor_pos == command.len(),
        command.len() > 0 ==> handler_dialog(command, extension).selection == Some(
            (0usize, command.len() as usize),
        ) && handler_dialog(command, extension).selected_button == 1,
        command.len() == 0 ==> handler_dialog(command, extension).selection is None,
{
}

} // verus!
