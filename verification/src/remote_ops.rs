//! Remote work that a panel starts: connecting, listing, leaving, and uploading
//! what the editor saved.

use crate::app_state::{says, App, EditorLink, RemoteFileVersion, RemoteSpinner};
use crate::dialogs::{dialog_view, plain_dialog, Dialog, DialogType};
use crate::names::NameSet;
use crate::panel::{ConnectionStatus, PanelState, RemoteContext, SftpFileEntry};
use crate::remote_connect::{
    given_text, host_in_use, FormView, RemoteAuthType, RemoteConnectState, RemoteField,
    RemoteProfile,
};
use crate::remote_path::{normalized, normalized_remote_path, resolve_remote_path, resolved};
use crate::text::{concat2, concat3, concat5, decimal, number_text, same_text};
use vstd::prelude::*;

verus! {

/// What an upload came to.
#[derive(Debug)]
pub enum UploadFileOutcome {
    Complete { bytes: u64, version: RemoteFileVersion },
    CommittedWithWarning { bytes: u64, version: RemoteFileVersion, warning: String },
}

/// What a save of a remote file came to. A save whose upload is in place is not
/// one that failed, though it may need attention.
#[derive(Debug, PartialEq, Eq)]
pub enum RemoteSaveStatus {
    Complete(RemoteFileVersion),
    CommittedWithWarning { version: RemoteFileVersion, warning: String },
    Failed(String),
}

/// What a save of a remote file came to.
pub fn remote_upload_save_status(result: Result<UploadFileOutcome, String>) -> (r: RemoteSaveStatus)
    ensures
        r == save_status_of(result),
{
    match result {
        Ok(UploadFileOutcome::Complete { version, .. }) => RemoteSaveStatus::Complete(version),
        Ok(
            UploadFileOutcome::CommittedWithWarning { version, warning, .. },
        ) => RemoteSaveStatus::CommittedWithWarning { version, warning },
        Err(error) => RemoteSaveStatus::Failed(error),
    }
}

/// A connection to be made.
#[derive(Debug)]
pub struct ConnectJob {
    /// The profile, with its host in canonical form.
    pub profile: RemoteProfile,
    pub path: String,
    pub panel_idx: usize,
}

/// A connection that was made.
#[derive(Debug)]
pub struct ConnectSuccess {
    pub ctx: RemoteContext,
    pub entries: Vec<SftpFileEntry>,
    pub path: String,
    /// What the user is told where another directory was taken.
    pub fallback_msg: Option<String>,
    pub profile: RemoteProfile,
}

/// A remote directory to be listed. The session of the panel is lent to the job.
#[derive(Debug)]
pub struct ListJob {
    pub ctx: RemoteContext,
    pub panel_idx: usize,
    /// The directory to list.
    pub list_path: String,
    /// The directory that the panel then shows.
    pub path: String,
    /// Where the panel goes back to where the listing fails.
    pub old_path: Option<String>,
}

/// A save that waits to be uploaded.
#[derive(Debug)]
pub struct UploadRequest {
    pub panel_idx: usize,
    pub remote_path: String,
    pub local_path: String,
    pub edit_session_id: u64,
    pub generation: u64,
    pub expected_version: RemoteFileVersion,
}

/// An upload. The session of the panel is lent to the job.
#[derive(Debug)]
pub struct UploadJob {
    pub ctx: RemoteContext,
    pub request: UploadRequest,
}

/// Where a typed remote path leads to.
#[derive(Debug)]
pub enum RemoteGoto {
    /// To a saved profile: this directory of it.
    Profile { profile: RemoteProfile, path: String },
    /// The user is asked for credentials.
    Asked,
}

/// What going to a typed path of a remote machine comes to: the user, the host, the
/// port and the path that were typed, and the saved profile of the machine.
pub open spec fn goes_to_machine(
    before: App,
    after: App,
    machine: (Seq<char>, Seq<char>, u16, Seq<char>),
    canonical: Option<Seq<char>>,
    profile: Option<RemoteProfile>,
    r: RemoteGoto,
) -> bool {
    match profile {
        Some(known) => {
            &&& after == before
            &&& r matches RemoteGoto::Profile { profile: found, path }
            &&& found == known
            &&& path@ == if machine.3 == "/"@ && known.default_path@.len() > 0 {
                known.default_path@
            } else {
                machine.3
            }
        },
        None => {
            &&& r is Asked
            &&& after == App {
                remote_connect_state: after.remote_connect_state,
                dialog: after.dialog,
                ..before
            }
            &&& after.remote_connect_state matches Some(form)
            &&& form@ == parsed_form(
                machine.0,
                host_in_use(machine.1, canonical),
                machine.2,
                machine.3,
            )
            &&& dialog_view(after.dialog) == Some(
                plain_dialog(
                    DialogType::RemoteConnect,
                    Seq::empty(),
                    "Connect to "@ + machine.0 + "@"@ + machine.1 + (":"@ + decimal(machine.2 as nat)),
                ),
            )
        },
    }
}

/// Whether the program is busy with `text`, and nothing else changed.
pub open spec fn busy(before: App, after: App, text: Seq<char>) -> bool {
    &&& after == App { remote_spinner: after.remote_spinner, ..before }
    &&& after.remote_spinner matches Some(spinner) && spinner.message@ == text
}

/// What the editor is told.
pub open spec fn editor_told(editor: EditorLink, after: EditorLink, text: Seq<char>, timer: u8) -> bool {
    &&& after == EditorLink { message: after.message, message_timer: timer, ..editor }
    &&& after.message@ == text
}

/// Whether only the editor was told something.
pub open spec fn tells_editor(before: App, after: App, text: Seq<char>, timer: u8) -> bool {
    match before.editor_state {
        Some(editor) => {
            &&& after == App { editor_state: after.editor_state, ..before }
            &&& after.editor_state matches Some(told)
            &&& editor_told(editor, told, text, timer)
        },
        None => after == before,
    }
}

impl EditorLink {
    /// Shows a message in the editor.
    pub fn set_message(&mut self, text: &str, timer: u8)
        ensures
            editor_told(*old(self), *final(self), text@, timer),
    {
        self.message = text.to_owned();
        self.message_timer = timer;
    }
}

/// What came of a new session: `listing` of the directory that was asked for, or
/// `root` of the root where that one failed.
pub fn connection_result(
    profile: RemoteProfile,
    path: String,
    listing: Result<Vec<SftpFileEntry>, String>,
    root: Result<Vec<SftpFileEntry>, String>,
) -> (r: Result<ConnectSuccess, String>)
    ensures
        connects(profile, path, listing, root, r),
{
    let ctx = RemoteContext { profile: profile.clone(), status: ConnectionStatus::Connected };
    match listing {
        Ok(entries) => Ok(ConnectSuccess { ctx, entries, path, fallback_msg: None, profile }),
        Err(_) => match root {
            Ok(entries) => {
                let text = concat3("Path not found: ", path.as_str(), " — moved to /");
                Ok(
                    ConnectSuccess {
                        ctx,
                        entries,
                        path: "/".to_owned(),
                        fallback_msg: Some(text),
                        profile,
                    },
                )
            },
            Err(error) => Err(concat2("Connection failed: ", error.as_str())),
        },
    }
}

/// What a connection comes to.
pub open spec fn connects(
    profile: RemoteProfile,
    path: String,
    listing: Result<Vec<SftpFileEntry>, String>,
    root: Result<Vec<SftpFileEntry>, String>,
    r: Result<ConnectSuccess, String>,
) -> bool {
    match (listing, root) {
        (Ok(entries), _) => r == Ok::<ConnectSuccess, String>(
            ConnectSuccess {
                ctx: RemoteContext { profile, status: ConnectionStatus::Connected },
                entries,
                path,
                fallback_msg: None,
                profile,
            },
        ),
        (Err(_), Ok(entries)) => {
            &&& r matches Ok(success)
            &&& success.ctx == (RemoteContext { profile, status: ConnectionStatus::Connected })
            &&& success.entries == entries
            &&& success.path@ == "/"@
            &&& success.profile == profile
            &&& success.fallback_msg matches Some(text) && text@ == "Path not found: "@ + path@
                + " — moved to /"@
        },
        (Err(_), Err(error)) => r matches Err(e) && e@ == "Connection failed: "@ + error@,
    }
}

/// What asking for a connection comes to.
pub open spec fn begins_connection(
    before: App,
    after: App,
    profile: RemoteProfile,
    host: Result<String, String>,
    path: Seq<char>,
    r: Option<ConnectJob>,
) -> bool {
    if before.remote_spinner is Some {
        after == before && r is None
    } else {
        match host {
            Err(error) => says(before, after, error@) && r is None,
            Ok(name) => if path.contains('\0') {
                says(before, after, "Remote path contains a NUL byte"@)
                    && r is None
            } else {
                &&& busy(
                    before,
                    after,
                    "Connecting to "@ + profile.user@ + "@"@ + profile.host@ + "..."@,
                )
                &&& r matches Some(job)
                &&& job.profile == (RemoteProfile { host: name, ..profile })
                &&& job.path@ == resolved("/"@, path)
                &&& job.panel_idx == before.active_panel_index
            },
        }
    }
}

/// What beginning an upload comes to.
pub open spec fn begins_upload(
    before: App,
    after: App,
    request: UploadRequest,
    snapshot: Result<(), String>,
    r: Option<UploadJob>,
) -> bool {
    let at = request.panel_idx as int;
    match snapshot {
        Err(error) => tells_editor(
            before,
            after,
            "Saved locally, upload snapshot failed: "@ + error@,
            50,
        ) && r is None,
        Ok(_) => match before.panels@[at].remote_ctx {
            None => tells_editor(
                before,
                after,
                "Saved locally, remote connection was disconnected"@,
                50,
            ) && r is None,
            Some(ctx) => {
                &&& r == Some(UploadJob { ctx, request })
                &&& after.remote_spinner matches Some(spinner) && spinner.message@
                    == "Uploading..."@
                &&& after.panels@ == before.panels@.update(
                    at,
                    (PanelState { remote_ctx: None, ..before.panels@[at] }),
                )
                &&& tells_editor(
                    (App {
                        panels: after.panels,
                        remote_spinner: after.remote_spinner,
                        ..before
                    }),
                    after,
                    "Uploading latest local save..."@,
                    30,
                )
            },
        },
    }
}

impl App {
    /// Begins to connect the panel with the focus. `host` is the profile's host in
    /// canonical form, or why it has none.
    pub fn connect_remote_panel(
        &mut self,
        profile: &RemoteProfile,
        host: Result<String, String>,
        path: &str,
    ) -> (r: Option<ConnectJob>)
        ensures
            begins_connection(*old(self), *final(self), *profile, host, path@, r),
    {
        if self.remote_spinner.is_some() {
            return None;
        }
        let name = match host {
            Err(error) => {
                self.show_message(error.as_str());
                return None;
            },
            Ok(name) => name,
        };
        let full = match resolve_remote_path("/", path) {
            Err(error) => {
                self.show_message(error.as_str());
                return None;
            },
            Ok(full) => full,
        };
        let mut used = profile.clone();
        used.host = name;
        let message = concat5(
            "Connecting to ",
            profile.user.as_str(),
            "@",
            profile.host.as_str(),
            "...",
        );
        self.remote_spinner = Some(RemoteSpinner { message });
        Some(ConnectJob { profile: used, path: full, panel_idx: self.active_panel_index })
    }

    /// Leaves the remote machine of the panel with the focus for the directory
    /// `home` of this one, which is to be read.
    pub fn disconnect_remote_panel(&mut self, home: String)
        requires
            old(self).wf(),
        ensures
            final(self).wf(),
            *final(self) == (App {
                panels: final(self).panels,
                message: final(self).message,
                message_timer: 10,
                ..*old(self)
            }),
            final(self).message matches Some(text) && text@ == "Disconnected from remote server"@,
            final(self).panels@ == old(self).panels@.update(
                old(self).active_panel_index as int,
                (PanelState {
                    remote_ctx: None,
                    remote_display: None,
                    path: home,
                    selected_index: 0,
                    selected_files: final(self).active().selected_files,
                    ..old(self).active()
                }),
            ),
            final(self).active().selected_files@ == Set::<Seq<char>>::empty(),
    {
        let at: usize = self.active_panel_index;
        self.panels[at].remote_ctx = None;
        self.panels[at].remote_display = None;
        self.panels[at].path = home;
        self.panels[at].selected_index = 0;
        self.panels[at].selected_files = NameSet::new();
        self.show_message("Disconnected from remote server");
    }

    /// Begins to list another directory in the remote panel with the focus. The
    /// panel shows its path at once.
    pub fn spawn_remote_list_dir(&mut self, new_path: &str) -> (r: Option<ListJob>)
        requires
            old(self).wf(),
        ensures
            begins_listing(*old(self), *final(self), old(self).active(), new_path@, r),
    {
        assert(self.panels@ =~= self.panels@.update(
            self.active_panel_index as int,
            self.active(),
        ));
        if self.remote_spinner.is_some() {
            return None;
        }
        let at: usize = self.active_panel_index;
        if self.panels[at].remote_ctx.is_none() {
            return None;
        }
        match self.panels[at].remote_ctx.take() {
            None => None,
            Some(ctx) => {
                let old_path = self.panels[at].path.clone();
                self.panels[at].path = new_path.to_owned();
                self.remote_spinner = Some(RemoteSpinner { message: "Loading...".to_owned() });
                assert(self.panels@ =~= old(self).panels@.update(
                    at as int,
                    (PanelState {
                        remote_ctx: None,
                        path: self.panels@[at as int].path,
                        ..old(self).panels@[at as int]
                    }),
                ));
                Some(
                    ListJob {
                        ctx,
                        panel_idx: at,
                        list_path: new_path.to_owned(),
                        path: new_path.to_owned(),
                        old_path: Some(old_path),
                    },
                )
            },
        }
    }

    /// Begins to list the directory of a remote panel again.
    pub fn spawn_remote_refresh(&mut self, panel_idx: usize) -> (r: Option<ListJob>)
        requires
            panel_idx < old(self).panels@.len(),
        ensures
            refreshed(*old(self), *final(self), panel_idx as int, r),
    {
        if self.remote_spinner.is_some() {
            return None;
        }
        if self.panels[panel_idx].remote_ctx.is_none() {
            return None;
        }
        match self.panels[panel_idx].remote_ctx.take() {
            None => None,
            Some(ctx) => {
                let list_path = normalized_remote_path(self.panels[panel_idx].path.as_str());
                let path = self.panels[panel_idx].path.clone();
                self.remote_spinner = Some(RemoteSpinner { message: "Loading...".to_owned() });
                assert(self.panels@ =~= old(self).panels@.update(
                    panel_idx as int,
                    (PanelState { remote_ctx: None, ..old(self).panels@[panel_idx as int] }),
                ));
                Some(ListJob { ctx, panel_idx, list_path, path, old_path: None })
            },
        }
    }

    /// Goes to a typed path of a remote machine. `profile` is the saved profile of
    /// that machine, where there is one; else the user is asked to connect.
    /// `canonical` is the host in canonical form, where it has one.
    pub fn execute_goto_remote(
        &mut self,
        user: &str,
        host: &str,
        canonical: Option<&str>,
        port: u16,
        remote_path: &str,
        profile: Option<&RemoteProfile>,
    ) -> (r: RemoteGoto)
        ensures
            goes_to_machine(
                *old(self),
                *final(self),
                (user@, host@, port, remote_path@),
                given_text(canonical),
                match profile {
                    Some(known) => Some(*known),
                    None => None,
                },
                r,
            ),
    {
        match profile {
            Some(known) => {
                let path = if same_text(remote_path, "/") && !known.default_path.as_str().is_empty() {
                    known.default_path.clone()
                } else {
                    remote_path.to_owned()
                };
                RemoteGoto::Profile { profile: known.clone(), path }
            },
            None => {
                let form = RemoteConnectState::from_parsed(
                    user,
                    host,
                    canonical,
                    port,
                    remote_path,
                );
                assert(form@ == parsed_form(
                    user@,
                    host_in_use(host@, given_text(canonical)),
                    port,
                    remote_path@,
                ));
                self.remote_connect_state = Some(form);
                let number = number_text(port as u64);
                let tail = concat2(":", number.as_str());
                let message = concat5("Connect to ", user, "@", host, tail.as_str());
                let dialog = Dialog::plain(DialogType::RemoteConnect, String::new(), message);
                assert(dialog@ == plain_dialog(
                    DialogType::RemoteConnect,
                    Seq::empty(),
                    message@,
                ));
                self.dialog = Some(dialog);
                RemoteGoto::Asked
            },
        }
    }

    /// Goes to a typed path of the remote machine of the panel with the focus.
    pub fn execute_goto_remote_relative(&mut self, path_str: &str) -> (r: Option<ListJob>)
        requires
            old(self).wf(),
        ensures
            if old(self).remote_spinner is Some {
                *final(self) == *old(self) && r is None
            } else if path_str@.contains('\0') {
                says(*old(self), *final(self), "Remote path contains a NUL byte"@) && r is None
            } else {
                begins_listing(
                    *old(self),
                    *final(self),
                    old(self).active(),
                    resolved(old(self).active().path@, path_str@),
                    r,
                )
            },
    {
        if self.remote_spinner.is_some() {
            return None;
        }
        match resolve_remote_path(self.active_panel().path.as_str(), path_str) {
            Err(error) => {
                self.show_message(error.as_str());
                None
            },
            Ok(path) => self.spawn_remote_list_dir(path.as_str()),
        }
    }

    /// The save that is to be uploaded now, if there is one. `same_endpoint` is
    /// whether the panel that the file came from is still connected to the
    /// endpoint that it came from.
    pub fn pending_remote_editor_upload(&mut self, same_endpoint: bool) -> (r: Option<UploadRequest>)
        ensures
            match upload_of(*old(self), same_endpoint) {
                UploadState::Nothing => *final(self) == *old(self) && r is None,
                UploadState::Told(text) => tells_editor(*old(self), *final(self), text, 50)
                    && r is None,
                UploadState::Ready => {
                    let editor = old(self).editor_state->0;
                    let origin = editor.remote_origin->0;
                    &&& *final(self) == *old(self)
                    &&& r == Some(
                        UploadRequest {
                            panel_idx: origin.panel_index,
                            remote_path: origin.remote_path,
                            local_path: editor.file_path,
                            edit_session_id: origin.edit_session_id,
                            generation: editor.remote_save_generation,
                            expected_version: origin.expected_version,
                        },
                    )
                },
            },
    {
        if self.remote_spinner.is_some() {
            return None;
        }
        let mut editor = match self.editor_state.take() {
            None => {
                return None;
            },
            Some(editor) => editor,
        };
        let mut request: Option<UploadRequest> = None;
        let mut text: Option<&str> = None;
        if editor.remote_dirty {
            if let Some(origin) = &editor.remote_origin {
                if origin.panel_index >= self.panels.len() {
                    text = Some("Saved locally, remote panel is no longer available");
                } else {
                    let connected = match &self.panels[origin.panel_index].remote_ctx {
                        Some(ctx) => match &ctx.status {
                            ConnectionStatus::Connected => true,
                            ConnectionStatus::Disconnected(_) => false,
                        },
                        None => false,
                    };
                    if !connected {
                        text = Some("Saved locally, remote connection is not available");
                    } else if !same_endpoint {
                        text =
                        Some(
                            "Saved locally, but the panel is connected to a different remote endpoint",
                        );
                    } else {
                        request =
                        Some(
                            UploadRequest {
                                panel_idx: origin.panel_index,
                                remote_path: origin.remote_path.clone(),
                                local_path: editor.file_path.clone(),
                                edit_session_id: origin.edit_session_id,
                                generation: editor.remote_save_generation,
                                expected_version: origin.expected_version,
                            },
                        );
                    }
                }
            }
        }
        if let Some(text) = text {
            editor.set_message(text, 50);
        }
        self.editor_state = Some(editor);
        request
    }

    /// Begins an upload once the saved file was opened for it.
    pub fn start_pending_remote_editor_upload(
        &mut self,
        request: UploadRequest,
        snapshot: Result<(), String>,
    ) -> (r: Option<UploadJob>)
        requires
            request.panel_idx < old(self).panels@.len(),
        ensures
            begins_upload(*old(self), *final(self), request, snapshot, r),
    {
        let at: usize = request.panel_idx;
        match snapshot {
            Err(error) => {
                let text = concat2("Saved locally, upload snapshot failed: ", error.as_str());
                self.tell_editor(text.as_str(), 50);
                None
            },
            Ok(_) => {
                if self.panels[at].remote_ctx.is_none() {
                    self.tell_editor("Saved locally, remote connection was disconnected", 50);
                    return None;
                }
                if let Some(ctx) = self.panels[at].remote_ctx.take() {
                    assert(self.panels@ =~= old(self).panels@.update(
                        at as int,
                        (PanelState { remote_ctx: None, ..old(self).panels@[at as int] }),
                    ));
                    self.remote_spinner =
                    Some(RemoteSpinner { message: "Uploading...".to_owned() });
                    self.tell_editor("Uploading latest local save...", 30);
                    return Some(UploadJob { ctx, request });
                }
                None
            },
        }
    }

    /// Shows a message in the editor, where one is open.
    pub(crate) fn tell_editor(&mut self, text: &str, timer: u8)
        ensures
            tells_editor(*old(self), *final(self), text@, timer),
    {
        if let Some(editor) = self.editor_state.take() {
            let mut editor = editor;
            editor.set_message(text, timer);
            self.editor_state = Some(editor);
        }
    }
}

/// Whether a listing of a panel's directory was begun again.
pub open spec fn refreshed(before: App, after: App, at: int, r: Option<ListJob>) -> bool {
    let panel = before.panels@[at];
    if before.remote_spinner is Some || panel.remote_ctx is None {
        after == before && r is None
    } else {
        &&& r matches Some(job)
        &&& after == App {
            panels: after.panels,
            remote_spinner: after.remote_spinner,
            ..before
        }
        &&& after.remote_spinner matches Some(spinner) && spinner.message@ == "Loading..."@
        &&& after.panels@ == before.panels@.update(at, PanelState { remote_ctx: None, ..panel })
        &&& Some(job.ctx) == panel.remote_ctx
        &&& job.panel_idx == at
        &&& job.list_path@ == normalized(panel.path@)
        &&& job.path == panel.path
        &&& job.old_path is None
    }
}

/// The connection form for an endpoint that was typed.
pub open spec fn parsed_form(user: Seq<char>, host: Seq<char>, port: u16, path: Seq<char>) -> FormView {
    FormView {
        selected_field: if user.len() == 0 { RemoteField::User } else { RemoteField::AuthType },
        host,
        port: decimal(port as nat),
        user,
        auth_type: RemoteAuthType::Password,
        password: Seq::empty(),
        key_path: "~/.ssh/id_rsa"@,
        passphrase: Seq::empty(),
        remote_path: path,
        profile_name: Seq::empty(),
        error: None,
        cursor_pos: 0,
        editing_profile_index: None,
    }
}

/// Whether a save waits to be uploaded.
pub enum UploadState {
    Nothing,
    /// It cannot be uploaded now, and the editor says why.
    Told(Seq<char>),
    Ready,
}

/// Whether a save of the editor waits to be uploaded.
pub open spec fn upload_of(app: App, same_endpoint: bool) -> UploadState {
    if app.remote_spinner is Some {
        UploadState::Nothing
    } else {
        match app.editor_state {
            None => UploadState::Nothing,
            Some(editor) => if !editor.remote_dirty {
                UploadState::Nothing
            } else {
                match editor.remote_origin {
                    None => UploadState::Nothing,
                    Some(origin) => if origin.panel_index >= app.panels@.len() {
                        UploadState::Told("Saved locally, remote panel is no longer available"@)
                    } else if !(app.panels@[origin.panel_index as int].remote_ctx matches Some(ctx)
                        && ctx.status is Connected) {
                        UploadState::Told("Saved locally, remote connection is not available"@)
                    } else if !same_endpoint {
                        UploadState::Told(
                            "Saved locally, but the panel is connected to a different remote endpoint"@,
                        )
                    } else {
                        UploadState::Ready
                    },
                }
            },
        }
    }
}

/// Whether a listing of `new_path` was begun in the panel with the focus, which is
/// `panel` by now; without a session, or while other work is under way, none is.
pub open spec fn begins_listing(
    before: App,
    after: App,
    panel: PanelState,
    new_path: Seq<char>,
    r: Option<ListJob>,
) -> bool {
    let at = before.active_panel_index as int;
    if before.remote_spinner is Some || panel.remote_ctx is None {
        &&& after == App { panels: after.panels, ..before }
        &&& after.panels@ == before.panels@.update(at, panel)
        &&& r is None
    } else {
        &&& r matches Some(job)
        &&& after == App {
            panels: after.panels,
            remote_spinner: after.remote_spinner,
            ..before
        }
        &&& after.remote_spinner matches Some(spinner) && spinner.message@ == "Loading..."@
        &&& after.panels@ == before.panels@.update(
            at,
            PanelState { remote_ctx: None, path: after.panels@[at].path, ..panel },
        )
        &&& after.panels@[at].path@ == new_path
        &&& Some(job.ctx) == panel.remote_ctx
        &&& job.panel_idx == at
        &&& job.list_path@ == new_path
        &&& job.path@ == new_path
        &&& job.old_path == Some(panel.path)
    }
}

/// What an upload means for a save.
pub open spec fn save_status_of(result: Result<UploadFileOutcome, String>) -> RemoteSaveStatus {
    match result {
        Ok(UploadFileOutcome::Complete { version, .. }) => RemoteSaveStatus::Complete(version),
        Ok(
            UploadFileOutcome::CommittedWithWarning { version, warning, .. },
        ) => RemoteSaveStatus::CommittedWithWarning { version, warning },
        Err(error) => RemoteSaveStatus::Failed(error),
    }
}

/// A save failed exactly where its upload did; one with a warning went through.
pub proof fn law_save_fails_with_its_upload(result: Result<UploadFileOutcome, String>)
    ensures
        save_status_of(result) is Failed <==> result is Err,
        save_status_of(result) is Complete <==> result matches Ok(UploadFileOutcome::Complete { .. }),
        result matches Err(error) ==> save_status_of(result) == RemoteSaveStatus::Failed(error),
{
}

/// A connection shows the directory asked for, or the root where that cannot be read, which
/// is then told; without either there is none.
pub proof fn law_connection_shows_a_directory(
    profile: RemoteProfile,
    path: String,
    listing: Result<Vec<SftpFileEntry>, String>,
    root: Result<Vec<SftpFileEntry>, String>,
    r: Result<ConnectSuccess, String>,
)
    requires
        connects(profile, path, listing, root, r),
    ensures
        r is Ok <==> listing is Ok || root is Ok,
        r matches Ok(success) ==> success.profile == profile && success.ctx.profile == profile
            && success.ctx.status is Connected,
        listing is Ok ==> r->Ok_0.path == path && r->Ok_0.entries == listing->Ok_0
            && r->Ok_0.fallback_msg is None,
        listing is Err && root is Ok ==> r->Ok_0.path@ == "/"@ && r->Ok_0.entries == root->Ok_0
            && r->Ok_0.fallback_msg is Some,
{
}

/// One connection is made at a time, to the host in its usual form, for the panel with the
/// focus.
pub proof fn law_connection_is_made_for_the_panel(
    before: App,
    after: App,
    profile: RemoteProfile,
    host: Result<String, String>,
    path: Seq<char>,
    r: Option<ConnectJob>,
)
    requires
        begins_connection(before, after, profile, host, path, r),
    ensures
        r is Some <==> before.remote_spinner is None && host is Ok && !path.contains('\0'),
        r matches Some(job) ==> {
            &&& job.profile.host == host->Ok_0
            &&& job.profile.user == profile.user
            &&& job.profile.port == profile.port
            &&& job.profile.auth == profile.auth
            &&& job.path@ == resolved("/"@, path)
            &&& job.panel_idx == before.active_panel_index
            &&& after.remote_spinner is Some
        },
        after.panels == before.panels,
{
}

/// A known machine is gone to with its profile, at the path asked for or its usual one for
/// the root; an unknown one is asked about with what was typed filled in.
pub proof fn law_machine_is_known_by_its_profile(
    before: App,
    after: App,
    machine: (Seq<char>, Seq<char>, u16, Seq<char>),
    canonical: Option<Seq<char>>,
    profile: Option<RemoteProfile>,
    r: RemoteGoto,
)
    requires
        goes_to_machine(before, after, machine, canonical, profile, r),
    ensures
        r is Profile <==> profile is Some,
        r matches RemoteGoto::Profile { profile: found, path } ==> {
            &&& Some(found) == profile
            &&& machine.3 != "/"@ ==> path@ == machine.3
            &&& machine.3 == "/"@ && found.default_path@.len() > 0 ==> path@ == found.default_path@
            &&& found.default_path@.len() == 0 ==> path@ == machine.3
            &&& after == before
        },
        profile is None ==> {
            &&& after.remote_connect_state matches Some(form)
            &&& form@.user == machine.0
            &&& form@.port == decimal(machine.2 as nat)
            &&& form@.remote_path == machine.3
            &&& form@.host == match canonical {
                Some(name) => name,
                None => machine.1,
            }
            &&& form@.selected_field == RemoteField::User <==> machine.0.len() == 0
        },
{
}

/// A listing is begun only with a session and while nothing else is under way; the session
/// is lent to it, and the way back is noted.
pub proof fn law_listing_borrows_the_session(
    before: App,
    after: App,
    panel: PanelState,
    new_path: Seq<char>,
    r: Option<ListJob>,
)
    requires
        before.wf(),
        begins_listing(before, after, panel, new_path, r),
    ensures
        r is Some <==> before.remote_spinner is None && panel.remote_ctx is Some,
        r matches Some(job) ==> {
            &&& panel.remote_ctx == Some(job.ctx)
            &&& after.active().remote_ctx is None
            &&& after.active().path@ == new_path
            &&& job.list_path@ == new_path
            &&& job.old_path == Some(panel.path)
            &&& job.panel_idx == before.active_panel_index
            &&& after.remote_spinner is Some
        },
        r is None ==> after.active() == panel && after.remote_spinner == before.remote_spinner,
{
}

/// Reading a remote panel again keeps its path.
pub proof fn law_refresh_keeps_the_path(before: App, after: App, at: int, r: Option<ListJob>)
    requires
        0 <= at < before.panels@.len(),
        refreshed(before, after, at, r),
    ensures
        r is Some <==> before.remote_spinner is None && before.panels@[at].remote_ctx is Some,
        after.panels@[at].path == before.panels@[at].path,
        r matches Some(job) ==> {
            &&& job.list_path@ == normalized(before.panels@[at].path@)
            &&& job.path == before.panels@[at].path
            &&& job.panel_idx == at
            &&& before.panels@[at].remote_ctx == Some(job.ctx)
            &&& after.panels@[at].remote_ctx is None
        },
{
}

/// A save is uploaded only while nothing else is under way, where something is still to be
/// uploaded, and to the machine that it came from.
pub proof fn law_upload_goes_where_the_file_came_from(app: App, same_endpoint: bool)
    ensures
        upload_of(app, same_endpoint) is Ready <==> {
            &&& app.remote_spinner is None
            &&& app.editor_state matches Some(editor)
            &&& editor.remote_dirty
            &&& editor.remote_origin matches Some(origin)
            &&& origin.panel_index < app.panels@.len()
            &&& app.panels@[origin.panel_index as int].remote_ctx matches Some(ctx)
            &&& ctx.status is Connected
            &&& same_endpoint
        },
        upload_of(app, same_endpoint) is Told ==> app.editor_state is Some
            && app.editor_state->0.remote_dirty,
{
}

/// An upload begins only with a copy of what was saved and a session, which is lent to it.
pub proof fn law_upload_borrows_the_session(
    before: App,
    after: App,
    request: UploadRequest,
    snapshot: Result<(), String>,
    r: Option<UploadJob>,
)
    requires
        request.panel_idx < before.panels@.len(),
        begins_upload(before, after, request, snapshot, r),
    ensures
        r is Some <==> snapshot is Ok && before.panels@[request.panel_idx as int].remote_ctx is Some,
        r matches Some(job) ==> {
            &&& Some(job.ctx) == before.panels@[request.panel_idx as int].remote_ctx
            &&& job.request == request
            &&& after.panels@[request.panel_idx as int].remote_ctx is None
            &&& after.remote_spinner is Some
        },
        r is None ==> after.panels == before.panels,
{
}

} // verus!
