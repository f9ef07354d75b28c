//! What comes back from work in the background, and what it comes to.

use crate::app_state::{says, App, EditorLink, SearchResultItem, SearchResultState};
use crate::diff_entry::enters;
use crate::dialogs::{dialog_view, plain_dialog, Dialog, DialogType, Screen};
use crate::diff_types::FileTime;
use crate::names::NameSet;
use crate::panel::{
    cursor_after_load, is_listing, law_listing_holds_the_items, law_sorting_keeps_the_lines,
    line_values, ConnectionStatus, PanelState, RemoteContext, RemoteEndpoint, SftpFileEntry,
};
use crate::remote_connect::optional_text;
use crate::remote_ops::{begins_listing, editor_told, ConnectSuccess, ListJob, RemoteSaveStatus};
use crate::remote_path::normalized;
use crate::settings::Settings;
use crate::settings_flow::{applies, same_settings, sorted_otherwise, ThemeFile};
use crate::text::{concat2, concat3, concat4};
use vstd::prelude::*;

verus! {

/// What an operation of a panel came to.
#[derive(Debug)]
pub enum PanelOpOutcome {
    Simple { message: Result<String, String>, pending_focus: Option<String>, reload: bool },
    /// An upload of what the editor saved. The generation tells a newer save from
    /// the one that was uploaded.
    RemoteSave {
        status: RemoteSaveStatus,
        remote_path: String,
        edit_session_id: u64,
        generation: u64,
        reload: bool,
    },
    /// A listing; where it failed, the panel goes back to `old_path`.
    ListDir {
        entries: Result<Vec<SftpFileEntry>, String>,
        path: String,
        old_path: Option<String>,
    },
    DirExists { exists: bool, target_entry: String },
}

/// What work in the background came to.
#[derive(Debug)]
#[allow(inconsistent_fields)]
pub enum RemoteSpinnerResult {
    /// Work on a session, which is given back.
    PanelOp { ctx: RemoteContext, panel_idx: usize, outcome: PanelOpOutcome },
    Connected { result: Result<ConnectSuccess, String>, panel_idx: usize },
    LocalOp { message: Result<String, String>, reload: bool },
    SearchComplete { results: Vec<SearchResultItem>, search_term: String, base_path: String },
    GitDiffComplete { result: Result<(String, String), String> },
}

/// What is heard of work in the background.
#[derive(Debug)]
pub enum SpinnerEvent {
    Waiting,
    /// The work is gone without a word.
    Lost,
    Done(RemoteSpinnerResult),
}

/// What the settings know of an endpoint.
#[derive(Debug)]
pub struct KnownEndpoint {
    pub has_profile: bool,
    pub bookmarked: bool,
    /// The bookmark that a new connection gets.
    pub bookmark: String,
}

/// What the editor makes of an upload.
#[derive(Debug, Clone, Copy, PartialEq, Eq, Structural)]
pub struct EditorReply {
    /// Whether it is the upload of the latest save.
    pub is_current: bool,
    /// Whether the editor was to close after it.
    pub closes: bool,
    /// Whether a save is still to be uploaded.
    pub dirty: bool,
}

/// What the user is to be told of a connection, once the settings were written.
#[derive(Debug)]
pub struct ConnectionReport {
    pub fallback_msg: Option<String>,
    pub user: String,
    pub host: String,
    /// The settings as they were, where they changed and are to be written.
    pub previous: Option<Settings>,
}

/// What is left to be done.
#[derive(Debug)]
pub struct SpinnerFollowUp {
    pub report: Option<ConnectionReport>,
    /// Whether the local panels are to be read again.
    pub reload_local: bool,
    /// A remote listing that was begun.
    pub list: Option<ListJob>,
    /// A path to go to.
    pub goto: Option<String>,
    /// Whether the comparison that was opened is to be begun.
    pub compare: bool,
    pub close_editor: bool,
    /// Whether a save that waits is to be uploaded now.
    pub retry_upload: bool,
}

/// Nothing is left to be done.
pub open spec fn nothing_left(f: SpinnerFollowUp) -> bool {
    &&& f.report is None
    &&& !f.reload_local
    &&& f.list is None
    &&& f.goto is None
    &&& !f.compare
    &&& !f.close_editor
}

/// A panel with its marks taken away, unless it is remote.
pub open spec fn unmarked(before: PanelState, after: PanelState) -> bool {
    if before.remote() {
        after == before
    } else {
        &&& after == PanelState { selected_files: after.selected_files, ..before }
        &&& after.selected_files@ == Set::<Seq<char>>::empty()
    }
}

/// What is said of an operation.
pub open spec fn outcome_text(message: Result<String, String>) -> Seq<char> {
    match message {
        Ok(text) => text@,
        Err(error) => "Error: "@ + error@,
    }
}

/// Whether the user was told: in the editor where it is on the screen.
pub open spec fn told(before: App, after: App, text: Seq<char>, timer: u8) -> bool {
    if before.current_screen == Screen::FileEditor {
        &&& after.message == before.message
        &&& after.message_timer == before.message_timer
        &&& match before.editor_state {
            Some(editor) => after.editor_state matches Some(now) && editor_told(
                editor,
                now,
                text,
                timer,
            ),
            None => after.editor_state is None,
        }
    } else {
        &&& optional_text(after.message) == Some(text)
        &&& after.message_timer == 10
        &&& after.editor_state == before.editor_state
    }
}

/// Whether a panel, with its session given back, is listed again, while the marks
/// of the local panels are taken away.
pub open spec fn listed_again(before: App, after: App, at: int, panel: PanelState, list: Option<ListJob>) -> bool {
    &&& after.panels@.len() == before.panels@.len()
    &&& after.panels@[at] == PanelState { remote_ctx: None, ..panel }
    &&& forall|i: int|
        0 <= i < before.panels@.len() && i != at ==> unmarked(
            before.panels@[i],
            #[trigger] after.panels@[i],
        )
    &&& after.remote_spinner matches Some(spinner) && spinner.message@ == "Loading..."@
    &&& list matches Some(job)
    &&& Some(job.ctx) == panel.remote_ctx
    &&& job.panel_idx == at
    &&& job.list_path@ == normalized(panel.path@)
    &&& job.path == panel.path
    &&& job.old_path is None
}

/// What an operation of a panel comes to.
pub open spec fn after_simple(
    before: App,
    after: App,
    at: int,
    ctx: RemoteContext,
    message: Result<String, String>,
    focus: Option<String>,
    reload: bool,
    f: SpinnerFollowUp,
) -> bool {
    let panel = PanelState {
        remote_ctx: Some(ctx),
        pending_focus: if message is Ok && focus is Some {
            focus
        } else {
            before.panels@[at].pending_focus
        },
        ..before.panels@[at]
    };
    &&& after == App {
        panels: after.panels,
        message: after.message,
        message_timer: after.message_timer,
        editor_state: after.editor_state,
        remote_spinner: after.remote_spinner,
        ..before
    }
    &&& told(before, after, outcome_text(message), if message is Err { 50 } else { 30 })
    &&& f.reload_local == reload
    &&& f.report is None && f.goto is None && !f.compare && !f.close_editor && f.retry_upload
    &&& if reload {
        listed_again(before, after, at, panel, f.list)
    } else {
        &&& after.panels@ == before.panels@.update(at, panel)
        &&& after.remote_spinner is None
        &&& f.list is None
    }
}

/// What is said of an upload.
pub open spec fn save_text(status: RemoteSaveStatus, reply: Option<EditorReply>) -> Seq<char> {
    let plain = match status {
        RemoteSaveStatus::Complete(_) => "Saved & uploaded to remote!"@,
        RemoteSaveStatus::CommittedWithWarning { warning, .. } =>
            "Warning: remote save committed, but follow-up attention is required: "@ + warning@,
        RemoteSaveStatus::Failed(error) => "Error: Saved locally, upload failed: "@ + error@,
    };
    if reply matches Some(r) && !r.is_current && r.dirty {
        match status {
            RemoteSaveStatus::Complete(_) =>
                "Previous upload finished; latest local save still needs upload"@,
            RemoteSaveStatus::CommittedWithWarning { .. } => plain
                + "; latest local save still needs upload"@,
            RemoteSaveStatus::Failed(_) =>
                "Previous upload failed; latest local save still needs upload"@,
        }
    } else {
        plain
    }
}

/// How long the editor says so.
pub open spec fn save_timer(status: RemoteSaveStatus, reply: Option<EditorReply>) -> u8 {
    if !(status is Complete) || (reply matches Some(r) && r.dirty) {
        50
    } else {
        30
    }
}

/// What the editor knows once it heard of an upload.
pub open spec fn replied(editor: Option<EditorLink>, reply: Option<EditorReply>) -> Option<EditorLink> {
    match (editor, reply) {
        (Some(link), Some(r)) => Some(EditorLink { remote_dirty: r.dirty, ..link }),
        _ => editor,
    }
}

/// What an upload comes to.
pub open spec fn after_save(
    before: App,
    after: App,
    at: int,
    ctx: RemoteContext,
    status: RemoteSaveStatus,
    reload: bool,
    reply: Option<EditorReply>,
    f: SpinnerFollowUp,
) -> bool {
    let panel = PanelState { remote_ctx: Some(ctx), ..before.panels@[at] };
    let heard = App { editor_state: replied(before.editor_state, reply), ..before };
    let used = if before.editor_state is Some { reply } else { None };
    let current = used matches Some(r) && r.is_current;
    &&& after == App {
        panels: after.panels,
        message: after.message,
        message_timer: after.message_timer,
        editor_state: after.editor_state,
        remote_spinner: after.remote_spinner,
        ..before
    }
    &&& told(heard, after, save_text(status, used), save_timer(status, used))
    &&& f.report is None && f.goto is None && !f.compare
    &&& f.close_editor == (used matches Some(r) && r.is_current && r.closes)
    &&& f.retry_upload == !(current && status is Failed)
    &&& f.reload_local == (reload && !(status is Failed))
    &&& if f.reload_local {
        listed_again(before, after, at, panel, f.list)
    } else {
        &&& after.panels@ == before.panels@.update(at, panel)
        &&& after.remote_spinner is None
        &&& f.list is None
    }
}

/// A panel that took in a remote listing, with the cursor at the top.
pub open spec fn shows_listing(
    before: PanelState,
    after: PanelState,
    entries: Seq<SftpFileEntry>,
    path: Seq<char>,
    now: FileTime,
) -> bool {
    &&& after == PanelState {
        path: after.path,
        files: after.files,
        selected_index: after.selected_index,
        selected_files: after.selected_files,
        pending_focus: None,
        disk_total: 0,
        disk_available: 0,
        ..before
    }
    &&& after.path@ == path
    &&& after.selected_files@ == Set::<Seq<char>>::empty()
    &&& is_listing(
        after.files@,
        normalized(path) != "/"@,
        now,
        line_values(entries),
        before.sort_by,
        before.sort_order,
    )
    &&& after.selected_index == cursor_after_load(
        after.files@,
        optional_text(before.pending_focus),
        0,
    )
}

/// What a listing comes to.
pub open spec fn after_listing(
    before: App,
    after: App,
    at: int,
    ctx: RemoteContext,
    entries: Result<Vec<SftpFileEntry>, String>,
    path: Seq<char>,
    old_path: Option<String>,
    now: FileTime,
) -> bool {
    let panel = before.panels@[at];
    match entries {
        Ok(list) => {
            &&& after == App { panels: after.panels, ..before }
            &&& after.panels@ == before.panels@.update(at, after.panels@[at])
            &&& shows_listing(
                PanelState {
                    remote_ctx: Some(
                        RemoteContext { status: ConnectionStatus::Connected, ..ctx },
                    ),
                    ..panel
                },
                after.panels@[at],
                list@,
                path,
                now,
            )
        },
        Err(error) => {
            &&& after.panels@ == before.panels@.update(
                at,
                PanelState {
                    remote_ctx: Some(
                        RemoteContext { status: ConnectionStatus::Disconnected(error), ..ctx },
                    ),
                    path: match old_path {
                        Some(previous) => previous,
                        None => panel.path,
                    },
                    ..panel
                },
            )
            &&& says(App { panels: after.panels, ..before }, after, "Error: "@ + error@)
        },
    }
}

/// What a new connection comes to: the panel shows the remote directory, and an
/// endpoint that the settings do not know is put into them.
pub open spec fn after_connection(
    before: App,
    after: App,
    at: int,
    success: ConnectSuccess,
    known: KnownEndpoint,
    now: FileTime,
    report: Option<ConnectionReport>,
) -> bool {
    let profile = success.ctx.profile;
    let changed = !known.has_profile || !known.bookmarked;
    &&& after == App { panels: after.panels, settings: after.settings, ..before }
    &&& after.panels@ == before.panels@.update(at, after.panels@[at])
    &&& shows_listing(
        PanelState {
            remote_ctx: Some(
                RemoteContext { status: ConnectionStatus::Connected, ..success.ctx },
            ),
            remote_display: Some(
                RemoteEndpoint { user: profile.user, host: profile.host, port: profile.port },
            ),
            ..before.panels@[at]
        },
        after.panels@[at],
        success.entries@,
        success.path@,
        now,
    )
    &&& after.settings == Settings {
        remote_profiles: after.settings.remote_profiles,
        bookmarked_path: after.settings.bookmarked_path,
        ..before.settings
    }
    &&& after.settings.remote_profiles@ == if known.has_profile {
        before.settings.remote_profiles@
    } else {
        before.settings.remote_profiles@.push(success.profile)
    }
    &&& after.settings.bookmarked_path@ == if known.bookmarked {
        before.settings.bookmarked_path@
    } else {
        before.settings.bookmarked_path@.push(known.bookmark)
    }
    &&& report matches Some(told)
    &&& told.fallback_msg == success.fallback_msg
    &&& told.user == success.profile.user
    &&& told.host == success.profile.host
    &&& match told.previous {
        Some(previous) => changed && same_settings(previous, before.settings),
        None => !changed,
    }
}

impl App {
    fn unmark_local(&mut self)
        ensures
            *final(self) == (App { panels: final(self).panels, ..*old(self) }),
            final(self).panels@.len() == old(self).panels@.len(),
            forall|i: int|
                0 <= i < old(self).panels@.len() ==> unmarked(
                    old(self).panels@[i],
                    #[trigger] final(self).panels@[i],
                ),
    {
        let ghost before = self.panels@;
        let ghost frame = *self;
        let mut i: usize = 0;
        while i < self.panels.len()
            invariant
                i <= self.panels@.len(),
                self.panels@.len() == before.len(),
                *self == (App { panels: self.panels, ..frame }),
                forall|k: int| 0 <= k < i ==> unmarked(before[k], #[trigger] self.panels@[k]),
                forall|k: int| i <= k < before.len() ==> (#[trigger] self.panels@[k]) == before[k],
            decreases self.panels@.len() - i,
        {
            if !self.panels[i].is_remote() {
                self.panels[i].selected_files = NameSet::new();
            }
            i += 1;
        }
    }

    fn tell(&mut self, text: &str, timer: u8)
        ensures
            told(*old(self), *final(self), text@, timer),
            *final(self) == (App {
                message: final(self).message,
                message_timer: final(self).message_timer,
                editor_state: final(self).editor_state,
                ..*old(self)
            }),
    {
        if self.current_screen == Screen::FileEditor {
            self.tell_editor(text, timer);
        } else {
            self.show_message(text);
        }
    }

    fn list_again(&mut self, panel_idx: usize) -> (list: Option<ListJob>)
        requires
            panel_idx < old(self).panels@.len(),
            old(self).remote_spinner is None,
            old(self).panels@[panel_idx as int].remote_ctx is Some,
        ensures
            *final(self) == (App {
                panels: final(self).panels,
                remote_spinner: final(self).remote_spinner,
                ..*old(self)
            }),
            listed_again(
                *old(self),
                *final(self),
                panel_idx as int,
                old(self).panels@[panel_idx as int],
                list,
            ),
    {
        self.unmark_local();
        assert(unmarked(
            old(self).panels@[panel_idx as int],
            self.panels@[panel_idx as int],
        ));
        assert(self.panels@[panel_idx as int] == old(self).panels@[panel_idx as int]);
        let ghost mid = self.panels@;
        let list = self.spawn_remote_refresh(panel_idx);
        assert forall|i: int| 0 <= i < old(self).panels@.len() && i != panel_idx implies unmarked(
            old(self).panels@[i],
            #[trigger] self.panels@[i],
        ) by {
            assert(self.panels@[i] == mid[i]);
        }
        list
    }

    /// The work is gone: the user is told, and an editor that was to close after
    /// it asks again.
    fn spinner_lost(&mut self)
        ensures
            final(self).message_timer == 10,
            final(self).message matches Some(text) && text@
                == "Remote operation failed unexpectedly"@,
            *final(self) == (App {
                remote_spinner: None,
                editor_state: after_loss(old(self).editor_state),
                message: final(self).message,
                message_timer: 10,
                ..*old(self)
            }),
    {
        self.remote_spinner = None;
        if let Some(editor) = self.editor_state.take() {
            let mut editor = editor;
            if editor.pending_close_after_remote_save.is_some() {
                editor.pending_close_after_remote_save = None;
                editor.exit_confirm_open = true;
            }
            self.editor_state = Some(editor);
        }
        self.show_message("Remote operation failed unexpectedly");
    }

    fn simple_done(
        &mut self,
        ctx: RemoteContext,
        panel_idx: usize,
        message: Result<String, String>,
        pending_focus: Option<String>,
        reload: bool,
    ) -> (f: SpinnerFollowUp)
        requires
            panel_idx < old(self).panels@.len(),
            old(self).remote_spinner is None,
        ensures
            after_simple(
                *old(self),
                *final(self),
                panel_idx as int,
                ctx,
                message,
                pending_focus,
                reload,
                f,
            ),
    {
        self.panels[panel_idx].remote_ctx = Some(ctx);
        let mut timer: u8 = 30;
        let text = match &message {
            Ok(text) => text.clone(),
            Err(error) => {
                timer = 50;
                concat2("Error: ", error.as_str())
            },
        };
        if message.is_ok() && pending_focus.is_some() {
            self.panels[panel_idx].pending_focus = pending_focus;
        }
        self.tell(text.as_str(), timer);
        let list = if reload {
            self.list_again(panel_idx)
        } else {
            None
        };
        assert(!reload ==> self.panels@ =~= old(self).panels@.update(
            panel_idx as int,
            self.panels@[panel_idx as int],
        ));
        SpinnerFollowUp {
            report: None,
            reload_local: reload,
            list,
            goto: None,
            compare: false,
            close_editor: false,
            retry_upload: true,
        }
    }

    fn save_done(
        &mut self,
        ctx: RemoteContext,
        panel_idx: usize,
        status: RemoteSaveStatus,
        reload: bool,
        reply: Option<EditorReply>,
    ) -> (f: SpinnerFollowUp)
        requires
            panel_idx < old(self).panels@.len(),
            old(self).remote_spinner is None,
        ensures
            after_save(
                *old(self),
                *final(self),
                panel_idx as int,
                ctx,
                status,
                reload,
                reply,
                f,
            ),
    {
        self.panels[panel_idx].remote_ctx = Some(ctx);
        let used = if self.editor_state.is_some() { reply } else { None };
        if let Some(heard) = used {
            if let Some(editor) = self.editor_state.take() {
                let mut editor = editor;
                editor.remote_dirty = heard.dirty;
                self.editor_state = Some(editor);
            }
        }
        let (is_current, closes, dirty) = match used {
            Some(heard) => (heard.is_current, heard.closes, heard.dirty),
            None => (false, false, false),
        };
        let behind = used.is_some() && !is_current && dirty;
        let mut failed = false;
        let mut timer: u8 = if dirty { 50 } else { 30 };
        let text = match &status {
            RemoteSaveStatus::Complete(_) => if behind {
                "Previous upload finished; latest local save still needs upload".to_owned()
            } else {
                "Saved & uploaded to remote!".to_owned()
            },
            RemoteSaveStatus::CommittedWithWarning { version: _, warning } => {
                timer = 50;
                let plain = concat2(
                    "Warning: remote save committed, but follow-up attention is required: ",
                    warning.as_str(),
                );
                if behind {
                    concat2(plain.as_str(), "; latest local save still needs upload")
                } else {
                    plain
                }
            },
            RemoteSaveStatus::Failed(error) => {
                failed = true;
                timer = 50;
                if behind {
                    "Previous upload failed; latest local save still needs upload".to_owned()
                } else {
                    concat2("Error: Saved locally, upload failed: ", error.as_str())
                }
            },
        };
        self.tell(text.as_str(), timer);
        let again = reload && !failed;
        let list = if again {
            self.list_again(panel_idx)
        } else {
            None
        };
        assert(!again ==> self.panels@ =~= old(self).panels@.update(
            panel_idx as int,
            self.panels@[panel_idx as int],
        ));
        SpinnerFollowUp {
            report: None,
            reload_local: again,
            list,
            goto: None,
            compare: false,
            close_editor: is_current && closes,
            retry_upload: !(is_current && failed),
        }
    }

    fn listing_done(
        &mut self,
        ctx: RemoteContext,
        panel_idx: usize,
        entries: Result<Vec<SftpFileEntry>, String>,
        path: String,
        old_path: Option<String>,
        now: FileTime,
    )
        requires
            panel_idx < old(self).panels@.len(),
        ensures
            after_listing(
                *old(self),
                *final(self),
                panel_idx as int,
                ctx,
                entries,
                path@,
                old_path,
                now,
            ),
    {
        let mut ctx = ctx;
        match entries {
            Ok(list) => {
                ctx.status = ConnectionStatus::Connected;
                self.panels[panel_idx].remote_ctx = Some(ctx);
                self.show_listing(panel_idx, list, path, now);
            },
            Err(error) => {
                ctx.status = ConnectionStatus::Disconnected(error.clone());
                self.panels[panel_idx].remote_ctx = Some(ctx);
                if let Some(previous) = old_path {
                    self.panels[panel_idx].path = previous;
                }
                let text = concat2("Error: ", error.as_str());
                self.show_message(text.as_str());
            },
        }
        assert(self.panels@ =~= old(self).panels@.update(
            panel_idx as int,
            self.panels@[panel_idx as int],
        ));
    }

    fn show_listing(&mut self, panel_idx: usize, entries: Vec<SftpFileEntry>, path: String, now: FileTime)
        requires
            panel_idx < old(self).panels@.len(),
        ensures
            *final(self) == (App { panels: final(self).panels, ..*old(self) }),
            final(self).panels@ == old(self).panels@.update(
                panel_idx as int,
                final(self).panels@[panel_idx as int],
            ),
            shows_listing(
                old(self).panels@[panel_idx as int],
                final(self).panels@[panel_idx as int],
                entries@,
                path@,
                now,
            ),
    {
        self.panels[panel_idx].selected_index = 0;
        self.panels[panel_idx].selected_files = NameSet::new();
        self.panels[panel_idx].apply_remote_entries(entries, path, now);
    }

    fn connection_done(
        &mut self,
        success: ConnectSuccess,
        panel_idx: usize,
        known: &KnownEndpoint,
        now: FileTime,
    ) -> (report: Option<ConnectionReport>)
        requires
            panel_idx < old(self).panels@.len(),
        ensures
            after_connection(
                *old(self),
                *final(self),
                panel_idx as int,
                success,
                *known,
                now,
                report,
            ),
    {
        let ConnectSuccess { ctx, entries, path, fallback_msg, profile } = success;
        let mut ctx = ctx;
        self.panels[panel_idx].remote_display =
        Some(
            RemoteEndpoint {
                user: ctx.profile.user.clone(),
                host: ctx.profile.host.clone(),
                port: ctx.profile.port,
            },
        );
        ctx.status = ConnectionStatus::Connected;
        self.panels[panel_idx].remote_ctx = Some(ctx);
        self.show_listing(panel_idx, entries, path, now);
        assert(self.panels@ =~= old(self).panels@.update(
            panel_idx as int,
            self.panels@[panel_idx as int],
        ));
        let user = profile.user.clone();
        let host = profile.host.clone();
        let previous = if !known.has_profile || !known.bookmarked {
            Some(self.settings.copy())
        } else {
            None
        };
        if !known.has_profile {
            self.settings.remote_profiles.push(profile);
        }
        if !known.bookmarked {
            self.settings.bookmarked_path.push(known.bookmark.clone());
        }
        Some(ConnectionReport { fallback_msg, user, host, previous })
    }

    /// Tells the user of a connection once the settings were written. `save` is
    /// what came of writing them, where they were to be written: where that failed,
    /// the settings on disk are taken, or the previous ones where none can be read.
    pub fn report_connection(
        &mut self,
        report: ConnectionReport,
        save: Result<(), String>,
        persisted: Option<Settings>,
        theme: ThemeFile,
    ) -> (reload: Vec<bool>)
        ensures
            ({
                let failed = report.previous is Some && save is Err;
                let text = connection_text(report, save, persisted is Some);
                let dialog_shown = report.fallback_msg is Some;
                &&& if dialog_shown {
                    &&& final(self).message == old(self).message
                    &&& final(self).message_timer == old(self).message_timer
                    &&& dialog_view(final(self).dialog) == Some(
                        plain_dialog(DialogType::ExtensionHandlerError, Seq::empty(), text),
                    )
                } else {
                    &&& optional_text(final(self).message) == Some(text)
                    &&& final(self).message_timer == 10
                    &&& final(self).dialog == old(self).dialog
                }
                &&& if failed {
                    &&& applies(
                        (App {
                            message: final(self).message,
                            message_timer: final(self).message_timer,
                            dialog: final(self).dialog,
                            ..*old(self)
                        }),
                        *final(self),
                        match persisted {
                            Some(settings) => settings,
                            None => report.previous->0,
                        },
                        theme,
                    )
                    &&& reload@ == sorted_otherwise(old(self).panels@, final(self).panels@)
                } else {
                    &&& *final(self) == (App {
                        message: final(self).message,
                        message_timer: final(self).message_timer,
                        dialog: final(self).dialog,
                        ..*old(self)
                    })
                    &&& reload@.len() == 0
                }
            }),
    {
        let ConnectionReport { fallback_msg, user, host, previous } = report;
        let mut reload: Vec<bool> = Vec::new();
        let mut failure: Option<String> = None;
        if let Some(previous) = previous {
            if let Err(error) = save {
                let (reloaded, list) = self.reconcile_settings_after_save_error(
                    previous,
                    persisted,
                    theme,
                );
                reload = list;
                failure =
                Some(
                    if reloaded {
                        concat2(
                            error.as_str(),
                            "; effective settings were reloaded from disk",
                        )
                    } else {
                        concat2(
                            error.as_str(),
                            "; disk could not be reread; the last known settings were restored",
                        )
                    },
                );
            }
        }
        match fallback_msg {
            Some(text) => match failure {
                Some(error) => {
                    let whole = concat3(
                        text.as_str(),
                        "\n\nConnected, but could not confirm durable saving of the remote profile or bookmark: ",
                        error.as_str(),
                    );
                    self.show_extension_handler_error(whole.as_str());
                },
                None => {
                    self.show_extension_handler_error(text.as_str());
                },
            },
            None => {
                let who = concat4("Connected to ", user.as_str(), "@", host.as_str());
                match failure {
                    Some(error) => {
                        let whole = concat3(
                            who.as_str(),
                            ", but could not confirm durable saving of the profile or bookmark: ",
                            error.as_str(),
                        );
                        self.show_message(whole.as_str());
                    },
                    None => {
                        self.show_message(who.as_str());
                    },
                }
            },
        }
        reload
    }

    /// Shows why a file could not be opened.
    pub fn show_extension_handler_error(&mut self, error_message: &str)
        ensures
            *final(self) == (App { dialog: final(self).dialog, ..*old(self) }),
            dialog_view(final(self).dialog) == Some(
                plain_dialog(DialogType::ExtensionHandlerError, Seq::empty(), error_message@),
            ),
    {
        let dialog = Dialog::plain(
            DialogType::ExtensionHandlerError,
            String::new(),
            error_message.to_owned(),
        );
        assert(dialog@ == plain_dialog(
            DialogType::ExtensionHandlerError,
            Seq::empty(),
            error_message@,
        ));
        self.dialog = Some(dialog);
    }

    /// Takes in what is heard of the work in the background. `known` is what the
    /// settings know of an endpoint that was connected to, and `reply` what the
    /// editor makes of an upload. Says what is left to be done.
    pub fn poll_remote_spinner(
        &mut self,
        event: SpinnerEvent,
        known: &KnownEndpoint,
        reply: Option<EditorReply>,
        now: FileTime,
    ) -> (f: SpinnerFollowUp)
        requires
            old(self).wf(),
            event matches SpinnerEvent::Done(result) ==> panel_of(result) < old(self).panels@.len(),
        ensures
            if old(self).remote_spinner is None || event is Waiting {
                *final(self) == *old(self) && nothing_left(f) && !f.retry_upload
            } else {
                match event {
                    SpinnerEvent::Done(result) => after_result(
                        (App { remote_spinner: None, ..*old(self) }),
                        *final(self),
                        result,
                        *known,
                        reply,
                        now,
                        f,
                    ),
                    _ => {
                        &&& nothing_left(f)
                        &&& !f.retry_upload
                        &&& says(
                            (App {
                                remote_spinner: None,
                                editor_state: after_loss(old(self).editor_state),
                                ..*old(self)
                            }),
                            *final(self),
                            "Remote operation failed unexpectedly"@,
                        )
                    },
                }
            },
    {
        let mut f = SpinnerFollowUp {
            report: None,
            reload_local: false,
            list: None,
            goto: None,
            compare: false,
            close_editor: false,
            retry_upload: false,
        };
        if self.remote_spinner.is_none() {
            return f;
        }
        match event {
            SpinnerEvent::Waiting => {},
            SpinnerEvent::Lost => {
                self.spinner_lost();
            },
            SpinnerEvent::Done(result) => {
                self.remote_spinner = None;
                f.retry_upload = true;
                match result {
                    RemoteSpinnerResult::Connected { result, panel_idx } => match result {
                        Ok(success) => {
                            f.report = self.connection_done(success, panel_idx, known, now);
                        },
                        Err(error) => {
                            self.show_message(error.as_str());
                        },
                    },
                    RemoteSpinnerResult::PanelOp { ctx, panel_idx, outcome } => match outcome {
                        PanelOpOutcome::Simple { message, pending_focus, reload } => {
                            f = self.simple_done(ctx, panel_idx, message, pending_focus, reload);
                        },
                        PanelOpOutcome::RemoteSave { status, reload, .. } => {
                            f = self.save_done(ctx, panel_idx, status, reload, reply);
                        },
                        PanelOpOutcome::ListDir { entries, path, old_path } => {
                            self.listing_done(ctx, panel_idx, entries, path, old_path, now);
                        },
                        PanelOpOutcome::DirExists { exists, target_entry } => {
                            self.panels[panel_idx].remote_ctx = Some(ctx);
                            if exists {
                                f.goto = Some(target_entry);
                            } else {
                                let text = concat2("Path not found: ", target_entry.as_str());
                                self.show_extension_handler_error(text.as_str());
                            }
                        },
                    },
                    RemoteSpinnerResult::LocalOp { message, reload } => {
                        match &message {
                            Ok(text) => {
                                self.show_message(text.as_str());
                            },
                            Err(error) => {
                                self.show_message(error.as_str());
                            },
                        }
                        f.reload_local = reload;
                        if reload {
                            f.list = self.refresh_panels();
                        }
                    },
                    RemoteSpinnerResult::SearchComplete { results, search_term, base_path } => {
                        if results.len() == 0 {
                            let text = concat3(
                                "No files found matching \"",
                                search_term.as_str(),
                                "\"",
                            );
                            self.show_message(text.as_str());
                        } else {
                            self.search_result_state =
                            SearchResultState {
                                results,
                                selected_index: 0,
                                scroll_offset: 0,
                                search_term,
                                base_path,
                                active: true,
                            };
                            self.current_screen = Screen::SearchResult;
                        }
                    },
                    RemoteSpinnerResult::GitDiffComplete { result } => match result {
                        Ok((left, right)) => {
                            f.compare = self.enter_diff_screen(left, right);
                        },
                        Err(error) => {
                            self.show_message(error.as_str());
                        },
                    },
                }
            },
        }
        f
    }

    /// Takes away the marks of all panels. The local ones are to be read again;
    /// the last remote one whose session is not lent out is listed again, unless
    /// other work is under way.
    pub fn refresh_panels(&mut self) -> (list: Option<ListJob>)
        ensures
            all_refreshed(*old(self), *final(self), list),
    {
        let ghost before = self.panels@;
        let ghost frame = *self;
        let mut found: Option<usize> = None;
        let mut i: usize = 0;
        assert(before.take(0) =~= Seq::<PanelState>::empty());
        while i < self.panels.len()
            invariant
                i <= self.panels@.len(),
                self.panels@.len() == before.len(),
                *self == (App { panels: self.panels, ..frame }),
                forall|k: int| 0 <= k < i ==> cleared(before[k], #[trigger] self.panels@[k]),
                forall|k: int| i <= k < before.len() ==> (#[trigger] self.panels@[k]) == before[k],
                match found {
                    Some(at) => at < i && before[at as int].remote_ctx is Some && last_session(
                        before.take(i as int),
                    ) == at,
                    None => last_session(before.take(i as int)) == -1,
                },
            decreases self.panels@.len() - i,
        {
            assert(before.take(i + 1).drop_last() =~= before.take(i as int));
            self.panels[i].selected_files = NameSet::new();
            if self.panels[i].remote_ctx.is_some() {
                found = Some(i);
            }
            i += 1;
        }
        assert(before.take(i as int) =~= before);
        let ghost mid = self.panels@;
        match found {
            Some(at) => {
                let list = self.spawn_remote_refresh(at);
                assert(cleared(before[at as int], mid[at as int]));
                assert forall|k: int|
                    0 <= k < before.len() && !(frame.remote_spinner is None && k == at) implies cleared(
                    before[k],
                    #[trigger] self.panels@[k],
                ) by {
                    assert(self.panels@[k] == mid[k]);
                }
                list
            },
            None => None,
        }
    }
}

/// What a search comes to.
pub open spec fn after_search(
    before: App,
    after: App,
    results: Seq<SearchResultItem>,
    search_term: String,
    base_path: String,
) -> bool {
    if results.len() == 0 {
        says(before, after, "No files found matching \""@ + search_term@ + "\""@)
    } else {
        &&& after == App {
            search_result_state: SearchResultState {
                results: after.search_result_state.results,
                selected_index: 0,
                scroll_offset: 0,
                search_term,
                base_path,
                active: true,
            },
            current_screen: Screen::SearchResult,
            ..before
        }
        &&& after.search_result_state.results@ == results
    }
}

/// What work on this machine comes to.
pub open spec fn after_local(
    before: App,
    after: App,
    message: Result<String, String>,
    reload: bool,
    f: SpinnerFollowUp,
) -> bool {
    let text = match message {
        Ok(text) => text@,
        Err(error) => error@,
    };
    &&& optional_text(after.message) == Some(text)
    &&& after.message_timer == 10
    &&& f.reload_local == reload
    &&& if reload {
        all_refreshed(
            App { message: after.message, message_timer: 10, ..before },
            after,
            f.list,
        )
    } else {
        says(before, after, text) && f.list is None
    }
}

/// What the result of work in the background comes to.
pub open spec fn after_result(
    before: App,
    after: App,
    result: RemoteSpinnerResult,
    known: KnownEndpoint,
    reply: Option<EditorReply>,
    now: FileTime,
    f: SpinnerFollowUp,
) -> bool {
    match result {
        RemoteSpinnerResult::Connected { result, panel_idx } => {
            &&& f.retry_upload
            &&& nothing_left(SpinnerFollowUp { report: None, ..f })
            &&& match result {
                Ok(success) => after_connection(
                    before,
                    after,
                    panel_idx as int,
                    success,
                    known,
                    now,
                    f.report,
                ),
                Err(error) => says(before, after, error@) && f.report is None,
            }
        },
        RemoteSpinnerResult::PanelOp { ctx, panel_idx, outcome } => match outcome {
            PanelOpOutcome::Simple { message, pending_focus, reload } => after_simple(
                before,
                after,
                panel_idx as int,
                ctx,
                message,
                pending_focus,
                reload,
                f,
            ),
            PanelOpOutcome::RemoteSave { status, reload, .. } => after_save(
                before,
                after,
                panel_idx as int,
                ctx,
                status,
                reload,
                reply,
                f,
            ),
            PanelOpOutcome::ListDir { entries, path, old_path } => {
                &&& f.retry_upload
                &&& nothing_left(f)
                &&& after_listing(
                    before,
                    after,
                    panel_idx as int,
                    ctx,
                    entries,
                    path@,
                    old_path,
                    now,
                )
            },
            PanelOpOutcome::DirExists { exists, target_entry } => {
                &&& f.retry_upload
                &&& nothing_left(SpinnerFollowUp { goto: None, ..f })
                &&& f.goto == if exists { Some(target_entry) } else { None }
                &&& after == App { panels: after.panels, dialog: after.dialog, ..before }
                &&& after.panels@ == before.panels@.update(
                    panel_idx as int,
                    PanelState { remote_ctx: Some(ctx), ..before.panels@[panel_idx as int] },
                )
                &&& if exists {
                    after.dialog == before.dialog
                } else {
                    dialog_view(after.dialog) == Some(
                        plain_dialog(
                            DialogType::ExtensionHandlerError,
                            Seq::empty(),
                            "Path not found: "@ + target_entry@,
                        ),
                    )
                }
            },
        },
        RemoteSpinnerResult::LocalOp { message, reload } => {
            &&& f.retry_upload
            &&& nothing_left(SpinnerFollowUp { reload_local: false, list: None, ..f })
            &&& after_local(before, after, message, reload, f)
        },
        RemoteSpinnerResult::SearchComplete { results, search_term, base_path } => {
            &&& f.retry_upload
            &&& nothing_left(f)
            &&& after_search(before, after, results@, search_term, base_path)
        },
        RemoteSpinnerResult::GitDiffComplete { result } => {
            &&& f.retry_upload
            &&& nothing_left(SpinnerFollowUp { compare: false, ..f })
            &&& match result {
                Ok((left, right)) => enters(before, after, left@, right@, f.compare),
                Err(error) => says(before, after, error@) && !f.compare,
            }
        },
    }
}

/// The panel that a result speaks of.
pub open spec fn panel_of(result: RemoteSpinnerResult) -> int {
    match result {
        RemoteSpinnerResult::PanelOp { panel_idx, .. } => panel_idx as int,
        RemoteSpinnerResult::Connected { panel_idx, .. } => panel_idx as int,
        _ => 0,
    }
}

/// A panel with its marks taken away.
pub open spec fn cleared(before: PanelState, after: PanelState) -> bool {
    &&& after == PanelState { selected_files: after.selected_files, ..before }
    &&& after.selected_files@ == Set::<Seq<char>>::empty()
}

/// The last panel with a session that is not lent out, or -1.
pub open spec fn last_session(panels: Seq<PanelState>) -> int
    decreases panels.len(),
{
    if panels.len() == 0 {
        -1
    } else if panels.last().remote_ctx is Some {
        panels.len() - 1
    } else {
        last_session(panels.drop_last())
    }
}

/// Whether all panels lost their marks and a remote one is listed again.
pub open spec fn all_refreshed(before: App, after: App, list: Option<ListJob>) -> bool {
    let at = last_session(before.panels@);
    let lists = at >= 0 && before.remote_spinner is None;
    &&& after == App { panels: after.panels, remote_spinner: after.remote_spinner, ..before }
    &&& after.panels@.len() == before.panels@.len()
    &&& forall|k: int|
        0 <= k < before.panels@.len() && !(lists && k == at) ==> cleared(
            before.panels@[k],
            #[trigger] after.panels@[k],
        )
    &&& if lists {
        let panel = before.panels@[at];
        &&& after.panels@[at] == PanelState {
            selected_files: after.panels@[at].selected_files,
            remote_ctx: None,
            ..panel
        }
        &&& after.panels@[at].selected_files@ == Set::<Seq<char>>::empty()
        &&& after.remote_spinner matches Some(spinner) && spinner.message@ == "Loading..."@
        &&& list matches Some(job)
        &&& Some(job.ctx) == panel.remote_ctx
        &&& job.panel_idx == at
        &&& job.list_path@ == normalized(panel.path@)
        &&& job.path == panel.path
        &&& job.old_path is None
    } else {
        after.remote_spinner == before.remote_spinner && list is None
    }
}

/// What the user is told of a connection.
pub open spec fn connection_text(report: ConnectionReport, save: Result<(), String>, reloaded: bool) -> Seq<
    char,
> {
    let failed = report.previous is Some && save is Err;
    let error = save->Err_0@ + if reloaded {
        "; effective settings were reloaded from disk"@
    } else {
        "; disk could not be reread; the last known settings were restored"@
    };
    let who = "Connected to "@ + report.user@ + "@"@ + report.host@;
    match report.fallback_msg {
        Some(text) => if failed {
            text@
                + "\n\nConnected, but could not confirm durable saving of the remote profile or bookmark: "@
                + error
        } else {
            text@
        },
        None => if failed {
            who + ", but could not confirm durable saving of the profile or bookmark: "@ + error
        } else {
            who
        },
    }
}

/// An editor that hears that its upload is lost.
pub open spec fn after_loss(editor: Option<EditorLink>) -> Option<EditorLink> {
    match editor {
        Some(link) => if link.pending_close_after_remote_save is Some {
            Some(
                EditorLink {
                    pending_close_after_remote_save: None,
                    exit_confirm_open: true,
                    ..link
                },
            )
        } else {
            editor
        },
        None => None,
    }
}

/// A listing that fails leaves the panel where it was when the listing was begun.
pub proof fn law_failed_listing_goes_back(
    start: App,
    begun: App,
    after: App,
    new_path: Seq<char>,
    job: ListJob,
    error: String,
    now: FileTime,
)
    requires
        start.wf(),
        begins_listing(start, begun, start.active(), new_path, Some(job)),
        after_listing(
            begun,
            after,
            job.panel_idx as int,
            job.ctx,
            Err(error),
            job.path@,
            job.old_path,
            now,
        ),
    ensures
        after.panels@[job.panel_idx as int].path == start.active().path,
        after.panels@[job.panel_idx as int].remote_ctx matches Some(ctx)
            && ctx.profile == job.ctx.profile,
{
}

/// A message goes to the editor while it is open, and to the panels else.
pub proof fn law_message_goes_where_the_user_looks(
    before: App,
    after: App,
    text: Seq<char>,
    timer: u8,
)
    requires
        told(before, after, text, timer),
    ensures
        before.current_screen == Screen::FileEditor ==> after.message == before.message,
        before.current_screen == Screen::FileEditor && before.editor_state is Some ==> {
            &&& after.editor_state matches Some(editor)
            &&& editor.message@ == text
            &&& editor.message_timer == timer
        },
        before.current_screen != Screen::FileEditor ==> after.message is Some
            && after.message->0@ == text && after.editor_state == before.editor_state,
{
}

/// Work on a remote panel gives its session back, unless the panel is read again with it; the
/// line that was made is looked for only where the work went well.
pub proof fn law_session_comes_back(
    before: App,
    after: App,
    at: int,
    ctx: RemoteContext,
    message: Result<String, String>,
    focus: Option<String>,
    reload: bool,
    f: SpinnerFollowUp,
)
    requires
        0 <= at < before.panels@.len(),
        after_simple(before, after, at, ctx, message, focus, reload, f),
    ensures
        !reload ==> {
            &&& after.panels@[at].remote_ctx == Some(ctx)
            &&& f.list is None
            &&& after.remote_spinner is None
        },
        reload ==> {
            &&& f.list matches Some(job)
            &&& job.ctx == ctx
            &&& job.panel_idx == at
            &&& job.list_path@ == normalized(before.panels@[at].path@)
            &&& after.panels@[at].remote_ctx is None
            &&& after.remote_spinner is Some
        },
        message is Ok && focus is Some ==> after.panels@[at].pending_focus == focus,
        message is Err || focus is None ==> after.panels@[at].pending_focus
            == before.panels@[at].pending_focus,
        after.panels@[at].path == before.panels@[at].path,
        f.reload_local == reload,
        !f.close_editor,
{
}

/// The editor is closed after an upload only where what was uploaded is what was saved last
/// and closing was waited for; a failed upload of it is not tried again at once.
pub proof fn law_editor_closes_after_its_last_save(
    before: App,
    after: App,
    at: int,
    ctx: RemoteContext,
    status: RemoteSaveStatus,
    reload: bool,
    reply: Option<EditorReply>,
    f: SpinnerFollowUp,
)
    requires
        0 <= at < before.panels@.len(),
        after_save(before, after, at, ctx, status, reload, reply, f),
    ensures
        f.close_editor <==> {
            &&& before.editor_state is Some
            &&& reply matches Some(r)
            &&& r.is_current
            &&& r.closes
        },
        f.retry_upload <==> !(before.editor_state is Some && reply is Some && reply->0.is_current
            && status is Failed),
        f.reload_local <==> reload && !(status is Failed),
        !f.reload_local ==> after.panels@[at].remote_ctx == Some(ctx),
{
}

/// A save that went through is told as saved, one that failed as failed; where a newer save
/// waits that is told, too.
pub proof fn law_save_is_told(status: RemoteSaveStatus, reply: Option<EditorReply>)
    ensures
        status is Complete && reply is None ==> save_text(status, reply)
            == "Saved & uploaded to remote!"@ && save_timer(status, reply) == 30,
        status matches RemoteSaveStatus::Failed(error) ==> reply is None ==> save_text(status, reply)
            == "Error: Saved locally, upload failed: "@ + error@,
        !(status is Complete) ==> save_timer(status, reply) == 50,
        reply is Some && !reply->0.is_current && reply->0.dirty && status is Complete ==> save_text(
            status,
            reply,
        ) == "Previous upload finished; latest local save still needs upload"@,
        reply is Some && (reply->0.is_current || !reply->0.dirty) ==> save_text(status, reply)
            == save_text(status, None),
{
}

/// A remote directory that was read is shown with nothing marked, under its path, with the
/// session connected; one that could not be read leads back to the path before, with the
/// error told.
pub proof fn law_remote_directory_is_shown(
    before: App,
    after: App,
    at: int,
    ctx: RemoteContext,
    entries: Result<Vec<SftpFileEntry>, String>,
    path: Seq<char>,
    old_path: Option<String>,
    now: FileTime,
)
    requires
        0 <= at < before.panels@.len(),
        after_listing(before, after, at, ctx, entries, path, old_path, now),
    ensures
        ({
            let panel = after.panels@[at];
            &&& panel.remote_ctx matches Some(held)
            &&& held.profile == ctx.profile
            &&& entries is Ok ==> {
                &&& held.status is Connected
                &&& panel.path@ == path
                &&& panel.selected_files@ == Set::<Seq<char>>::empty()
                &&& panel.files@.len() == entries->Ok_0@.len() + if normalized(path) == "/"@ {
                    0int
                } else {
                    1int
                }
            }
            &&& entries matches Err(error) ==> {
                &&& held.status == ConnectionStatus::Disconnected(error)
                &&& old_path matches Some(previous) ==> panel.path == previous
                &&& old_path is None ==> panel.path == before.panels@[at].path
                &&& panel.files == before.panels@[at].files
                &&& after.message is Some
                &&& after.message->0@ == "Error: "@ + error@
            }
        }),
        forall|k: int|
            0 <= k < before.panels@.len() && k != at ==> (#[trigger] after.panels@[k])
                == before.panels@[k],
{
    if let Ok(list) = entries {
        law_listing_holds_the_items(
            after.panels@[at].files@,
            normalized(path) != "/"@,
            now,
            line_values(list@),
            before.panels@[at].sort_by,
            before.panels@[at].sort_order,
        );
        let items = line_values(list@);
        law_sorting_keeps_the_lines(
            items,
            before.panels@[at].sort_by,
            before.panels@[at].sort_order,
        );
    }
}

/// A new connection shows its directory, and adds its profile and its bookmark exactly where
/// they are not known yet; what was set before is kept while that is saved.
pub proof fn law_new_connection_is_remembered(
    before: App,
    after: App,
    at: int,
    success: ConnectSuccess,
    known: KnownEndpoint,
    now: FileTime,
    report: Option<ConnectionReport>,
)
    requires
        0 <= at < before.panels@.len(),
        after_connection(before, after, at, success, known, now, report),
    ensures
        after.panels@[at].path@ == success.path@,
        after.panels@[at].remote_ctx is Some,
        after.panels@[at].remote_ctx->0.profile == success.ctx.profile,
        after.panels@[at].remote_ctx->0.status is Connected,
        known.has_profile ==> after.settings.remote_profiles@ == before.settings.remote_profiles@,
        !known.has_profile ==> after.settings.remote_profiles@.last() == success.profile
            && after.settings.remote_profiles@.len() == before.settings.remote_profiles@.len() + 1,
        known.bookmarked ==> after.settings.bookmarked_path@ == before.settings.bookmarked_path@,
        !known.bookmarked ==> after.settings.bookmarked_path@.last() == known.bookmark,
        report is Some,
        report->0.previous is None <==> known.has_profile && known.bookmarked,
        report->0.user == success.profile.user,
        report->0.host == success.profile.host,
        after.settings.theme_name == before.settings.theme_name,
{
}

/// The session that is used to read again is that of the last panel with one.
pub proof fn law_last_session_is_used(panels: Seq<PanelState>)
    ensures
        last_session(panels) < 0 <==> forall|i: int|
            0 <= i < panels.len() ==> (#[trigger] panels[i]).remote_ctx is None,
        last_session(panels) >= 0 ==> {
            let at = last_session(panels);
            &&& at < panels.len()
            &&& panels[at].remote_ctx is Some
            &&& forall|i: int| at < i < panels.len() ==> (#[trigger] panels[i]).remote_ctx is None
        },
    decreases panels.len(),
{
    if panels.len() > 0 && panels.last().remote_ctx is None {
        let rest = panels.drop_last();
        law_last_session_is_used(rest);
        assert(panels[panels.len() - 1] == panels.last());
        assert forall|i: int| 0 <= i < rest.len() implies (#[trigger] rest[i]) == panels[i] by {}
        if last_session(rest) >= 0 {
            let at = last_session(rest);
            assert(rest[at] == panels[at]);
            assert forall|i: int| at < i < panels.len() implies (#[trigger] panels[i]).remote_ctx is None by {
                if i < rest.len() {
                    assert(rest[i].remote_ctx is None);
                }
            }
        } else {
            assert forall|i: int| 0 <= i < panels.len() implies (#[trigger] panels[i]).remote_ctx is None by {
                if i < rest.len() {
                    assert(rest[i].remote_ctx is None);
                }
            }
        }
    } else if panels.len() > 0 {
        assert(panels[panels.len() - 1] == panels.last());
    }
}

/// Reading all panels again takes every mark away and changes no path and no line.
pub proof fn law_reading_again_takes_the_marks(
    before: App,
    after: App,
    list: Option<ListJob>,
    i: int,
)
    requires
        all_refreshed(before, after, list),
        0 <= i < before.panels@.len(),
    ensures
        after.panels@[i].selected_files@ == Set::<Seq<char>>::empty(),
        after.panels@[i].path == before.panels@[i].path,
        after.panels@[i].files == before.panels@[i].files,
        list is Some <==> before.remote_spinner is None && exists|k: int|
            0 <= k < before.panels@.len() && (#[trigger] before.panels@[k]).remote_ctx is Some,
        list matches Some(job) ==> before.panels@[job.panel_idx as int].remote_ctx == Some(job.ctx),
{
    law_last_session_is_used(before.panels@);
    let at = last_session(before.panels@);
    if at >= 0 {
        assert(before.panels@[at].remote_ctx is Some);
    }
}

/// When the session is lost an editor that waited to be closed asks again instead of closing.
pub proof fn law_lost_session_keeps_the_editor(link: EditorLink)
    ensures
        after_loss(None) is None,
        after_loss(Some(link)) is Some,
        link.pending_close_after_remote_save is Some ==> {
            let now = after_loss(Some(link))->0;
            &&& now.pending_close_after_remote_save is None
            &&& now.exit_confirm_open
            &&& now.remote_dirty == link.remote_dirty
            &&& now.file_path == link.file_path
        },
        link.pending_close_after_remote_save is None ==> after_loss(Some(link)) == Some(link),
{
}

/// What a search found is shown from its top; where nothing was found that is told.
pub proof fn law_search_results_are_shown(
    before: App,
    after: App,
    results: Seq<SearchResultItem>,
    search_term: String,
    base_path: String,
)
    requires
        after_search(before, after, results, search_term, base_path),
    ensures
        results.len() > 0 ==> {
            &&& after.current_screen == Screen::SearchResult
            &&& after.search_result_state.results@ == results
            &&& after.search_result_state.selected_index == 0
            &&& after.search_result_state.active
            &&& after.search_result_state.search_term == search_term
            &&& after.search_result_state.base_path == base_path
        },
        results.len() == 0 ==> after.current_screen == before.current_screen
            && after.search_result_state == before.search_result_state,
{
}

/// Work on this machine is told by its own words, a failure with no word before it, and the
/// panels are read again exactly where the work asks for it.
pub proof fn law_local_work_is_told(
    before: App,
    after: App,
    text: String,
    reload: bool,
    f: SpinnerFollowUp,
)
    ensures
        after_local(before, after, Ok(text), reload, f) ==> optional_text(after.message) == Some(
            text@,
        ) && f.reload_local == reload,
        after_local(before, after, Err(text), reload, f) ==> optional_text(after.message) == Some(
            text@,
        ) && f.reload_local == reload,
        after_local(before, after, Err(text), false, f) ==> after.panels == before.panels
            && f.list is None,
{
}

/// A connection is told by user and host unless something else is to be said of it; that its
/// profile may not be kept is said exactly where saving was tried and failed.
pub proof fn law_connection_is_told(
    report: ConnectionReport,
    save: Result<(), String>,
    reloaded: bool,
)
    ensures
        save is Ok || report.previous is None ==> connection_text(report, save, reloaded)
            == match report.fallback_msg {
            Some(text) => text@,
            None => "Connected to "@ + report.user@ + "@"@ + report.host@,
        },
        save is Err && report.previous is Some ==> {
            let told = connection_text(report, save, reloaded);
            &&& if reloaded {
                "; effective settings were reloaded from disk"@.is_suffix_of(told)
            } else {
                "; disk could not be reread; the last known settings were restored"@.is_suffix_of(
                    told,
                )
            }
            &&& report.fallback_msg matches Some(text) ==> text@.is_prefix_of(told)
            &&& report.fallback_msg is None ==> "Connected to "@.is_prefix_of(told)
        },
{
    if save is Err && report.previous is Some {
        let told = connection_text(report, save, reloaded);
        let tail = if reloaded {
            "; effective settings were reloaded from disk"@
        } else {
            "; disk could not be reread; the last known settings were restored"@
        };
        let who = "Connected to "@ + report.user@ + "@"@ + report.host@;
        let head = match report.fallback_msg {
            Some(text) => text@
                + "\n\nConnected, but could not confirm durable saving of the remote profile or bookmark: "@,
            None => who + ", but could not confirm durable saving of the profile or bookmark: "@,
        };
        assert(told =~= head + save->Err_0@ + tail);
    }
}

} // verus!
