//! Pasting: what a paste comes to, from the clipboard and the panel to the job
//! that a worker is given.

use crate::app_state::{says, App};
use crate::authorization::{
    pathed_views, DirectoryAuthorization, PathAuthorization, PathedAuthorization,
};
use crate::clipboard::{
    copy_texts, keep_names, kept, law_flagged_files_are_kept, listed, source_root,
};
use crate::dialogs::{
    dialog_view, plain_dialog, Clipboard, ClipboardOperation, Conflict, ConflictState, Dialog,
    DialogType,
};
use crate::paths::{begins_with, components, join_path, joined_path, path_starts_with, same_path};
use crate::progress::{fresh_operation, FileOperationProgress, FileOperationType, OperationView};
use crate::remote_connect::RemoteProfile;
use crate::remote_path::{normalized, normalized_remote_path};
use crate::settings::{move_verification_policy, verification_of, MoveVerification};
use crate::text::{concat2, concat3};
use vstd::prelude::*;

verus! {

/// Which way a transfer goes.
#[derive(Debug, Clone, Copy, PartialEq, Eq, Structural)]
pub enum TransferDirection {
    LocalToRemote,
    RemoteToLocal,
}

/// A transfer between this machine and a remote one.
#[derive(Debug)]
pub struct TransferJob {
    pub direction: TransferDirection,
    pub profile: RemoteProfile,
    pub source_files: Vec<String>,
    pub source_base: String,
    pub target_path: String,
    pub local_sources: Vec<PathedAuthorization>,
    pub local_source_directory: Option<DirectoryAuthorization>,
    pub local_target_directory: Option<DirectoryAuthorization>,
}

/// A transfer between two remote machines.
#[derive(Debug)]
pub struct RelayJob {
    pub source: RemoteProfile,
    pub target: RemoteProfile,
    pub source_files: Vec<String>,
    pub source_base: String,
    pub target_path: String,
}

/// What a paste asks for.
#[derive(Debug)]
pub enum PasteRequest {
    /// Nothing more is to be done.
    Done,
    Relay(RelayJob),
    Transfer(TransferJob),
    /// A download needs to know the directory that it goes to.
    AskTarget(String),
    /// A paste on this machine needs to know its two directories.
    AskLocal { source_path: String, target_path: String },
}

/// What is known of a file that is to be pasted.
#[derive(Debug)]
pub struct SourceFact {
    pub canonical: Option<String>,
    pub is_dir: bool,
}

/// What is known of the two directories of a paste.
#[derive(Debug)]
pub struct PasteFacts {
    pub source_canonical: Option<String>,
    pub target_canonical: Option<String>,
    pub source_exists: bool,
    pub target_is_dir: bool,
    /// One fact for each file of the clipboard.
    pub files: Vec<SourceFact>,
}

/// What a paste on this machine comes to.
#[derive(Debug)]
pub enum PasteLocal {
    Refused,
    /// Source and target are one directory: the files are copied beside
    /// themselves.
    SameFolder,
    /// These files may be pasted.
    Checked(Vec<String>),
}

/// What stands where a file is to go.
#[derive(Debug)]
pub enum DestinationFact {
    Free,
    Taken(PathAuthorization),
    Failed(String),
}

/// A paste on this machine.
#[derive(Debug)]
pub struct LocalPasteJob {
    pub operation: ClipboardOperation,
    pub files: Vec<String>,
    pub source_path: String,
    pub target_path: String,
    /// The sources whose destination may be replaced, and what was seen there.
    pub overwrite: Vec<PathedAuthorization>,
    /// The sources that are left out.
    pub skip: Vec<String>,
    pub target: DirectoryAuthorization,
    pub sources: Vec<PathedAuthorization>,
    pub source_directory: Option<DirectoryAuthorization>,
    pub verification: MoveVerification,
}

/// What a paste with answered questions comes to.
#[derive(Debug)]
pub enum PasteResolution {
    Nothing,
    /// Nothing is left to be pasted; the panels are to be read again.
    AllSkipped,
    Start(LocalPasteJob),
}

/// A file that is already there, as text.
pub struct ConflictView {
    pub source: Seq<char>,
    pub destination: Seq<char>,
    pub name: Seq<char>,
    pub authorization: Option<PathAuthorization>,
}

pub open spec fn conflict_views(list: Seq<Conflict>) -> Seq<ConflictView> {
    Seq::new(
        list.len(),
        |i: int|
            ConflictView {
                source: list[i].source@,
                destination: list[i].destination@,
                name: list[i].name@,
                authorization: list[i].authorization,
            },
    )
}

/// The operation that a clipboard starts.
pub open spec fn operation_of(operation: ClipboardOperation) -> FileOperationType {
    match operation {
        ClipboardOperation::Copy => FileOperationType::Copy,
        ClipboardOperation::Cut => FileOperationType::Move,
    }
}

/// Whether an operation was begun: its progress is shown, and the names that it
/// brings take the cursor when the panel is read again.
pub open spec fn begun(
    before: App,
    after: App,
    operation: OperationView,
    focus: Seq<String>,
) -> bool {
    &&& after == App {
        pending_paste_focus: after.pending_paste_focus,
        file_operation_progress: after.file_operation_progress,
        dialog: after.dialog,
        ..before
    }
    &&& if focus.len() == 0 {
        after.pending_paste_focus == before.pending_paste_focus
    } else {
        after.pending_paste_focus matches Some(names) && names@ == focus
    }
    &&& after.file_operation_progress matches Some(progress) && progress@ == operation
    &&& dialog_view(after.dialog) == Some(
        plain_dialog(DialogType::Progress, Seq::empty(), Seq::empty()),
    )
}

/// A running operation over `total` files.
pub open spec fn running(operation_type: FileOperationType, total: usize) -> OperationView {
    OperationView { is_active: true, total_files: total, ..fresh_operation(operation_type) }
}

/// The files of a clipboard by their paths, with what was seen there.
pub open spec fn bound_paths(clipboard: Clipboard) -> Seq<(Seq<char>, PathAuthorization)> {
    Seq::new(
        clipboard.source_authorizations@.len(),
        |i: int|
            (
                joined_path(source_root(clipboard), clipboard.source_authorizations@[i].name@),
                clipboard.source_authorizations@[i].authorization,
            ),
    )
}

/// The directory that the files of a clipboard are in.
pub fn local_clipboard_source_root(clipboard: &Clipboard) -> (r: &str)
    ensures
        r@ == source_root(*clipboard),
{
    match &clipboard.source_directory_authorization {
        Some(directory) => directory.resolved_path.as_str(),
        None => clipboard.source_path.as_str(),
    }
}

/// The files of a clipboard by their paths, with what was seen there.
pub fn local_clipboard_authorization_map(clipboard: &Clipboard) -> (r: Vec<PathedAuthorization>)
    ensures
        pathed_views(r@) == bound_paths(*clipboard),
{
    let root = local_clipboard_source_root(clipboard);
    let mut r: Vec<PathedAuthorization> = Vec::new();
    let ghost wanted = bound_paths(*clipboard);
    let mut i: usize = 0;
    while i < clipboard.source_authorizations.len()
        invariant
            i <= clipboard.source_authorizations@.len(),
            root@ == source_root(*clipboard),
            wanted == bound_paths(*clipboard),
            pathed_views(r@) == wanted.take(i as int),
        decreases clipboard.source_authorizations@.len() - i,
    {
        let ghost held = r@;
        let item = &clipboard.source_authorizations[i];
        r.push(
            PathedAuthorization {
                path: join_path(root, item.name.as_str()),
                authorization: item.authorization,
            },
        );
        assert(pathed_views(r@) =~= pathed_views(held).push(wanted[i as int]));
        assert(wanted.take(i + 1) =~= wanted.take(i as int).push(wanted[i as int]));
        i += 1;
    }
    assert(wanted.take(i as int) =~= wanted);
    r
}

/// Whether the target of a paste lies in the file that is to be pasted.
pub open spec fn goes_into_itself(target: Option<String>, fact: SourceFact) -> bool {
    fact.is_dir && (target matches Some(t) && (fact.canonical matches Some(c) && begins_with(
        t@,
        c@,
    )))
}

pub open spec fn pasteable(target: Option<String>, facts: Seq<SourceFact>) -> Seq<bool> {
    Seq::new(facts.len(), |i: int| !goes_into_itself(target, facts[i]))
}

/// The last file of which the user is told that it cannot be pasted.
pub open spec fn last_refused(files: Seq<String>, may: Seq<bool>) -> Option<Seq<char>>
    decreases files.len(),
{
    if files.len() == 0 {
        None
    } else if !may.last() {
        Some(files.last()@)
    } else {
        last_refused(files.drop_last(), may.drop_last())
    }
}

/// What the user is told of a file that cannot be pasted.
pub open spec fn into_itself_text(name: Seq<char>) -> Seq<char> {
    "Cannot copy '"@ + name + "' into itself"@
}

/// Whether source and target of a paste are one directory.
pub open spec fn same_folder(source_path: Seq<char>, target_path: Seq<char>, facts: PasteFacts) -> bool {
    match (facts.source_canonical, facts.target_canonical) {
        (Some(a), Some(b)) => components(a@) == components(b@),
        _ => components(source_path) == components(target_path),
    }
}

/// The first place that could not be looked at.
pub open spec fn first_unseen(facts: Seq<DestinationFact>) -> Option<String>
    decreases facts.len(),
{
    if facts.len() == 0 {
        None
    } else {
        match first_unseen(facts.drop_last()) {
            Some(error) => Some(error),
            None => match facts.last() {
                DestinationFact::Failed(error) => Some(error),
                _ => None,
            },
        }
    }
}

/// The files whose place is taken, in order.
pub open spec fn conflicts_of(
    source: Seq<char>,
    target: Seq<char>,
    files: Seq<String>,
    facts: Seq<DestinationFact>,
) -> Seq<ConflictView>
    decreases files.len(),
{
    if files.len() == 0 {
        Seq::empty()
    } else {
        let before = conflicts_of(source, target, files.drop_last(), facts.drop_last());
        match facts.last() {
            DestinationFact::Taken(seen) => before.push(
                ConflictView {
                    source: joined_path(source, files.last()@),
                    destination: joined_path(target, files.last()@),
                    name: files.last()@,
                    authorization: Some(seen),
                },
            ),
            _ => before,
        }
    }
}

proof fn lemma_first_unseen_stays(facts: Seq<DestinationFact>, n: int)
    requires
        0 <= n <= facts.len(),
        first_unseen(facts.take(n)) is Some,
    ensures
        first_unseen(facts) == first_unseen(facts.take(n)),
    decreases facts.len() - n,
{
    if n < facts.len() {
        assert(facts.take(n + 1).drop_last() =~= facts.take(n));
        lemma_first_unseen_stays(facts, n + 1);
    } else {
        assert(facts.take(n) =~= facts);
    }
}

/// The files whose place is taken. `facts` holds what was found at the place of
/// each file; the first place that could not be looked at is the error.
pub fn detect_paste_conflicts(
    source: &str,
    target: &str,
    files: &Vec<String>,
    facts: &Vec<DestinationFact>,
) -> (r: Result<Vec<Conflict>, String>)
    requires
        files@.len() == facts@.len(),
    ensures
        match first_unseen(facts@) {
            Some(error) => r matches Err(e) && e == error,
            None => r matches Ok(list) && conflict_views(list@) == conflicts_of(
                source@,
                target@,
                files@,
                facts@,
            ),
        },
{
    let mut list: Vec<Conflict> = Vec::new();
    let mut i: usize = 0;
    assert(conflict_views(list@) =~= Seq::<ConflictView>::empty());
    while i < files.len()
        invariant
            i <= files@.len(),
            files@.len() == facts@.len(),
            first_unseen(facts@.take(i as int)) is None,
            conflict_views(list@) == conflicts_of(
                source@,
                target@,
                files@.take(i as int),
                facts@.take(i as int),
            ),
        decreases files@.len() - i,
    {
        assert(files@.take(i + 1).drop_last() =~= files@.take(i as int));
        assert(facts@.take(i + 1).drop_last() =~= facts@.take(i as int));
        let ghost held = list@;
        match &facts[i] {
            DestinationFact::Free => {},
            DestinationFact::Failed(error) => {
                proof {
                    lemma_first_unseen_stays(facts@, i + 1);
                }
                return Err(error.clone());
            },
            DestinationFact::Taken(seen) => {
                list.push(
                    Conflict {
                        source: join_path(source, files[i].as_str()),
                        destination: join_path(target, files[i].as_str()),
                        name: files[i].clone(),
                        authorization: Some(*seen),
                    },
                );
                assert(conflict_views(list@) =~= conflict_views(held).push(
                    ConflictView {
                        source: joined_path(source@, files@[i as int]@),
                        destination: joined_path(target@, files@[i as int]@),
                        name: files@[i as int]@,
                        authorization: Some(*seen),
                    },
                ));
            },
        }
        i += 1;
    }
    assert(files@.take(i as int) =~= files@);
    assert(facts@.take(i as int) =~= facts@);
    Ok(list)
}

/// What is said of a move that would take files from or to a remote machine.
pub open spec fn remote_cut_text() -> Seq<char> {
    "Cut involving a remote panel is disabled because the remote source cannot be bound to a race-free snapshot. Copy, verify, then delete the source explicitly."@
}

/// A transfer from this machine to a remote one.
pub open spec fn is_upload(job: TransferJob, clipboard: Clipboard, profile: RemoteProfile, target: Seq<char>) -> bool {
    &&& job.direction == TransferDirection::LocalToRemote
    &&& job.profile == profile
    &&& job.source_files@ == clipboard.files@
    &&& job.source_base == clipboard.source_path
    &&& job.target_path@ == normalized(target)
    &&& pathed_views(job.local_sources@) == bound_paths(clipboard)
    &&& job.local_source_directory == clipboard.source_directory_authorization
    &&& job.local_target_directory is None
}

/// A transfer from a remote machine to this one.
pub open spec fn is_download(job: TransferJob, clipboard: Clipboard, directory: DirectoryAuthorization) -> bool {
    &&& job.direction == TransferDirection::RemoteToLocal
    &&& Some(job.profile) == clipboard.source_remote_profile
    &&& job.source_files@ == clipboard.files@
    &&& job.source_base@ == normalized(clipboard.source_path@)
    &&& job.target_path == directory.resolved_path
    &&& job.local_sources@.len() == 0
    &&& job.local_source_directory is None
    &&& job.local_target_directory == Some(directory)
}

/// A transfer between two remote machines.
pub open spec fn is_relay(job: RelayJob, clipboard: Clipboard, profile: RemoteProfile, target: Seq<char>) -> bool {
    &&& Some(job.source) == clipboard.source_remote_profile
    &&& job.target == profile
    &&& job.source_files@ == clipboard.files@
    &&& job.source_base@ == normalized(clipboard.source_path@)
    &&& job.target_path@ == normalized(target)
}

/// A paste on this machine of `files`.
pub open spec fn is_local_paste(
    job: LocalPasteJob,
    app: App,
    clipboard: Clipboard,
    files: Seq<String>,
    target_path: Seq<char>,
    target: DirectoryAuthorization,
) -> bool {
    &&& job.operation == clipboard.operation
    &&& job.files@ == files
    &&& job.source_path == clipboard.source_path
    &&& job.target_path@ == target_path
    &&& job.target == target
    &&& pathed_views(job.sources@) == bound_paths(clipboard)
    &&& job.source_directory == clipboard.source_directory_authorization
    &&& job.verification == verification_of(app.settings.cross_volume_move_verification)
}

/// The program with a clipboard handed to an operation: a copy stays where it can
/// be pasted again, and a cut waits for the end of its move.
pub open spec fn handed_over(before: App, clipboard: Clipboard) -> App {
    match clipboard.operation {
        ClipboardOperation::Copy => App { clipboard: Some(clipboard), ..before },
        ClipboardOperation::Cut => App { pending_cut_clipboard: Some(clipboard), ..before },
    }
}

/// What asking to paste comes to.
pub open spec fn pastes(
    before: App,
    after: App,
    r: PasteRequest,
) -> bool {
    match before.clipboard {
        None => says(before, after, "Clipboard is empty"@) && r is Done,
        Some(c) => {
            let panel = before.active();
            let from_remote = c.source_remote_profile is Some;
            let to_remote = panel.remote();
            if !from_remote && !to_remote {
                &&& after == before
                &&& r matches PasteRequest::AskLocal { source_path, target_path }
                &&& source_path == c.source_path
                &&& target_path == panel.path
            } else if c.operation == ClipboardOperation::Cut {
                says(before, after, remote_cut_text()) && r is Done
            } else if !to_remote {
                &&& after == before
                &&& r matches PasteRequest::AskTarget(path)
                &&& path == panel.path
            } else {
                match panel.remote_ctx {
                    None => {
                        &&& says(
                            before,
                            after,
                            if from_remote {
                                "Target remote profile not found"@
                            } else {
                                "Remote profile not found"@
                            },
                        )
                        &&& r is Done
                    },
                    Some(context) => {
                        &&& begun(
                            before,
                            after,
                            running(FileOperationType::Copy, c.files@.len() as usize),
                            c.files@,
                        )
                        &&& if from_remote {
                            r matches PasteRequest::Relay(job) && is_relay(
                                job,
                                c,
                                context.profile,
                                panel.path@,
                            )
                        } else {
                            r matches PasteRequest::Transfer(job) && is_upload(
                                job,
                                c,
                                context.profile,
                                panel.path@,
                            )
                        }
                    },
                }
            }
        },
    }
}

/// What a paste from a remote machine comes to.
pub open spec fn downloads(
    before: App,
    after: App,
    target: Result<DirectoryAuthorization, String>,
    r: Option<TransferJob>,
) -> bool {
    match target {
        Err(error) => says(
            before,
            after,
            "Paste target changed before transfer start: "@ + error@,
        ) && r is None,
        Ok(directory) => {
            let c = before.clipboard->0;
            &&& begun(
                before,
                after,
                running(FileOperationType::Copy, c.files@.len() as usize),
                c.files@,
            )
            &&& r matches Some(job)
            &&& is_download(job, c, directory)
        },
    }
}

/// What looking at both directories before a paste comes to.
pub open spec fn looks_before_paste(
    before: App,
    after: App,
    facts: PasteFacts,
    r: PasteLocal,
) -> bool {
    let c = before.clipboard->0;
    let may = pasteable(facts.target_canonical, facts.files@);
    if same_folder(c.source_path@, before.active().path@, facts) {
        if c.operation == ClipboardOperation::Cut {
            says(before, after, "Cannot move files to the same folder"@)
                && r is Refused
        } else {
            after == before && r is SameFolder
        }
    } else if !facts.source_exists {
        says(
            (App { clipboard: None, ..before }),
            after,
            "Source folder no longer exists"@,
        ) && r is Refused
    } else if !facts.target_is_dir {
        says(before, after, "Target is not a valid directory"@)
            && r is Refused
    } else {
        &&& match last_refused(c.files@, may) {
            Some(name) => says(before, after, into_itself_text(name)),
            None => after == before,
        }
        &&& if kept(c.files@, may).len() == 0 {
            r is Refused
        } else {
            r matches PasteLocal::Checked(valid) && valid@ == kept(c.files@, may)
        }
    }
}

/// What a paste of files that were looked at comes to.
pub open spec fn begins_paste(
    before: App,
    after: App,
    valid_files: Vec<String>,
    target: Result<DirectoryAuthorization, String>,
    destinations: Seq<DestinationFact>,
    r: Option<LocalPasteJob>,
) -> bool {
    let c = before.clipboard->0;
    let path = before.active().path;
    match target {
        Err(error) => says(
            before,
            after,
            "Paste target changed before confirmation: "@ + error@,
        ) && r is None,
        Ok(directory) => match first_unseen(destinations) {
            Some(error) => says(
                before,
                after,
                "Could not safely inspect paste conflicts: "@ + error@,
            ) && r is None,
            None => {
                let conflicts = conflicts_of(
                    c.source_path@,
                    path@,
                    valid_files@,
                    destinations,
                );
                if conflicts.len() > 0 {
                    &&& r is None
                    &&& after.conflict_state matches Some(state)
                    &&& after == (App {
                        clipboard: None,
                        conflict_state: Some(state),
                        dialog: after.dialog,
                        ..before
                    })
                    &&& dialog_view(after.dialog) == Some(
                        plain_dialog(
                            DialogType::DuplicateConflict,
                            Seq::empty(),
                            Seq::empty(),
                        ),
                    )
                    &&& conflict_views(state.conflicts@) == conflicts
                    &&& state.current_index == 0
                    &&& state.files_to_overwrite@.len() == 0
                    &&& state.files_to_skip@.len() == 0
                    &&& state.valid_files == valid_files
                    &&& state.clipboard_backup == Some(c)
                    &&& state.target_path == path
                    &&& state.target_authorization == directory
                } else {
                    &&& begun(
                        handed_over((App { clipboard: None, ..before }), c),
                        after,
                        running(operation_of(c.operation), 0),
                        valid_files@,
                    )
                    &&& r matches Some(job)
                    &&& is_local_paste(
                        job,
                        before,
                        c,
                        valid_files@,
                        path@,
                        directory,
                    )
                    &&& job.overwrite@.len() == 0
                    &&& job.skip@.len() == 0
                }
            },
        },
    }
}

impl App {
    /// Shows the progress of an operation, and remembers the names that it brings.
    pub(crate) fn begin_operation(
        &mut self,
        progress: FileOperationProgress,
        focus: &Vec<String>,
    )
        ensures
            begun(*old(self), *final(self), progress@, focus@),
            final(self).file_operation_progress == Some(progress),
    {
        if focus.len() > 0 {
            self.pending_paste_focus = Some(copy_texts(focus));
        }
        self.file_operation_progress = Some(progress);
        let dialog = Dialog::plain(DialogType::Progress, String::new(), String::new());
        assert(dialog@ == plain_dialog(DialogType::Progress, Seq::empty(), Seq::empty()));
        self.dialog = Some(dialog);
    }

    /// Begins to paste the clipboard into the panel with the focus. Where a remote
    /// machine is involved, only copies are made.
    pub fn clipboard_paste(&mut self) -> (r: PasteRequest)
        requires
            old(self).wf(),
        ensures
            pastes(*old(self), *final(self), r),
    {
        let clipboard = match self.clipboard.take() {
            Some(clipboard) => clipboard,
            None => {
                self.show_message("Clipboard is empty");
                return PasteRequest::Done;
            },
        };
        let from_remote = clipboard.source_remote_profile.is_some();
        let to_remote = self.active_panel().is_remote();
        if !from_remote && !to_remote {
            let source_path = clipboard.source_path.clone();
            let target_path = self.active_panel().path.clone();
            self.clipboard = Some(clipboard);
            return PasteRequest::AskLocal { source_path, target_path };
        }
        if clipboard.operation == ClipboardOperation::Cut {
            self.clipboard = Some(clipboard);
            self.show_message(
                "Cut involving a remote panel is disabled because the remote source cannot be bound to a race-free snapshot. Copy, verify, then delete the source explicitly.",
            );
            return PasteRequest::Done;
        }
        if !to_remote {
            let target_path = self.active_panel().path.clone();
            self.clipboard = Some(clipboard);
            return PasteRequest::AskTarget(target_path);
        }
        let profile = match &self.active_panel().remote_ctx {
            Some(context) => context.profile.clone(),
            None => {
                self.clipboard = Some(clipboard);
                if from_remote {
                    self.show_message("Target remote profile not found");
                } else {
                    self.show_message("Remote profile not found");
                }
                return PasteRequest::Done;
            },
        };
        let source_files = copy_texts(&clipboard.files);
        let target_path = normalized_remote_path(self.active_panel().path.as_str());
        let mut progress = FileOperationProgress::new(FileOperationType::Copy);
        progress.is_active = true;
        progress.total_files = source_files.len();
        let request = match &clipboard.source_remote_profile {
            Some(source) => PasteRequest::Relay(
                RelayJob {
                    source: source.clone(),
                    target: profile,
                    source_files,
                    source_base: normalized_remote_path(clipboard.source_path.as_str()),
                    target_path,
                },
            ),
            None => PasteRequest::Transfer(
                TransferJob {
                    direction: TransferDirection::LocalToRemote,
                    profile,
                    source_files,
                    source_base: clipboard.source_path.clone(),
                    target_path,
                    local_sources: local_clipboard_authorization_map(&clipboard),
                    local_source_directory: match &clipboard.source_directory_authorization {
                        Some(directory) => Some(directory.clone()),
                        None => None,
                    },
                    local_target_directory: None,
                },
            ),
        };
        let ghost operation = progress@;
        assert(operation == running(FileOperationType::Copy, clipboard.files@.len() as usize));
        let focus = copy_texts(&clipboard.files);
        self.clipboard = Some(clipboard);
        self.begin_operation(progress, &focus);
        request
    }

    /// Begins a download once the directory that it goes to was looked at.
    pub fn paste_download(&mut self, target: Result<DirectoryAuthorization, String>) -> (r: Option<
        TransferJob,
    >)
        requires
            old(self).clipboard is Some,
            old(self).clipboard->0.source_remote_profile is Some,
            old(self).clipboard->0.operation == ClipboardOperation::Copy,
        ensures
            downloads(*old(self), *final(self), target, r),
    {
        let directory = match target {
            Err(error) => {
                let text = concat2("Paste target changed before transfer start: ", error.as_str());
                self.show_message(text.as_str());
                return None;
            },
            Ok(directory) => directory,
        };
        let mut found: Option<TransferJob> = None;
        let mut focus: Vec<String> = Vec::new();
        if let Some(clipboard) = &self.clipboard {
            if let Some(profile) = &clipboard.source_remote_profile {
                focus = copy_texts(&clipboard.files);
                found = Some(
                    TransferJob {
                        direction: TransferDirection::RemoteToLocal,
                        profile: profile.clone(),
                        source_files: copy_texts(&clipboard.files),
                        source_base: normalized_remote_path(clipboard.source_path.as_str()),
                        target_path: directory.resolved_path.clone(),
                        local_sources: Vec::new(),
                        local_source_directory: None,
                        local_target_directory: Some(directory),
                    },
                );
            }
        }
        let mut progress = FileOperationProgress::new(FileOperationType::Copy);
        progress.is_active = true;
        progress.total_files = focus.len();
        assert(progress@ == running(FileOperationType::Copy, focus@.len() as usize));
        self.begin_operation(progress, &focus);
        found
    }

    /// Decides on a paste on this machine. `facts` is what was found of the two
    /// directories and of each file of the clipboard.
    pub fn paste_local(&mut self, facts: &PasteFacts) -> (r: PasteLocal)
        requires
            old(self).wf(),
            old(self).clipboard is Some,
            facts.files@.len() == old(self).clipboard->0.files@.len(),
        ensures
            looks_before_paste(*old(self), *final(self), *facts, r),
    {
        let clipboard = match self.clipboard.take() {
            Some(clipboard) => clipboard,
            None => {
                return PasteLocal::Refused;
            },
        };
        let same = match (&facts.source_canonical, &facts.target_canonical) {
            (Some(a), Some(b)) => same_path(a.as_str(), b.as_str()),
            _ => same_path(clipboard.source_path.as_str(), self.active_panel().path.as_str()),
        };
        if same {
            let cut = clipboard.operation == ClipboardOperation::Cut;
            self.clipboard = Some(clipboard);
            if cut {
                self.show_message("Cannot move files to the same folder");
                return PasteLocal::Refused;
            }
            return PasteLocal::SameFolder;
        }
        if !facts.source_exists {
            self.show_message("Source folder no longer exists");
            return PasteLocal::Refused;
        }
        if !facts.target_is_dir {
            self.clipboard = Some(clipboard);
            self.show_message("Target is not a valid directory");
            return PasteLocal::Refused;
        }
        let ghost all = pasteable(facts.target_canonical, facts.files@);
        let mut may: Vec<bool> = Vec::new();
        let mut refused: Option<usize> = None;
        let mut i: usize = 0;
        while i < facts.files.len()
            invariant
                i <= facts.files@.len(),
                facts.files@.len() == clipboard.files@.len(),
                all == pasteable(facts.target_canonical, facts.files@),
                may@ == all.take(i as int),
                match refused {
                    Some(at) => at < i && last_refused(
                        clipboard.files@.take(i as int),
                        all.take(i as int),
                    ) == Some(clipboard.files@[at as int]@),
                    None => last_refused(clipboard.files@.take(i as int), all.take(i as int)) is None,
                },
            decreases facts.files@.len() - i,
        {
            let fact = &facts.files[i];
            let inside = match (&facts.target_canonical, &fact.canonical) {
                (Some(target), Some(source)) => fact.is_dir && path_starts_with(
                    target.as_str(),
                    source.as_str(),
                ),
                _ => false,
            };
            may.push(!inside);
            if inside {
                refused = Some(i);
            }
            assert(all.take(i + 1) =~= all.take(i as int).push(all[i as int]));
            assert(all.take(i + 1).drop_last() =~= all.take(i as int));
            assert(clipboard.files@.take(i + 1).drop_last() =~= clipboard.files@.take(i as int));
            i += 1;
        }
        assert(all.take(i as int) =~= all);
        assert(clipboard.files@.take(i as int) =~= clipboard.files@);
        let valid = keep_names(&clipboard.files, &may);
        if let Some(at) = refused {
            let text = concat3("Cannot copy '", clipboard.files[at].as_str(), "' into itself");
            self.show_message(text.as_str());
        }
        self.clipboard = Some(clipboard);
        if valid.len() == 0 {
            return PasteLocal::Refused;
        }
        PasteLocal::Checked(valid)
    }

    /// Asks the user about files that are already there.
    pub fn show_duplicate_conflict_dialog(&mut self)
        ensures
            *final(self) == (App { dialog: final(self).dialog, ..*old(self) }),
            dialog_view(final(self).dialog) == Some(
                plain_dialog(DialogType::DuplicateConflict, Seq::empty(), Seq::empty()),
            ),
    {
        let dialog = Dialog::plain(DialogType::DuplicateConflict, String::new(), String::new());
        assert(dialog@ == plain_dialog(DialogType::DuplicateConflict, Seq::empty(), Seq::empty()));
        self.dialog = Some(dialog);
    }

    /// Goes on with a paste on this machine once the target and the places of the
    /// files were looked at: the user is asked about the files that are already
    /// there, and without any the paste begins.
    pub fn paste_checked(
        &mut self,
        valid_files: Vec<String>,
        target: Result<DirectoryAuthorization, String>,
        destinations: &Vec<DestinationFact>,
    ) -> (r: Option<LocalPasteJob>)
        requires
            old(self).wf(),
            old(self).clipboard is Some,
            target is Ok ==> destinations@.len() == valid_files@.len(),
        ensures
            begins_paste(*old(self), *final(self), valid_files, target, destinations@, r),
    {
        let directory = match target {
            Err(error) => {
                let text = concat2("Paste target changed before confirmation: ", error.as_str());
                self.show_message(text.as_str());
                return None;
            },
            Ok(directory) => directory,
        };
        let clipboard = match self.clipboard.take() {
            Some(clipboard) => clipboard,
            None => {
                return None;
            },
        };
        let target_path = self.active_panel().path.clone();
        match detect_paste_conflicts(
            clipboard.source_path.as_str(),
            target_path.as_str(),
            &valid_files,
            destinations,
        ) {
            Err(error) => {
                self.clipboard = Some(clipboard);
                let text = concat2("Could not safely inspect paste conflicts: ", error.as_str());
                self.show_message(text.as_str());
                None
            },
            Ok(conflicts) => {
                assert(conflict_views(conflicts@).len() == conflicts@.len());
                if conflicts.len() > 0 {
                    self.conflict_state = Some(
                        ConflictState {
                            conflicts,
                            current_index: 0,
                            files_to_overwrite: Vec::new(),
                            files_to_skip: Vec::new(),
                            valid_files,
                            clipboard_backup: Some(clipboard),
                            target_path,
                            target_authorization: directory,
                        },
                    );
                    self.show_duplicate_conflict_dialog();
                    None
                } else {
                    Some(
                        self.execute_paste_operation(
                            clipboard,
                            valid_files,
                            target_path,
                            directory,
                        ),
                    )
                }
            },
        }
    }

    /// Begins a paste on this machine of files whose places are free.
    pub fn execute_paste_operation(
        &mut self,
        clipboard: Clipboard,
        valid_files: Vec<String>,
        target_path: String,
        target_authorization: DirectoryAuthorization,
    ) -> (job: LocalPasteJob)
        ensures
            begun(
                handed_over(*old(self), clipboard),
                *final(self),
                running(operation_of(clipboard.operation), 0),
                valid_files@,
            ),
            is_local_paste(
                job,
                *old(self),
                clipboard,
                valid_files@,
                target_path@,
                target_authorization,
            ),
            job.overwrite@.len() == 0,
            job.skip@.len() == 0,
    {
        let operation_type = match clipboard.operation {
            ClipboardOperation::Copy => FileOperationType::Copy,
            ClipboardOperation::Cut => FileOperationType::Move,
        };
        let mut progress = FileOperationProgress::new(operation_type);
        progress.is_active = true;
        assert(progress@ == running(operation_type, 0));
        let job = self.paste_job(
            &clipboard,
            copy_texts(&valid_files),
            target_path,
            target_authorization,
        );
        self.hand_over(clipboard);
        self.begin_operation(progress, &valid_files);
        job
    }

    pub(crate) fn paste_job(
        &self,
        clipboard: &Clipboard,
        files: Vec<String>,
        target_path: String,
        target: DirectoryAuthorization,
    ) -> (job: LocalPasteJob)
        ensures
            is_local_paste(job, *self, *clipboard, files@, target_path@, target),
            job.overwrite@.len() == 0,
            job.skip@.len() == 0,
    {
        LocalPasteJob {
            operation: clipboard.operation,
            files,
            source_path: clipboard.source_path.clone(),
            target_path,
            overwrite: Vec::new(),
            skip: Vec::new(),
            target,
            sources: local_clipboard_authorization_map(clipboard),
            source_directory: match &clipboard.source_directory_authorization {
                Some(directory) => Some(directory.clone()),
                None => None,
            },
            verification: move_verification_policy(self.settings.cross_volume_move_verification),
        }
    }

    pub(crate) fn hand_over(&mut self, clipboard: Clipboard)
        ensures
            *final(self) == handed_over(*old(self), clipboard),
    {
        if clipboard.operation == ClipboardOperation::Cut {
            self.pending_cut_clipboard = Some(clipboard);
        } else {
            self.clipboard = Some(clipboard);
        }
    }
}

/// What is pasted goes from where the clipboard was filled to the panel with the focus:
/// within this machine after looking at both directories, to a remote machine as an upload,
/// from one after looking at the target, between two by way of this one. Nothing that was
/// cut goes to or from a remote machine.
pub proof fn law_paste_goes_to_the_panel(before: App, after: App, r: PasteRequest)
    requires
        before.wf(),
        pastes(before, after, r),
        before.clipboard is Some,
    ensures
        ({
            let c = before.clipboard->0;
            let panel = before.active();
            let from_remote = c.source_remote_profile is Some;
            &&& !from_remote && !panel.remote() <==> r is AskLocal
            &&& r matches PasteRequest::AskLocal { source_path, target_path } ==> source_path
                == c.source_path && target_path == panel.path
            &&& c.operation == ClipboardOperation::Cut && (from_remote || panel.remote())
                ==> r is Done
            &&& r matches PasteRequest::AskTarget(path) ==> from_remote && !panel.remote() && path
                == panel.path
            &&& r matches PasteRequest::Transfer(job) ==> {
                &&& !from_remote
                &&& panel.remote_ctx is Some
                &&& job.direction == TransferDirection::LocalToRemote
                &&& job.profile == panel.remote_ctx->0.profile
                &&& job.source_base == c.source_path
                &&& job.target_path@ == normalized(panel.path@)
                &&& job.source_files@ == c.files@
            }
            &&& r matches PasteRequest::Relay(job) ==> {
                &&& from_remote
                &&& panel.remote_ctx is Some
                &&& Some(job.source) == c.source_remote_profile
                &&& job.target == panel.remote_ctx->0.profile
                &&& job.source_base@ == normalized(c.source_path@)
                &&& job.target_path@ == normalized(panel.path@)
                &&& job.source_files@ == c.files@
            }
            &&& c.operation == ClipboardOperation::Copy && panel.remote_ctx is Some ==> if from_remote {
                r is Relay
            } else {
                r is Transfer
            }
            &&& c.operation == ClipboardOperation::Copy && from_remote && !panel.remote()
                ==> r is AskTarget
            &&& after.clipboard == before.clipboard
        }),
{
}

/// A download brings the files of the clipboard from their machine into the directory that
/// was seen, and is shown while it goes on.
pub proof fn law_download_goes_into_the_directory_seen(
    before: App,
    after: App,
    target: Result<DirectoryAuthorization, String>,
    r: Option<TransferJob>,
)
    requires
        before.clipboard is Some,
        before.clipboard->0.source_remote_profile is Some,
        downloads(before, after, target, r),
    ensures
        r is Some <==> target is Ok,
        r matches Some(job) ==> {
            let c = before.clipboard->0;
            &&& job.direction == TransferDirection::RemoteToLocal
            &&& Some(job.profile) == c.source_remote_profile
            &&& job.source_files@ == c.files@
            &&& job.source_base@ == normalized(c.source_path@)
            &&& job.target_path == target->Ok_0.resolved_path
            &&& job.local_target_directory == Some(target->Ok_0)
            &&& after.file_operation_progress is Some
            &&& after.file_operation_progress->0@.operation_type == FileOperationType::Copy
            &&& after.file_operation_progress->0@.is_active
        },
        r is None ==> after.file_operation_progress == before.file_operation_progress,
{
}

/// A directory is never pasted into itself or below itself; every other file may be.
pub proof fn law_no_directory_goes_into_itself(
    before: App,
    after: App,
    facts: PasteFacts,
    r: PasteLocal,
    i: int,
)
    requires
        before.clipboard is Some,
        facts.files@.len() == before.clipboard->0.files@.len(),
        looks_before_paste(before, after, facts, r),
        0 <= i < facts.files@.len(),
        forall|j: int|
            0 <= j < facts.files@.len() && j != i ==> (#[trigger] before.clipboard->0.files@[j])@
                != before.clipboard->0.files@[i]@,
    ensures
        r matches PasteLocal::Checked(valid) ==> {
            let fact = facts.files@[i];
            let into_itself = fact.is_dir && facts.target_canonical is Some && fact.canonical is Some
                && begins_with(facts.target_canonical->0@, fact.canonical->0@);
            &&& listed(valid@, before.clipboard->0.files@[i]@) <==> !into_itself
            &&& facts.source_exists
            &&& facts.target_is_dir
            &&& valid@.len() > 0
        },
{
    let c = before.clipboard->0;
    let may = pasteable(facts.target_canonical, facts.files@);
    let name = c.files@[i]@;
    law_flagged_files_are_kept(c.files@, may, name);
    if exists|j: int| 0 <= j < c.files@.len() && #[trigger] may[j] && c.files@[j]@ == name {
        let j = choose|j: int| 0 <= j < c.files@.len() && #[trigger] may[j] && c.files@[j]@ == name;
        assert(j == i);
    }
    if may[i] {
        assert(may[i] && c.files@[i]@ == name);
    }
}

/// Files are not moved to where they are, but copies of them can be made there.
pub proof fn law_same_folder_takes_copies_only(
    before: App,
    after: App,
    facts: PasteFacts,
    r: PasteLocal,
)
    requires
        before.wf(),
        before.clipboard is Some,
        facts.files@.len() == before.clipboard->0.files@.len(),
        looks_before_paste(before, after, facts, r),
    ensures
        ({
            let same = match (facts.source_canonical, facts.target_canonical) {
                (Some(a), Some(b)) => components(a@) == components(b@),
                _ => components(before.clipboard->0.source_path@) == components(
                    before.active().path@,
                ),
            };
            &&& r is SameFolder <==> same && before.clipboard->0.operation
                == ClipboardOperation::Copy
            &&& same && before.clipboard->0.operation == ClipboardOperation::Cut ==> r is Refused
            &&& !same && !facts.source_exists ==> r is Refused && after.clipboard is None
            &&& !same && facts.source_exists && !facts.target_is_dir ==> r is Refused
                && after.clipboard == before.clipboard
        }),
{
}

/// A file is in conflict exactly where its destination is taken, under its own name on both
/// sides and with what was seen there.
pub proof fn law_taken_destinations_are_conflicts(
    source: Seq<char>,
    target: Seq<char>,
    files: Seq<String>,
    facts: Seq<DestinationFact>,
    c: ConflictView,
)
    requires
        files.len() == facts.len(),
    ensures
        conflicts_of(source, target, files, facts).contains(c) <==> exists|i: int|
            0 <= i < files.len() && (#[trigger] facts[i]) is Taken && c.name == files[i]@ && c.source
                == joined_path(source, c.name) && c.destination == joined_path(target, c.name)
                && c.authorization == Some(facts[i]->Taken_0),
        conflicts_of(source, target, files, facts).len() == 0 <==> forall|i: int|
            0 <= i < files.len() ==> !((#[trigger] facts[i]) is Taken),
    decreases files.len(),
{
    if files.len() > 0 {
        let rest = files.drop_last();
        let less = facts.drop_last();
        law_taken_destinations_are_conflicts(source, target, rest, less, c);
        let before = conflicts_of(source, target, rest, less);
        let now = conflicts_of(source, target, files, facts);
        let last = files.len() - 1;
        assert(facts[last] == facts.last());
        if before.contains(c) {
            let k = choose|k: int| 0 <= k < before.len() && before[k] == c;
            assert(now[k] == c);
            let i = choose|i: int|
                0 <= i < rest.len() && (#[trigger] less[i]) is Taken && c.name == rest[i]@
                    && c.source == joined_path(source, c.name) && c.destination == joined_path(
                    target,
                    c.name,
                ) && c.authorization == Some(less[i]->Taken_0);
            assert(facts[i] is Taken && c.name == files[i]@);
        }
        if now.contains(c) && !before.contains(c) {
            let k = choose|k: int| 0 <= k < now.len() && now[k] == c;
            if k < before.len() {
                assert(before[k] == c);
            }
            assert(facts[last] is Taken && c.name == files[last]@);
        }
        if exists|i: int|
            0 <= i < files.len() && (#[trigger] facts[i]) is Taken && c.name == files[i]@ && c.source
                == joined_path(source, c.name) && c.destination == joined_path(target, c.name)
                && c.authorization == Some(facts[i]->Taken_0) {
            let i = choose|i: int|
                0 <= i < files.len() && (#[trigger] facts[i]) is Taken && c.name == files[i]@
                    && c.source == joined_path(source, c.name) && c.destination == joined_path(
                    target,
                    c.name,
                ) && c.authorization == Some(facts[i]->Taken_0);
            if i < last {
                assert(less[i] is Taken && c.name == rest[i]@);
            } else {
                assert(now[now.len() - 1] == c);
            }
        }
        if now.len() == 0 {
            assert forall|i: int| 0 <= i < files.len() implies !((#[trigger] facts[i]) is Taken) by {
                if i < last {
                    assert(less[i] == facts[i]);
                }
            }
        }
        if forall|i: int| 0 <= i < files.len() ==> !((#[trigger] facts[i]) is Taken) {
            assert forall|i: int| 0 <= i < rest.len() implies !((#[trigger] less[i]) is Taken) by {
                assert(!(facts[i] is Taken));
            }
        }
    }
}

/// A paste begins only where the target was seen and no destination is taken; with one taken
/// it is asked about all of them first. Nothing is replaced or skipped that was not asked
/// about. What was cut waits for its end, what was copied stays in the clipboard.
pub proof fn law_paste_begins_without_conflicts(
    before: App,
    after: App,
    valid_files: Vec<String>,
    target: Result<DirectoryAuthorization, String>,
    destinations: Seq<DestinationFact>,
    r: Option<LocalPasteJob>,
)
    requires
        before.wf(),
        before.clipboard is Some,
        target is Ok ==> destinations.len() == valid_files@.len(),
        begins_paste(before, after, valid_files, target, destinations, r),
    ensures
        r is Some ==> {
            &&& target is Ok
            &&& forall|i: int|
                0 <= i < destinations.len() ==> !((#[trigger] destinations[i]) is Taken)
        },
        r matches Some(job) ==> {
            let c = before.clipboard->0;
            &&& job.operation == c.operation
            &&& job.files@ == valid_files@
            &&& job.source_path == c.source_path
            &&& job.target_path@ == before.active().path@
            &&& job.target == target->Ok_0
            &&& job.overwrite@.len() == 0
            &&& job.skip@.len() == 0
            &&& c.operation == ClipboardOperation::Cut ==> after.pending_cut_clipboard == Some(c)
                && after.clipboard is None
            &&& c.operation == ClipboardOperation::Copy ==> after.clipboard == Some(c)
                && after.pending_cut_clipboard == before.pending_cut_clipboard
            &&& after.file_operation_progress is Some
            &&& after.file_operation_progress->0@.operation_type == if c.operation
                == ClipboardOperation::Cut {
                FileOperationType::Move
            } else {
                FileOperationType::Copy
            }
        },
        r is None && target is Ok && first_unseen(destinations) is None ==> {
            &&& after.conflict_state matches Some(state)
            &&& state.conflicts@.len() > 0
            &&& state.clipboard_backup == before.clipboard
            &&& state.target_path == before.active().path
            &&& state.target_authorization == target->Ok_0
            &&& state.valid_files == valid_files
            &&& after.clipboard is None
        },
{
    if target is Ok && first_unseen(destinations) is None {
        let c = before.clipboard->0;
        let any = ConflictView {
            source: Seq::empty(),
            destination: Seq::empty(),
            name: Seq::empty(),
            authorization: None,
        };
        law_taken_destinations_are_conflicts(
            c.source_path@,
            before.active().path@,
            valid_files@,
            destinations,
            any,
        );
        if r is None {
            let state = after.conflict_state->0;
            assert(conflict_views(state.conflicts@).len() == state.conflicts@.len());
        }
    }
}

/// What was seen of each file is bound to its path below the directory of the clipboard.
pub proof fn law_sources_are_bound_to_their_paths(clipboard: Clipboard, i: int)
    requires
        0 <= i < clipboard.source_authorizations@.len(),
    ensures
        bound_paths(clipboard).len() == clipboard.source_authorizations@.len(),
        bound_paths(clipboard)[i].1 == clipboard.source_authorizations@[i].authorization,
        clipboard.source_directory_authorization matches Some(directory) ==> bound_paths(
            clipboard,
        )[i].0 == joined_path(
            directory.resolved_path@,
            clipboard.source_authorizations@[i].name@,
        ),
        clipboard.source_directory_authorization is None ==> bound_paths(clipboard)[i].0
            == joined_path(clipboard.source_path@, clipboard.source_authorizations@[i].name@),
{
}

} // verus!
