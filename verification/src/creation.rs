//! Making directories and files, and renaming.

use crate::app_state::{says, App, PendingRenameOperation, RemoteSpinner};
use crate::authorization::{DirectoryAuthorization, PathAuthorization};
use crate::dialogs::{dialog_view, Dialog, DialogType, DialogView};
use crate::panel::{PanelState, RemoteContext};
use crate::paths::{
    begins_with, is_plain_name, join_path, joined_path, law_joined_name_is_found_again,
    lemma_last_position, local_name, path_starts_with,
};
use crate::remote_connect::optional_text;
use crate::remote_ops::ListJob;
use crate::remote_path::{child, normalized_remote_child_path, plain_name};
use crate::spinner::{all_refreshed, PanelOpOutcome};
use crate::text::{
    chars_of, concat2, concat3, concat4, find_last, join_texts, joined, last_position, same_text,
    slice_of, views,
};
use vstd::prelude::*;

verus! {

/// What making a directory or a file comes to.
#[derive(Debug)]
pub enum CreateStart {
    Refused,
    /// The session of the panel is lent to the work.
    Remote { ctx: RemoteContext, panel_idx: usize, remote_path: String },
    /// The local path is to be made.
    Local { path: String },
}

/// Why a file could not be made.
#[derive(Debug)]
pub enum CreateError {
    AlreadyExists,
    Other(String),
}

/// What renaming comes to.
#[derive(Debug)]
pub enum RenameStart {
    Nothing,
    /// The session of the panel is lent to the work.
    Remote { ctx: RemoteContext, panel_index: usize, old_path: String, new_path: String },
    Local {
        panel_index: usize,
        old_path: String,
        new_path: String,
        source: PathAuthorization,
        directory: DirectoryAuthorization,
    },
}

/// Whether the making of an entry was begun.
pub open spec fn begins_making(
    before: App,
    after: App,
    name: Seq<char>,
    name_check: Result<(), String>,
    busy_text: Seq<char>,
    r: CreateStart,
) -> bool {
    let at = before.active_panel_index as int;
    let panel = before.active();
    if name_check is Err {
        says(before, after, "Error: "@ + name_check->Err_0@) && r is Refused
    } else if !panel.remote() {
        &&& after == before
        &&& r matches CreateStart::Local { path } && path@ == joined_path(panel.path@, name)
    } else if before.remote_spinner is Some || panel.remote_ctx is None {
        after == before && r is Refused
    } else if !plain_name(name) {
        says(before, after, "Remote entry has an unsafe or ambiguous name"@) && r is Refused
    } else {
        &&& after == App {
            panels: after.panels,
            remote_spinner: after.remote_spinner,
            ..before
        }
        &&& after.panels@ == before.panels@.update(at, PanelState { remote_ctx: None, ..panel })
        &&& after.remote_spinner matches Some(spinner) && spinner.message@ == busy_text
        &&& r matches CreateStart::Remote { ctx, panel_idx, remote_path }
        &&& Some(ctx) == panel.remote_ctx
        &&& panel_idx == at
        &&& remote_path@ == child(panel.path@, name)
    }
}

/// What a remote panel is told of an entry that was made or renamed.
pub open spec fn is_made(outcome: PanelOpOutcome, head: Seq<char>, name: Seq<char>, result: Result<
    (),
    String,
>) -> bool {
    outcome matches PanelOpOutcome::Simple { message, pending_focus, reload } && {
        &&& reload
        &&& optional_text(pending_focus) == Some(name)
        &&& match result {
            Ok(_) => message matches Ok(text) && text@ == head + name,
            Err(error) => message == Err::<String, String>(error),
        }
    }
}

/// What a remote panel is told of an entry that was made or renamed; `head` says
/// what was done to it.
pub fn remote_made(head: &str, name: &str, result: Result<(), String>) -> (r: PanelOpOutcome)
    ensures
        is_made(r, head@, name@, result),
{
    let message = match result {
        Ok(_) => Ok(concat2(head, name)),
        Err(error) => Err(error),
    };
    PanelOpOutcome::Simple { message, pending_focus: Some(name.to_owned()), reload: true }
}

/// The range of a name that a renaming dialog selects: all of a directory's, and a
/// file's without its extension.
pub open spec fn rename_range(name: Seq<char>, is_directory: bool) -> int {
    let start: int = if name.len() > 0 && name[0] == '.' {
        1
    } else {
        0
    };
    let dot = last_position(name.skip(start), '.');
    if is_directory || dot < 0 {
        name.len() as int
    } else {
        start + dot
    }
}

fn rename_end(name: &str, is_directory: bool) -> (r: usize)
    ensures
        r == rename_range(name@, is_directory),
        r <= name@.len(),
{
    let chars = chars_of(name);
    let n: usize = chars.len();
    let start: usize = if n > 0 && chars[0] == '.' { 1 } else { 0 };
    let rest = slice_of(&chars, start, n);
    assert(rest@ =~= name@.skip(start as int));
    proof {
        lemma_last_position(rest@, '.');
    }
    if is_directory {
        return n;
    }
    match find_last(&rest, '.') {
        Some(dot) => start + dot,
        None => n,
    }
}

/// The dialog that asks for a new name.
pub open spec fn rename_dialog(name: Seq<char>, end: usize) -> DialogView {
    DialogView {
        dialog_type: DialogType::Rename,
        input: name,
        cursor_pos: end as nat,
        message: Seq::empty(),
        completion: None,
        selected_button: 0,
        selection: Some((0usize, end)),
        use_md5: false,
    }
}

/// What is said of a renaming.
pub open spec fn rename_text(name: Seq<char>, result: Result<Vec<String>, String>) -> Seq<char> {
    match result {
        Ok(warnings) => if warnings@.len() == 0 {
            "Renamed to: "@ + name
        } else {
            "Renamed to: "@ + name + ". Warning: "@ + joined(views(warnings@), "; "@)
        },
        Err(error) => "Rename failed: "@ + error@,
    }
}

/// What looking at the place of a new directory comes to.
pub open spec fn checks_new_directory(
    before: App,
    after: App,
    real_parent: Option<&str>,
    real_new: Option<&str>,
    r: bool,
) -> bool {
    let outside = match (real_parent, real_new) {
        (Some(dir), Some(new)) => !begins_with(new@, dir@),
        _ => false,
    };
    &&& r == !outside
    &&& if outside {
        says(before, after, "Error: Path traversal attempt detected"@)
    } else {
        after == before
    }
}

/// What asking for a new name does.
pub open spec fn asks_new_name(
    before: App,
    after: App,
    directory: Result<DirectoryAuthorization, String>,
    source: Result<PathAuthorization, String>,
) -> bool {
    let start = App { pending_rename_operation: None, ..before };
    let panel = before.active();
    let failed = "Rename source changed before the dialog opened: "@;
    match panel.current() {
        None => after == start,
        Some(file) => if file.name@ == ".."@ {
            says(start, after, "Select a file to rename"@)
        } else if panel.remote() && !plain_name(file.name@) {
            says(
                start,
                after,
                "Remote entry has an unsafe or ambiguous name"@,
            )
        } else if !panel.remote() && directory is Err {
            says(start, after, failed + directory->Err_0@)
        } else if !panel.remote() && source is Err {
            says(start, after, failed + source->Err_0@)
        } else {
            let end = rename_range(file.name@, file.is_directory) as usize;
            &&& after == (App {
                pending_rename_operation: after.pending_rename_operation,
                dialog: after.dialog,
                ..start
            })
            &&& dialog_view(after.dialog) == Some(
                rename_dialog(file.name@, end),
            )
            &&& if panel.remote() {
                &&& after.pending_rename_operation matches Some(
                    PendingRenameOperation::Remote {
                        panel_index,
                        old_path,
                        parent_path,
                    },
                )
                &&& panel_index == before.active_panel_index
                &&& old_path@ == child(panel.path@, file.name@)
                &&& parent_path == panel.path
            } else {
                &&& after.pending_rename_operation matches Some(
                    PendingRenameOperation::Local {
                        panel_index,
                        old_path,
                        source: seen,
                        directory: bound,
                    },
                )
                &&& panel_index == before.active_panel_index
                &&& old_path@ == joined_path(
                    directory->Ok_0.resolved_path@,
                    file.name@,
                )
                &&& seen == source->Ok_0
                &&& bound == directory->Ok_0
            }
        },
    }
}

/// What agreeing to a new name comes to.
pub open spec fn begins_rename(
    before: App,
    after: App,
    new_name: Seq<char>,
    name_check: Result<(), String>,
    r: RenameStart,
) -> bool {
    let start = App { pending_rename_operation: None, ..before };
    if name_check is Err {
        says(start, after, "Error: "@ + name_check->Err_0@) && r is Nothing
    } else {
        match before.pending_rename_operation {
            None => says(
                start,
                after,
                "Rename confirmation expired; select the item again"@,
            ) && r is Nothing,
            Some(
                PendingRenameOperation::Remote { panel_index, old_path, parent_path },
            ) => {
                let at = panel_index as int;
                if before.remote_spinner is Some {
                    after == before && r is Nothing
                } else if !plain_name(new_name) {
                    says(
                        start,
                        after,
                        "Remote entry has an unsafe or ambiguous name"@,
                    ) && r is Nothing
                } else {
                    match before.panels@[at].remote_ctx {
                        None => says(
                            start,
                            after,
                            "Remote rename confirmation expired"@,
                        ) && r is Nothing,
                        Some(ctx) => {
                            &&& after == (App {
                                panels: after.panels,
                                remote_spinner: after.remote_spinner,
                                ..start
                            })
                            &&& after.panels@ == before.panels@.update(
                                at,
                                (PanelState {
                                    remote_ctx: None,
                                    ..before.panels@[at]
                                }),
                            )
                            &&& after.remote_spinner matches Some(spinner)
                                && spinner.message@ == "Renaming..."@
                            &&& r matches RenameStart::Remote {
                                ctx: lent,
                                panel_index: of,
                                old_path: from,
                                new_path,
                            }
                            &&& lent == ctx
                            &&& of == panel_index
                            &&& from == old_path
                            &&& new_path@ == child(parent_path@, new_name)
                        },
                    }
                }
            },
            Some(
                PendingRenameOperation::Local {
                    panel_index,
                    old_path,
                    source,
                    directory,
                },
            ) => {
                &&& after == start
                &&& r matches RenameStart::Local {
                    panel_index: of,
                    old_path: from,
                    new_path,
                    source: seen,
                    directory: bound,
                }
                &&& of == panel_index
                &&& from == old_path
                &&& new_path@ == joined_path(directory.resolved_path@, new_name)
                &&& seen == source
                &&& bound == directory
            },
        }
    }
}

/// What making a directory comes to.
pub open spec fn made_directory(
    before: App,
    after: App,
    name: Seq<char>,
    result: Result<(), String>,
    list: Option<ListJob>,
) -> bool {
    let at = before.active_panel_index as int;
    let panel = before.active();
    &&& optional_text(after.message) == Some(
        match result {
            Ok(_) => "Created directory: "@ + name,
            Err(error) => "Error: "@ + error@,
        },
    )
    &&& exists|mid: App| #[trigger]
        all_refreshed(mid, after, list) && mid == (App {
            panels: mid.panels,
            message: after.message,
            message_timer: 10,
            ..before
        }) && mid.panels@ == before.panels@.update(
            at,
            (PanelState { pending_focus: mid.panels@[at].pending_focus, ..panel }),
        ) && optional_text(mid.panels@[at].pending_focus) == match result {
            Ok(_) => Some(name),
            Err(_) => optional_text(panel.pending_focus),
        }
}

/// What making a file comes to.
pub open spec fn made_file(
    before: App,
    after: App,
    name: Seq<char>,
    result: Result<(), CreateError>,
    r: (bool, Option<ListJob>),
) -> bool {
    match result {
        Ok(_) => {
            let at = before.active_panel_index as int;
            &&& r.0
            &&& exists|mid: App| #[trigger]
                all_refreshed(mid, after, r.1) && mid == (App {
                    panels: mid.panels,
                    ..before
                }) && mid.panels@ == before.panels@.update(
                    at,
                    (PanelState {
                        pending_focus: mid.panels@[at].pending_focus,
                        ..before.active()
                    }),
                ) && optional_text(mid.panels@[at].pending_focus) == Some(name)
        },
        Err(CreateError::AlreadyExists) => says(
            before,
            after,
            "'"@ + name + "' already exists!"@,
        ) && r == (false, None::<ListJob>),
        Err(CreateError::Other(error)) => says(
            before,
            after,
            "Error: "@ + error@,
        ) && r == (false, None::<ListJob>),
    }
}

/// What renaming comes to.
pub open spec fn renamed(
    before: App,
    after: App,
    panel_index: usize,
    new_name: Seq<char>,
    result: Result<Vec<String>, String>,
    list: Option<ListJob>,
) -> bool {
    let at = panel_index as int;
    let panel = before.panels@[at];
    &&& optional_text(after.message) == Some(rename_text(new_name, result))
    &&& exists|mid: App| #[trigger]
        all_refreshed(mid, after, list) && mid == (App {
            panels: mid.panels,
            message: after.message,
            message_timer: 10,
            ..before
        }) && mid.panels@ == before.panels@.update(
            at,
            (PanelState { pending_focus: mid.panels@[at].pending_focus, ..panel }),
        ) && optional_text(mid.panels@[at].pending_focus) == match result {
            Ok(_) => Some(new_name),
            Err(_) => optional_text(panel.pending_focus),
        }
}

impl App {
    fn begin_making(&mut self, name: &str, name_check: Result<(), String>, busy_text: &str) -> (r:
        CreateStart)
        requires
            old(self).wf(),
        ensures
            begins_making(*old(self), *final(self), name@, name_check, busy_text@, r),
    {
        if let Err(error) = name_check {
            let text = concat2("Error: ", error.as_str());
            self.show_message(text.as_str());
            return CreateStart::Refused;
        }
        if !self.active_panel().is_remote() {
            let path = join_path(self.active_panel().path.as_str(), name);
            return CreateStart::Local { path };
        }
        let at: usize = self.active_panel_index;
        if self.remote_spinner.is_some() || self.panels[at].remote_ctx.is_none() {
            return CreateStart::Refused;
        }
        let remote_path = match normalized_remote_child_path(
            self.active_panel().path.as_str(),
            name,
        ) {
            Err(error) => {
                self.show_message(error.as_str());
                return CreateStart::Refused;
            },
            Ok(path) => path,
        };
        match self.panels[at].remote_ctx.take() {
            None => CreateStart::Refused,
            Some(ctx) => {
                assert(self.panels@ =~= old(self).panels@.update(
                    at as int,
                    (PanelState { remote_ctx: None, ..old(self).panels@[at as int] }),
                ));
                self.remote_spinner = Some(RemoteSpinner { message: busy_text.to_owned() });
                CreateStart::Remote { ctx, panel_idx: at, remote_path }
            },
        }
    }

    /// Begins to make a directory. `name_check` is whether its name may be used.
    pub fn execute_mkdir(&mut self, name: &str, name_check: Result<(), String>) -> (r: CreateStart)
        requires
            old(self).wf(),
        ensures
            begins_making(
                *old(self),
                *final(self),
                name@,
                name_check,
                "Creating directory..."@,
                r,
            ),
    {
        self.begin_making(name, name_check, "Creating directory...")
    }

    /// Begins to make a file. `name_check` is whether its name may be used.
    pub fn execute_mkfile(&mut self, name: &str, name_check: Result<(), String>) -> (r: CreateStart)
        requires
            old(self).wf(),
        ensures
            begins_making(*old(self), *final(self), name@, name_check, "Creating file..."@, r),
    {
        self.begin_making(name, name_check, "Creating file...")
    }

    /// Whether a directory may be made: not where it would lie outside the
    /// directory of the panel. Both are known by their real paths, as far as they
    /// have any.
    pub fn mkdir_allowed(&mut self, real_parent: Option<&str>, real_new: Option<&str>) -> (r: bool)
        ensures
            checks_new_directory(*old(self), *final(self), real_parent, real_new, r),
    {
        match (real_parent, real_new) {
            (Some(dir), Some(new)) => {
                if !path_starts_with(new, dir) {
                    self.show_message("Error: Path traversal attempt detected");
                    return false;
                }
                true
            },
            _ => true,
        }
    }

    /// Takes what came of making a local directory. The panels are read again.
    pub fn mkdir_done(&mut self, name: &str, result: Result<(), String>) -> (list: Option<ListJob>)
        requires
            old(self).wf(),
        ensures
            made_directory(*old(self), *final(self), name@, result, list),
    {
        let at: usize = self.active_panel_index;
        match result {
            Ok(_) => {
                self.panels[at].pending_focus = Some(name.to_owned());
                let text = concat2("Created directory: ", name);
                self.show_message(text.as_str());
            },
            Err(error) => {
                let text = concat2("Error: ", error.as_str());
                self.show_message(text.as_str());
            },
        }
        let ghost mid = *self;
        assert(mid.panels@ =~= old(self).panels@.update(
            at as int,
            (PanelState {
                pending_focus: mid.panels@[at as int].pending_focus,
                ..old(self).active()
            }),
        ));
        let list = self.refresh_panels();
        assert(all_refreshed(mid, *self, list));
        list
    }

    /// Takes what came of making a local file. Where it was made, the panels are
    /// read again and the file is to be edited.
    pub fn mkfile_done(&mut self, name: &str, result: Result<(), CreateError>) -> (r: (
        bool,
        Option<ListJob>,
    ))
        requires
            old(self).wf(),
        ensures
            made_file(*old(self), *final(self), name@, result, r),
    {
        match result {
            Ok(_) => {
                let at: usize = self.active_panel_index;
                self.panels[at].pending_focus = Some(name.to_owned());
                let ghost mid = *self;
                assert(mid.panels@ =~= old(self).panels@.update(
                    at as int,
                    (PanelState {
                        pending_focus: mid.panels@[at as int].pending_focus,
                        ..old(self).active()
                    }),
                ));
                let list = self.refresh_panels();
                assert(all_refreshed(mid, *self, list) && mid == (App {
                    panels: mid.panels,
                    ..*old(self)
                }));
                assert(optional_text(mid.panels@[at as int].pending_focus) == Some(name@));
                let r = (true, list);
                assert(all_refreshed(mid, *self, r.1));
                r
            },
            Err(CreateError::AlreadyExists) => {
                let text = concat3("'", name, "' already exists!");
                self.show_message(text.as_str());
                (false, None)
            },
            Err(CreateError::Other(error)) => {
                let text = concat2("Error: ", error.as_str());
                self.show_message(text.as_str());
                (false, None)
            },
        }
    }

    /// Asks for a new name of what is under the cursor. `directory` and `source`
    /// are what was seen of its directory and of it; a remote one needs neither.
    pub fn show_rename_dialog(
        &mut self,
        directory: Result<DirectoryAuthorization, String>,
        source: Result<PathAuthorization, String>,
    )
        requires
            old(self).wf(),
        ensures
            asks_new_name(*old(self), *final(self), directory, source),
    {
        self.pending_rename_operation = None;
        let panel = self.active_panel();
        let remote = panel.is_remote();
        let file = match panel.current_file() {
            None => {
                return;
            },
            Some(file) => file.clone(),
        };
        if same_text(file.name.as_str(), "..") {
            self.show_message("Select a file to rename");
            return;
        }
        let pending = if remote {
            match normalized_remote_child_path(panel.path.as_str(), file.name.as_str()) {
                Err(error) => {
                    self.show_message(error.as_str());
                    return;
                },
                Ok(old_path) => PendingRenameOperation::Remote {
                    panel_index: self.active_panel_index,
                    old_path,
                    parent_path: panel.path.clone(),
                },
            }
        } else {
            let bound = match directory {
                Err(error) => {
                    let text = concat2(
                        "Rename source changed before the dialog opened: ",
                        error.as_str(),
                    );
                    self.show_message(text.as_str());
                    return;
                },
                Ok(bound) => bound,
            };
            let seen = match source {
                Err(error) => {
                    let text = concat2(
                        "Rename source changed before the dialog opened: ",
                        error.as_str(),
                    );
                    self.show_message(text.as_str());
                    return;
                },
                Ok(seen) => seen,
            };
            PendingRenameOperation::Local {
                panel_index: self.active_panel_index,
                old_path: join_path(bound.resolved_path.as_str(), file.name.as_str()),
                source: seen,
                directory: bound,
            }
        };
        let end: usize = rename_end(file.name.as_str(), file.is_directory);
        let mut dialog = Dialog::plain(DialogType::Rename, file.name, String::new());
        dialog.cursor_pos = end;
        dialog.selection = Some((0, end));
        assert(dialog@ == rename_dialog(file.name@, end));
        self.dialog = Some(dialog);
        self.pending_rename_operation = Some(pending);
    }

    /// Forgets the renaming that the user was asked about.
    pub fn cancel_pending_rename(&mut self)
        ensures
            *final(self) == (App { pending_rename_operation: None, ..*old(self) }),
    {
        self.pending_rename_operation = None;
    }

    /// Begins the renaming that the user was asked about. `name_check` is whether
    /// the new name may be used.
    pub fn execute_rename(&mut self, new_name: &str, name_check: Result<(), String>) -> (r: RenameStart)
        requires
            old(self).pending_rename_operation matches Some(
                PendingRenameOperation::Remote { panel_index, .. },
            ) ==> panel_index < old(self).panels@.len(),
        ensures
            begins_rename(*old(self), *final(self), new_name@, name_check, r),
    {
        if let Err(error) = name_check {
            self.pending_rename_operation = None;
            let text = concat2("Error: ", error.as_str());
            self.show_message(text.as_str());
            return RenameStart::Nothing;
        }
        match self.pending_rename_operation.take() {
            None => {
                self.show_message("Rename confirmation expired; select the item again");
                RenameStart::Nothing
            },
            Some(PendingRenameOperation::Remote { panel_index, old_path, parent_path }) => {
                if self.remote_spinner.is_some() {
                    self.pending_rename_operation =
                    Some(PendingRenameOperation::Remote { panel_index, old_path, parent_path });
                    return RenameStart::Nothing;
                }
                let new_path = match normalized_remote_child_path(parent_path.as_str(), new_name) {
                    Err(error) => {
                        self.show_message(error.as_str());
                        return RenameStart::Nothing;
                    },
                    Ok(path) => path,
                };
                if self.panels[panel_index].remote_ctx.is_none() {
                    self.show_message("Remote rename confirmation expired");
                    return RenameStart::Nothing;
                }
                match self.panels[panel_index].remote_ctx.take() {
                    None => RenameStart::Nothing,
                    Some(ctx) => {
                        assert(self.panels@ =~= old(self).panels@.update(
                            panel_index as int,
                            (PanelState {
                                remote_ctx: None,
                                ..old(self).panels@[panel_index as int]
                            }),
                        ));
                        self.remote_spinner =
                        Some(RemoteSpinner { message: "Renaming...".to_owned() });
                        RenameStart::Remote { ctx, panel_index, old_path, new_path }
                    },
                }
            },
            Some(PendingRenameOperation::Local { panel_index, old_path, source, directory }) => {
                let new_path = join_path(directory.resolved_path.as_str(), new_name);
                RenameStart::Local { panel_index, old_path, new_path, source, directory }
            },
        }
    }

    /// Takes what came of a local renaming. The panels are read again, and the
    /// cursor is to stand on the new name where the renaming was done.
    pub fn rename_done(
        &mut self,
        panel_index: usize,
        new_name: &str,
        result: Result<Vec<String>, String>,
    ) -> (list: Option<ListJob>)
        requires
            panel_index < old(self).panels@.len(),
        ensures
            renamed(*old(self), *final(self), panel_index, new_name@, result, list),
    {
        match &result {
            Ok(warnings) => {
                self.panels[panel_index].pending_focus = Some(new_name.to_owned());
                if warnings.len() == 0 {
                    let text = concat2("Renamed to: ", new_name);
                    self.show_message(text.as_str());
                } else {
                    let notes = join_texts(warnings, "; ");
                    let text = concat4("Renamed to: ", new_name, ". Warning: ", notes.as_str());
                    self.show_message(text.as_str());
                }
            },
            Err(error) => {
                let text = concat2("Rename failed: ", error.as_str());
                self.show_message(text.as_str());
            },
        }
        let ghost mid = *self;
        assert(mid.panels@ =~= old(self).panels@.update(
            panel_index as int,
            (PanelState {
                pending_focus: mid.panels@[panel_index as int].pending_focus,
                ..old(self).panels@[panel_index as int]
            }),
        ));
        let list = self.refresh_panels();
        assert(all_refreshed(mid, *self, list));
        list
    }
}

/// The name of a directory is selected whole, and of any name no more than all.
pub proof fn law_rename_selects_a_range_of_the_name(name: Seq<char>, is_directory: bool)
    ensures
        0 <= rename_range(name, is_directory) <= name.len(),
        is_directory ==> rename_range(name, is_directory) == name.len(),
{
    let start: int = if name.len() > 0 && name[0] == '.' {
        1
    } else {
        0
    };
    lemma_last_position(name.skip(start), '.');
}

/// A rename begins with the stem selected: what stands before the last dot of a file's name,
/// where a dot in front does not count; all of a name without one, and all of a directory's.
pub proof fn law_rename_selects_the_stem(stem: Seq<char>, ext: Seq<char>)
    requires
        !ext.contains('.'),
    ensures
        stem.len() > 0 ==> rename_range(stem + "."@ + ext, false) == stem.len(),
        rename_range(stem + "."@ + ext, true) == stem.len() + 1 + ext.len(),
        rename_range(ext, false) == ext.len(),
        rename_range("."@ + ext, false) == 1 + ext.len(),
{
    reveal_strlit(".");
    assert forall|i: int| 0 <= i < ext.len() implies ext[i] != '.' by {
        assert(ext.contains(ext[i]));
    }
    let name = stem + "."@ + ext;
    let hidden = "."@ + ext;
    assert(ext.skip(0) =~= ext);
    assert(hidden.skip(1) =~= ext);
    lemma_last_position(ext, '.');
    if stem.len() > 0 {
        let start: int = if name[0] == '.' {
            1
        } else {
            0
        };
        let rest = name.skip(start);
        lemma_last_position(rest, '.');
        let at = last_position(rest, '.');
        assert(rest[stem.len() - start] == '.');
        if at > stem.len() - start {
            assert(rest[at] == ext[at - (stem.len() - start) - 1]);
        }
    }
}

/// What is made is made in the directory shown, under the name given: on this machine, or on
/// the remote one whose session is then lent.
pub proof fn law_new_entry_is_in_the_directory_shown(
    before: App,
    after: App,
    name: Seq<char>,
    name_check: Result<(), String>,
    busy_text: Seq<char>,
    r: CreateStart,
)
    requires
        before.wf(),
        begins_making(before, after, name, name_check, busy_text, r),
    ensures
        name_check is Err ==> r is Refused,
        name_check is Ok && !before.active().remote() ==> {
            &&& r matches CreateStart::Local { path }
            &&& path@ == joined_path(before.active().path@, name)
            &&& is_plain_name(name) ==> local_name(path@) == Some(name)
        },
        r matches CreateStart::Remote { ctx, panel_idx, remote_path } ==> {
            &&& name_check is Ok
            &&& plain_name(name)
            &&& before.remote_spinner is None
            &&& before.active().remote_ctx == Some(ctx)
            &&& panel_idx == before.active_panel_index
            &&& remote_path@ == child(before.active().path@, name)
            &&& after.active().remote_ctx is None
            &&& after.remote_spinner is Some
        },
        name_check is Ok && before.active().remote() && before.active().remote_ctx is Some
            && before.remote_spinner is None ==> (r is Remote <==> plain_name(name)),
        r is Refused ==> after.panels == before.panels,
{
    if is_plain_name(name) {
        law_joined_name_is_found_again(before.active().path@, name);
    }
}

/// The name that was made is looked for when the directory was read again, and what failed
/// is told.
pub proof fn law_remote_entry_that_was_made_is_focused(
    outcome: PanelOpOutcome,
    head: Seq<char>,
    name: Seq<char>,
    result: Result<(), String>,
)
    requires
        is_made(outcome, head, name, result),
    ensures
        outcome matches PanelOpOutcome::Simple { message, pending_focus, reload } && reload
            && pending_focus is Some && pending_focus->0@ == name && (message is Ok <==> result is Ok)
            && (message matches Ok(text) ==> text@ == head + name) && (message matches Err(text)
            ==> text == result->Err_0),
{
}

/// A new directory is refused exactly where both places are known and it would be outside of
/// the directory shown.
pub proof fn law_new_directory_stays_inside(
    before: App,
    after: App,
    real_parent: Option<&str>,
    real_new: Option<&str>,
    r: bool,
)
    requires
        checks_new_directory(before, after, real_parent, real_new, r),
    ensures
        !r <==> real_parent is Some && real_new is Some && !begins_with(
            real_new->0@,
            real_parent->0@,
        ),
        r ==> after == before,
{
}

/// A file keeps its directory when it is renamed: from the name it had to the name that was
/// given, with what was seen of it when the dialog opened.
pub proof fn law_rename_stays_in_its_directory(
    before: App,
    asked: App,
    after: App,
    directory: Result<DirectoryAuthorization, String>,
    source: Result<PathAuthorization, String>,
    new_name: Seq<char>,
    name_check: Result<(), String>,
    r: RenameStart,
)
    requires
        before.wf(),
        before.active().current() is Some,
        asks_new_name(before, asked, directory, source),
        asked.remote_spinner is None,
        begins_rename(asked, after, new_name, name_check, r),
    ensures
        ({
            let old_name = before.active().current()->0.name@;
            &&& r matches RenameStart::Local {
                panel_index,
                old_path,
                new_path,
                source: seen,
                directory: bound,
            } ==> {
                &&& !before.active().remote()
                &&& panel_index == before.active_panel_index
                &&& directory == Ok::<DirectoryAuthorization, String>(bound)
                &&& source == Ok::<PathAuthorization, String>(seen)
                &&& old_path@ == joined_path(bound.resolved_path@, old_name)
                &&& new_path@ == joined_path(bound.resolved_path@, new_name)
            }
            &&& r matches RenameStart::Remote { ctx, panel_index, old_path, new_path } ==> {
                &&& before.active().remote()
                &&& panel_index == before.active_panel_index
                &&& before.active().remote_ctx == Some(ctx)
                &&& old_path@ == child(before.active().path@, old_name)
                &&& new_path@ == child(before.active().path@, new_name)
                &&& plain_name(old_name)
                &&& plain_name(new_name)
            }
            &&& name_check is Err ==> r is Nothing
            &&& old_name == ".."@ ==> r is Nothing
            &&& !before.active().remote() && old_name != ".."@ && directory is Ok && source is Ok
                && name_check is Ok ==> r is Local
            &&& r is Nothing || after.pending_rename_operation is None
        }),
{
}

/// The dialog that asks for a new name holds the old one.
pub proof fn law_rename_begins_with_the_old_name(
    before: App,
    after: App,
    directory: Result<DirectoryAuthorization, String>,
    source: Result<PathAuthorization, String>,
)
    requires
        before.wf(),
        asks_new_name(before, after, directory, source),
        after.pending_rename_operation is Some,
    ensures
        before.active().current() is Some,
        dialog_view(after.dialog) is Some,
        dialog_view(after.dialog)->0.dialog_type == DialogType::Rename,
        dialog_view(after.dialog)->0.input == before.active().current()->0.name@,
        dialog_view(after.dialog)->0.selection is Some,
        dialog_view(after.dialog)->0.selection matches Some((start, _)) && start == 0,
{
}

/// A rename is told with the new name, and with what went wrong.
pub proof fn law_rename_is_told(name: Seq<char>, warnings: Vec<String>, error: String)
    ensures
        warnings@.len() == 0 ==> rename_text(name, Ok(warnings)) == "Renamed to: "@ + name,
        ("Renamed to: "@ + name).is_prefix_of(rename_text(name, Ok(warnings))),
        rename_text(name, Err(error)) == "Rename failed: "@ + error@,
{
    let head = "Renamed to: "@ + name;
    let text = rename_text(name, Ok(warnings));
    assert(text.subrange(0, head.len() as int) =~= head);
}

/// A new directory is told by its name and the panels are read again with the cursor to go
/// to it; a failure is told with its error, and the cursor goes nowhere new.
pub proof fn law_new_directory_is_told(
    before: App,
    after: App,
    name: Seq<char>,
    result: Result<(), String>,
    list: Option<ListJob>,
) -> (mid: App)
    requires
        before.wf(),
        made_directory(before, after, name, result, list),
    ensures
        result is Ok ==> optional_text(after.message) == Some("Created directory: "@ + name),
        result is Err ==> optional_text(after.message) == Some("Error: "@ + result->Err_0@),
        all_refreshed(mid, after, list),
        mid.panels@.len() == before.panels@.len(),
        result is Ok ==> optional_text(mid.active().pending_focus) == Some(name),
        result is Err ==> optional_text(mid.active().pending_focus) == optional_text(
            before.active().pending_focus,
        ),
        mid.active().path == before.active().path,
        mid.active().selected_files == before.active().selected_files,
        forall|k: int|
            0 <= k < before.panels@.len() && k != before.active_panel_index ==> #[trigger] mid.panels@[k]
                == before.panels@[k],
{
    let at = before.active_panel_index as int;
    let panel = before.active();
    choose|mid: App| #[trigger]
        all_refreshed(mid, after, list) && mid == (App {
            panels: mid.panels,
            message: after.message,
            message_timer: 10,
            ..before
        }) && mid.panels@ == before.panels@.update(
            at,
            (PanelState { pending_focus: mid.panels@[at].pending_focus, ..panel }),
        ) && optional_text(mid.panels@[at].pending_focus) == match result {
            Ok(_) => Some(name),
            Err(_) => optional_text(panel.pending_focus),
        }
}

/// A file is made exactly where that succeeded; a name that is taken is told apart from
/// every other failure, and after a failure nothing but the message changes.
pub proof fn law_new_file_is_told(
    before: App,
    after: App,
    name: Seq<char>,
    result: Result<(), CreateError>,
    r: (bool, Option<ListJob>),
)
    requires
        made_file(before, after, name, result, r),
    ensures
        r.0 <==> result is Ok,
        result is Err ==> r.1 is None && after.panels == before.panels,
        result == Err::<(), CreateError>(CreateError::AlreadyExists) ==> optional_text(after.message)
            == Some("'"@ + name + "' already exists!"@),
        result matches Err(CreateError::Other(error)) ==> optional_text(after.message) == Some(
            "Error: "@ + error@,
        ),
{
}

/// After a rename the cursor of its panel goes to the new name; a failure leaves it.
pub proof fn law_renamed_entry_gets_the_cursor(
    before: App,
    after: App,
    panel_index: usize,
    new_name: Seq<char>,
    result: Result<Vec<String>, String>,
    list: Option<ListJob>,
) -> (mid: App)
    requires
        panel_index < before.panels@.len(),
        renamed(before, after, panel_index, new_name, result, list),
    ensures
        optional_text(after.message) == Some(rename_text(new_name, result)),
        all_refreshed(mid, after, list),
        mid.panels@.len() == before.panels@.len(),
        result is Ok ==> optional_text(mid.panels@[panel_index as int].pending_focus) == Some(
            new_name,
        ),
        result is Err ==> optional_text(mid.panels@[panel_index as int].pending_focus)
            == optional_text(before.panels@[panel_index as int].pending_focus),
        forall|k: int|
            0 <= k < before.panels@.len() && k != panel_index ==> #[trigger] mid.panels@[k]
                == before.panels@[k],
{
    let at = panel_index as int;
    let panel = before.panels@[at];
    choose|mid: App| #[trigger]
        all_refreshed(mid, after, list) && mid == (App {
            panels: mid.panels,
            message: after.message,
            message_timer: 10,
            ..before
        }) && mid.panels@ == before.panels@.update(
            at,
            (PanelState { pending_focus: mid.panels@[at].pending_focus, ..panel }),
        ) && optional_text(mid.panels@[at].pending_focus) == match result {
            Ok(_) => Some(new_name),
            Err(_) => optional_text(panel.pending_focus),
        }
}

} // verus!
