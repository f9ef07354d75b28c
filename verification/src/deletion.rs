//! Deleting: what the user is asked, and what comes of the answer.

use crate::app_state::{says, App, PendingDeleteOperation, RemoteSpinner};
use crate::authorization::{
    pathed_views, DirectoryAuthorization, PathAuthorization, PathedAuthorization,
};
use crate::clipboard::{first_failure, operation_files};
use crate::dialogs::{dialog_view, DialogType, Screen};
use crate::navigation::cautious_dialog;
use crate::panel::{PanelState, RemoteContext};
use crate::paths::{join_path, joined_path, local_name, local_parent, name_of_path, parent_of_path};
use crate::remote_connect::optional_text;
use crate::remote_ops::ListJob;
use crate::remote_path::{child, normalized_remote_child_path, plain_name};
use crate::spinner::all_refreshed;
use crate::text::{concat2, concat3, concat4, decimal, join_texts, joined, number_text, views};
use vstd::prelude::*;

verus! {

/// The names of a selection, for the user: all of a few, or the first two.
pub open spec fn brief_list(files: Seq<Seq<char>>) -> Seq<char> {
    if files.len() <= 3 {
        joined(files, ", "@)
    } else {
        joined(files.take(2), ", "@) + " and "@ + decimal((files.len() - 2) as nat) + " more"@
    }
}

/// The names of a selection, for the user.
pub fn brief_file_list(files: &Vec<String>) -> (r: String)
    ensures
        r@ == brief_list(views(files@)),
{
    assert(views(files@).len() == files@.len());
    if files.len() <= 3 {
        join_texts(files, ", ")
    } else {
        let mut first: Vec<String> = Vec::new();
        first.push(files[0].clone());
        first.push(files[1].clone());
        assert(views(first@) =~= views(files@).take(2));
        let head = join_texts(&first, ", ");
        let count = number_text((files.len() - 2) as u64);
        concat4(head.as_str(), " and ", count.as_str(), " more")
    }
}

/// Whether all names can be entries of a remote directory.
pub open spec fn all_plain(files: Seq<Seq<char>>) -> bool {
    forall|i: int| 0 <= i < files.len() ==> plain_name(#[trigger] files[i])
}

/// The remote paths of names in a directory.
pub open spec fn children(dir: Seq<char>, files: Seq<Seq<char>>) -> Seq<Seq<char>> {
    Seq::new(files.len(), |i: int| child(dir, files[i]))
}

/// The remote paths of names in a directory.
pub fn remote_children(dir: &str, files: &Vec<String>) -> (r: Result<Vec<String>, String>)
    ensures
        match r {
            Ok(paths) => all_plain(views(files@)) && views(paths@) == children(
                dir@,
                views(files@),
            ),
            Err(e) => !all_plain(views(files@)) && e@
                == "Remote entry has an unsafe or ambiguous name"@,
        },
{
    let mut r: Vec<String> = Vec::new();
    let ghost names = views(files@);
    let ghost all = children(dir@, names);
    let mut i: usize = 0;
    while i < files.len()
        invariant
            i <= files@.len(),
            names == views(files@),
            all == children(dir@, names),
            views(r@) == all.take(i as int),
            forall|k: int| 0 <= k < i ==> plain_name(#[trigger] names[k]),
        decreases files@.len() - i,
    {
        assert(names[i as int] == files@[i as int]@);
        match normalized_remote_child_path(dir, files[i].as_str()) {
            Err(error) => {
                assert(!plain_name(names[i as int]));
                return Err(error);
            },
            Ok(path) => {
                let ghost held = r@;
                r.push(path);
                assert(views(r@) =~= views(held).push(all[i as int]));
                assert(all.take(i + 1) =~= all.take(i as int).push(all[i as int]));
            },
        }
        i += 1;
    }
    assert(all.take(i as int) =~= all);
    Ok(r)
}

/// Files below a directory with what was seen there.
pub open spec fn entries_below(
    dir: Seq<char>,
    files: Seq<Seq<char>>,
    sources: Seq<Result<PathAuthorization, String>>,
) -> Seq<(Seq<char>, PathAuthorization)> {
    Seq::new(files.len(), |i: int| (joined_path(dir, files[i]), sources[i]->Ok_0))
}

proof fn lemma_no_failure(items: Seq<Result<PathAuthorization, String>>, i: int)
    requires
        first_failure(items) is None,
        0 <= i < items.len(),
    ensures
        items[i] is Ok,
    decreases items.len(),
{
    if i < items.len() - 1 {
        lemma_no_failure(items.drop_last(), i);
        assert(items.drop_last()[i] == items[i]);
    }
}

fn find_failure(items: &Vec<Result<PathAuthorization, String>>) -> (r: Option<String>)
    ensures
        r == first_failure(items@),
{
    let mut r: Option<String> = None;
    let mut i: usize = 0;
    assert(items@.take(0) =~= Seq::<Result<PathAuthorization, String>>::empty());
    while i < items.len()
        invariant
            i <= items@.len(),
            r == first_failure(items@.take(i as int)),
        decreases items@.len() - i,
    {
        assert(items@.take(i + 1).drop_last() =~= items@.take(i as int));
        if r.is_none() {
            if let Err(error) = &items[i] {
                r = Some(error.clone());
            }
        }
        i += 1;
    }
    assert(items@.take(i as int) =~= items@);
    r
}

fn build_entries(
    dir: &str,
    files: &Vec<String>,
    sources: &Vec<Result<PathAuthorization, String>>,
) -> (r: Vec<PathedAuthorization>)
    requires
        files@.len() == sources@.len(),
        first_failure(sources@) is None,
    ensures
        pathed_views(r@) == entries_below(dir@, views(files@), sources@),
{
    let mut r: Vec<PathedAuthorization> = Vec::new();
    let ghost all = entries_below(dir@, views(files@), sources@);
    let mut i: usize = 0;
    while i < files.len()
        invariant
            i <= files@.len(),
            files@.len() == sources@.len(),
            first_failure(sources@) is None,
            all == entries_below(dir@, views(files@), sources@),
            pathed_views(r@) == all.take(i as int),
        decreases files@.len() - i,
    {
        proof {
            lemma_no_failure(sources@, i as int);
        }
        if let Ok(seen) = &sources[i] {
            let ghost held = r@;
            r.push(
                PathedAuthorization {
                    path: join_path(dir, files[i].as_str()),
                    authorization: *seen,
                },
            );
            assert(pathed_views(r@) =~= pathed_views(held).push(all[i as int]));
        }
        assert(all.take(i + 1) =~= all.take(i as int).push(all[i as int]));
        i += 1;
    }
    assert(all.take(i as int) =~= all);
    r
}

/// Whether the user is asked to confirm a deletion.
pub open spec fn asks_to_delete(before: App, after: App, list: Seq<char>) -> bool {
    &&& after == App {
        pending_delete_operation: after.pending_delete_operation,
        dialog: after.dialog,
        ..before
    }
    &&& dialog_view(after.dialog) == Some(
        cautious_dialog(DialogType::Delete, "Delete "@ + list + "?"@),
    )
}

/// What is to be deleted now.
#[derive(Debug)]
pub enum DeleteStart {
    Nothing,
    /// The session of the panel is lent to the work.
    Remote { ctx: RemoteContext, panel_index: usize, paths: Vec<String> },
    /// The image on the screen.
    Image { path: String, source: PathAuthorization, directory: DirectoryAuthorization },
    Local { entries: Vec<PathedAuthorization>, directory: DirectoryAuthorization },
}

/// What asking for a deletion does.
pub open spec fn asks_deletion(
    before: App,
    after: App,
    image_path: Option<&str>,
    directory: Result<DirectoryAuthorization, String>,
    sources: Seq<Result<PathAuthorization, String>>,
) -> bool {
    let start = App { pending_delete_operation: None, ..before };
    let panel = before.active();
    let files = operation_files(panel);
    if before.current_screen == Screen::ImageViewer {
        match image_path {
            None => says(start, after, "No image is open"@),
            Some(path) => if local_parent(path@) is None {
                says(
                    start,
                    after,
                    "Cannot identify the image parent directory"@,
                )
            } else {
                match directory {
                    Err(error) => says(
                        start,
                        after,
                        "Image changed before confirmation: "@ + error@,
                    ),
                    Ok(dir) => {
                        let full = joined_path(
                            dir.resolved_path@,
                            match local_name(path@) {
                                Some(name) => name,
                                None => Seq::empty(),
                            },
                        );
                        match sources[0] {
                            Err(error) => says(
                                start,
                                after,
                                "Image changed before confirmation: "@ + error@,
                            ),
                            Ok(source) => {
                                &&& asks_to_delete(
                                    start,
                                    after,
                                    match local_name(full) {
                                        Some(name) => name,
                                        None => full,
                                    },
                                )
                                &&& after.pending_delete_operation matches Some(
                                    PendingDeleteOperation::Local {
                                        entries,
                                        directory: bound,
                                        close_image_viewer,
                                    },
                                )
                                &&& pathed_views(entries@) == seq![(full, source)]
                                &&& bound == dir
                                &&& close_image_viewer
                            },
                        }
                    },
                }
            },
        }
    } else if files.len() == 0 {
        says(start, after, "No files selected"@)
    } else if panel.remote() {
        if all_plain(files) {
            &&& asks_to_delete(start, after, brief_list(files))
            &&& after.pending_delete_operation matches Some(
                PendingDeleteOperation::Remote { panel_index, paths },
            )
            &&& panel_index == before.active_panel_index
            &&& views(paths@) == children(panel.path@, files)
        } else {
            says(
                start,
                after,
                "Remote entry has an unsafe or ambiguous name"@,
            )
        }
    } else {
        let failed = "Selection changed before deletion confirmation: "@;
        match directory {
            Err(error) => says(start, after, failed + error@),
            Ok(dir) => match first_failure(sources) {
                Some(error) => says(start, after, failed + error@),
                None => {
                    &&& asks_to_delete(start, after, brief_list(files))
                    &&& after.pending_delete_operation matches Some(
                        PendingDeleteOperation::Local {
                            entries,
                            directory: bound,
                            close_image_viewer,
                        },
                    )
                    &&& pathed_views(entries@) == entries_below(
                        dir.resolved_path@,
                        files,
                        sources,
                    )
                    &&& bound == dir
                    &&& !close_image_viewer
                },
            },
        }
    }
}

/// What agreeing to a deletion comes to.
pub open spec fn begins_deletion(
    before: App,
    after: App,
    r: DeleteStart,
) -> bool {
    if before.remote_spinner is Some {
        after == before && r is Nothing
    } else {
        let start = App { pending_delete_operation: None, ..before };
        match before.pending_delete_operation {
            None => says(
                start,
                after,
                "Delete confirmation expired; select the item again"@,
            ) && r is Nothing,
            Some(PendingDeleteOperation::Remote { panel_index, paths }) => {
                let at = panel_index as int;
                match before.panels@[at].remote_ctx {
                    None => says(
                        start,
                        after,
                        "Remote delete confirmation expired"@,
                    ) && r is Nothing,
                    Some(ctx) => {
                        &&& r == (DeleteStart::Remote { ctx, panel_index, paths })
                        &&& after == (App {
                            panels: after.panels,
                            remote_spinner: after.remote_spinner,
                            ..start
                        })
                        &&& after.panels@ == before.panels@.update(
                            at,
                            (PanelState { remote_ctx: None, ..before.panels@[at] }),
                        )
                        &&& after.remote_spinner matches Some(spinner)
                            && spinner.message@ == "Deleting..."@
                    },
                }
            },
            Some(
                PendingDeleteOperation::Local { entries, directory, close_image_viewer },
            ) => if close_image_viewer {
                if entries@.len() == 0 {
                    says(start, after, "Image delete confirmation expired"@)
                        && r is Nothing
                } else {
                    &&& after == start
                    &&& r == (DeleteStart::Image {
                        path: entries@[0].path,
                        source: entries@[0].authorization,
                        directory,
                    })
                }
            } else {
                &&& r == (DeleteStart::Local { entries, directory })
                &&& after == (App {
                    remote_spinner: after.remote_spinner,
                    ..start
                })
                &&& after.remote_spinner matches Some(spinner) && spinner.message@
                    == "Deleting..."@
            },
        }
    }
}

/// What deleting the image shown comes to.
pub open spec fn image_gone(
    before: App,
    after: App,
    result: Result<Vec<String>, String>,
    list: Option<ListJob>,
) -> bool {
    let told = App {
        message: after.message,
        message_timer: 10,
        current_screen: if result is Ok {
            Screen::FilePanel
        } else {
            before.current_screen
        },
        image_viewer_open: result is Err && before.image_viewer_open,
        ..before
    };
    &&& optional_text(after.message) == Some(
        match result {
            Ok(warnings) => if warnings@.len() == 0 {
                "Deleted image"@
            } else {
                "Deleted image. Warning: "@ + joined(views(warnings@), "; "@)
            },
            Err(error) => "Delete failed: "@ + error@,
        },
    )
    &&& all_refreshed(told, after, list)
}

impl App {
    /// Asks to confirm a deletion: of the image on the screen, or of the selection.
    /// `directory` and `sources` are what was seen of the directory and of each
    /// file, up to the first that could not be seen; a remote selection needs
    /// neither.
    pub fn show_delete_dialog(
        &mut self,
        image_path: Option<&str>,
        directory: Result<DirectoryAuthorization, String>,
        sources: &Vec<Result<PathAuthorization, String>>,
    )
        requires
            old(self).wf(),
            old(self).current_screen == Screen::ImageViewer && image_path is Some && directory is Ok
                ==> sources@.len() == 1,
            old(self).current_screen != Screen::ImageViewer && !old(self).active().remote()
                && directory is Ok && first_failure(sources@) is None ==> sources@.len()
                == operation_files(old(self).active()).len(),
        ensures
            asks_deletion(*old(self), *final(self), image_path, directory, sources@),
    {
        self.pending_delete_operation = None;
        if self.current_screen == Screen::ImageViewer {
            self.ask_about_image_on_screen(image_path, directory, sources);
            return;
        }
        let files = self.get_operation_files();
        assert(views(files@).len() == files@.len());
        if files.len() == 0 {
            self.show_message("No files selected");
            return;
        }
        let pending = if self.active_panel().is_remote() {
            match remote_children(self.active_panel().path.as_str(), &files) {
                Err(error) => {
                    self.show_message(error.as_str());
                    return;
                },
                Ok(paths) => PendingDeleteOperation::Remote {
                    panel_index: self.active_panel_index,
                    paths,
                },
            }
        } else {
            let dir = match directory {
                Err(error) => {
                    let text = concat2(
                        "Selection changed before deletion confirmation: ",
                        error.as_str(),
                    );
                    self.show_message(text.as_str());
                    return;
                },
                Ok(dir) => dir,
            };
            if let Some(error) = find_failure(sources) {
                let text = concat2(
                    "Selection changed before deletion confirmation: ",
                    error.as_str(),
                );
                self.show_message(text.as_str());
                return;
            }
            let entries = build_entries(dir.resolved_path.as_str(), &files, sources);
            PendingDeleteOperation::Local { entries, directory: dir, close_image_viewer: false }
        };
        let list = brief_file_list(&files);
        let text = concat3("Delete ", list.as_str(), "?");
        self.ask(DialogType::Delete, text);
        self.pending_delete_operation = Some(pending);
    }

    fn ask_about_image_on_screen(
        &mut self,
        image_path: Option<&str>,
        directory: Result<DirectoryAuthorization, String>,
        sources: &Vec<Result<PathAuthorization, String>>,
    )
        requires
            image_path is Some && directory is Ok ==> sources@.len() == 1,
        ensures
            match image_path {
                None => says(*old(self), *final(self), "No image is open"@),
                Some(path) => if local_parent(path@) is None {
                    says(*old(self), *final(self), "Cannot identify the image parent directory"@)
                } else {
                    match directory {
                        Err(error) => says(
                            *old(self),
                            *final(self),
                            "Image changed before confirmation: "@ + error@,
                        ),
                        Ok(dir) => {
                            let full = joined_path(
                                dir.resolved_path@,
                                match local_name(path@) {
                                    Some(name) => name,
                                    None => Seq::empty(),
                                },
                            );
                            match sources@[0] {
                                Err(error) => says(
                                    *old(self),
                                    *final(self),
                                    "Image changed before confirmation: "@ + error@,
                                ),
                                Ok(source) => {
                                    &&& asks_to_delete(
                                        *old(self),
                                        *final(self),
                                        match local_name(full) {
                                            Some(name) => name,
                                            None => full,
                                        },
                                    )
                                    &&& final(self).pending_delete_operation matches Some(
                                        PendingDeleteOperation::Local {
                                            entries,
                                            directory: bound,
                                            close_image_viewer,
                                        },
                                    )
                                    &&& pathed_views(entries@) == seq![(full, source)]
                                    &&& bound == dir
                                    &&& close_image_viewer
                                },
                            }
                        },
                    }
                },
            },
    {
        let path = match image_path {
            None => {
                self.show_message("No image is open");
                return;
            },
            Some(path) => path,
        };
        if parent_of_path(path).is_none() {
            self.show_message("Cannot identify the image parent directory");
            return;
        }
        let dir = match directory {
            Err(error) => {
                let text = concat2("Image changed before confirmation: ", error.as_str());
                self.show_message(text.as_str());
                return;
            },
            Ok(dir) => dir,
        };
        let name = match name_of_path(path) {
            Some(name) => name,
            None => String::new(),
        };
        let full = join_path(dir.resolved_path.as_str(), name.as_str());
        match &sources[0] {
            Err(error) => {
                let text = concat2("Image changed before confirmation: ", error.as_str());
                self.show_message(text.as_str());
            },
            Ok(source) => {
                let shown = match name_of_path(full.as_str()) {
                    Some(name) => name,
                    None => full.clone(),
                };
                let mut entries: Vec<PathedAuthorization> = Vec::new();
                let ghost wanted = full@;
                entries.push(PathedAuthorization { path: full, authorization: *source });
                assert(pathed_views(entries@) =~= seq![(wanted, *source)]);
                let text = concat3("Delete ", shown.as_str(), "?");
                self.ask(DialogType::Delete, text);
                self.pending_delete_operation =
                Some(
                    PendingDeleteOperation::Local {
                        entries,
                        directory: dir,
                        close_image_viewer: true,
                    },
                );
            },
        }
    }

    /// Forgets the deletion that the user was asked about.
    pub fn cancel_pending_delete(&mut self)
        ensures
            *final(self) == (App { pending_delete_operation: None, ..*old(self) }),
    {
        self.pending_delete_operation = None;
    }

    /// Begins the deletion that the user confirmed.
    pub fn execute_delete(&mut self) -> (r: DeleteStart)
        requires
            old(self).pending_delete_operation matches Some(
                PendingDeleteOperation::Remote { panel_index, .. },
            ) ==> panel_index < old(self).panels@.len(),
        ensures
            begins_deletion(*old(self), *final(self), r),
    {
        if self.remote_spinner.is_some() {
            return DeleteStart::Nothing;
        }
        match self.pending_delete_operation.take() {
            None => {
                self.show_message("Delete confirmation expired; select the item again");
                DeleteStart::Nothing
            },
            Some(PendingDeleteOperation::Remote { panel_index, paths }) => {
                if self.panels[panel_index].remote_ctx.is_none() {
                    self.show_message("Remote delete confirmation expired");
                    return DeleteStart::Nothing;
                }
                match self.panels[panel_index].remote_ctx.take() {
                    None => DeleteStart::Nothing,
                    Some(ctx) => {
                        assert(self.panels@ =~= old(self).panels@.update(
                            panel_index as int,
                            (PanelState {
                                remote_ctx: None,
                                ..old(self).panels@[panel_index as int]
                            }),
                        ));
                        self.remote_spinner =
                        Some(RemoteSpinner { message: "Deleting...".to_owned() });
                        DeleteStart::Remote { ctx, panel_index, paths }
                    },
                }
            },
            Some(PendingDeleteOperation::Local { entries, directory, close_image_viewer }) => {
                if close_image_viewer {
                    if entries.len() == 0 {
                        self.show_message("Image delete confirmation expired");
                        return DeleteStart::Nothing;
                    }
                    let path = entries[0].path.clone();
                    let source = entries[0].authorization;
                    return DeleteStart::Image { path, source, directory };
                }
                self.remote_spinner = Some(RemoteSpinner { message: "Deleting...".to_owned() });
                DeleteStart::Local { entries, directory }
            },
        }
    }

    /// Takes what came of deleting the image on the screen. The panels are read
    /// again; the screen closes where the image is gone.
    pub fn image_deleted(&mut self, result: Result<Vec<String>, String>) -> (list: Option<ListJob>)
        ensures
            image_gone(*old(self), *final(self), result, list),
    {
        match result {
            Ok(warnings) => {
                self.current_screen = Screen::FilePanel;
                self.image_viewer_open = false;
                if warnings.len() == 0 {
                    self.show_message("Deleted image");
                } else {
                    let all = join_texts(&warnings, "; ");
                    let text = concat2("Deleted image. Warning: ", all.as_str());
                    self.show_message(text.as_str());
                }
            },
            Err(error) => {
                let text = concat2("Delete failed: ", error.as_str());
                self.show_message(text.as_str());
            },
        }
        self.refresh_panels()
    }
}

/// What came of deleting one file.
#[derive(Debug)]
pub enum DeleteOutcome {
    /// The directory is another one: nothing more is deleted.
    DirectoryChanged(String),
    Deleted { warnings: Vec<String> },
    Failed(String),
}

/// How many files were deleted.
pub open spec fn deleted_count(outcomes: Seq<DeleteOutcome>) -> nat
    decreases outcomes.len(),
{
    if outcomes.len() == 0 {
        0
    } else {
        deleted_count(outcomes.drop_last()) + if outcomes.last() is Deleted {
            1nat
        } else {
            0nat
        }
    }
}

/// What went wrong, each with the path of its file.
pub open spec fn delete_errors(paths: Seq<Seq<char>>, outcomes: Seq<DeleteOutcome>) -> Seq<Seq<char>>
    decreases outcomes.len(),
{
    if outcomes.len() == 0 {
        Seq::empty()
    } else {
        let before = delete_errors(paths, outcomes.drop_last());
        match outcomes.last() {
            DeleteOutcome::DirectoryChanged(error) => before.push(error@),
            DeleteOutcome::Failed(error) => before.push(
                paths[outcomes.len() - 1] + ": "@ + error@,
            ),
            DeleteOutcome::Deleted { .. } => before,
        }
    }
}

/// What the user is warned of, each with the path of its file.
pub open spec fn delete_warnings(paths: Seq<Seq<char>>, outcomes: Seq<DeleteOutcome>) -> Seq<Seq<char>>
    decreases outcomes.len(),
{
    if outcomes.len() == 0 {
        Seq::empty()
    } else {
        let before = delete_warnings(paths, outcomes.drop_last());
        match outcomes.last() {
            DeleteOutcome::Deleted { warnings } => before + Seq::new(
                warnings@.len(),
                |i: int| paths[outcomes.len() - 1] + ": "@ + warnings@[i]@,
            ),
            _ => before,
        }
    }
}

/// What the user is told of a deletion.
pub open spec fn delete_text(paths: Seq<Seq<char>>, outcomes: Seq<DeleteOutcome>) -> Seq<char> {
    let done = deleted_count(outcomes);
    let warnings = delete_warnings(paths, outcomes);
    let head = if done == paths.len() {
        "Deleted "@ + decimal(done) + " file(s)"@
    } else {
        "Deleted "@ + decimal(done) + "/"@ + (decimal(paths.len()) + ". Error: "@ + joined(
            delete_errors(paths, outcomes),
            "; "@,
        ))
    };
    if warnings.len() == 0 {
        head
    } else {
        head + ". Warning: "@ + joined(warnings, "; "@)
    }
}

fn push_all(list: &mut Vec<String>, path: &str, warnings: &Vec<String>)
    ensures
        views(final(list)@) == views(old(list)@) + Seq::new(
            warnings@.len(),
            |i: int| path@ + ": "@ + warnings@[i]@,
        ),
{
    let ghost before = views(list@);
    let ghost all = Seq::new(warnings@.len(), |i: int| path@ + ": "@ + warnings@[i]@);
    let mut i: usize = 0;
    assert(before + all.take(0) =~= before);
    while i < warnings.len()
        invariant
            i <= warnings@.len(),
            all == Seq::new(warnings@.len(), |i: int| path@ + ": "@ + warnings@[i]@),
            views(list@) == before + all.take(i as int),
        decreases warnings@.len() - i,
    {
        let ghost held = list@;
        list.push(concat3(path, ": ", warnings[i].as_str()));
        assert(views(list@) =~= views(held).push(all[i as int]));
        assert(all.take(i + 1) =~= all.take(i as int).push(all[i as int]));
        assert(before + all.take(i + 1) =~= (before + all.take(i as int)).push(all[i as int]));
        i += 1;
    }
    assert(all.take(i as int) =~= all);
}

/// What the user is told of a deletion, as a success where every file is gone.
/// `outcomes` holds what came of the files in order, as far as the work went.
pub fn delete_report(paths: &Vec<String>, outcomes: &Vec<DeleteOutcome>) -> (r: Result<String, String>)
    requires
        outcomes@.len() <= paths@.len(),
    ensures
        ({
            let text = delete_text(views(paths@), outcomes@);
            if deleted_count(outcomes@) == paths@.len() {
                r matches Ok(t) && t@ == text
            } else {
                r matches Err(t) && t@ == text
            }
        }),
{
    let ghost list = views(paths@);
    let mut done: usize = 0;
    let mut errors: Vec<String> = Vec::new();
    let mut warnings: Vec<String> = Vec::new();
    let mut i: usize = 0;
    assert(outcomes@.take(0) =~= Seq::<DeleteOutcome>::empty());
    assert(views(errors@) =~= Seq::<Seq<char>>::empty());
    assert(views(warnings@) =~= Seq::<Seq<char>>::empty());
    while i < outcomes.len()
        invariant
            i <= outcomes@.len() <= paths@.len(),
            list == views(paths@),
            done <= i,
            done == deleted_count(outcomes@.take(i as int)),
            views(errors@) == delete_errors(list, outcomes@.take(i as int)),
            views(warnings@) == delete_warnings(list, outcomes@.take(i as int)),
        decreases outcomes@.len() - i,
    {
        assert(outcomes@.take(i + 1).drop_last() =~= outcomes@.take(i as int));
        assert(outcomes@.take(i + 1).last() == outcomes@[i as int]);
        assert(list[i as int] == paths@[i as int]@);
        let ghost held = errors@;
        match &outcomes[i] {
            DeleteOutcome::DirectoryChanged(error) => {
                errors.push(error.clone());
                assert(views(errors@) =~= views(held).push(error@));
            },
            DeleteOutcome::Failed(error) => {
                errors.push(concat3(paths[i].as_str(), ": ", error.as_str()));
                assert(views(errors@) =~= views(held).push(paths@[i as int]@ + ": "@ + error@));
            },
            DeleteOutcome::Deleted { warnings: more } => {
                done = done + 1;
                push_all(&mut warnings, paths[i].as_str(), more);
                assert(Seq::new(
                    more@.len(),
                    |k: int| paths@[i as int]@ + ": "@ + more@[k]@,
                ) =~= Seq::new(more@.len(), |k: int| list[i as int] + ": "@ + more@[k]@));
            },
        }
        i += 1;
    }
    assert(outcomes@.take(i as int) =~= outcomes@);
    let total: usize = paths.len();
    let count = number_text(done as u64);
    let all_gone = done == total;
    let head = if all_gone {
        concat3("Deleted ", count.as_str(), " file(s)")
    } else {
        let whole = number_text(total as u64);
        let reasons = join_texts(&errors, "; ");
        let tail = concat3(whole.as_str(), ". Error: ", reasons.as_str());
        concat4("Deleted ", count.as_str(), "/", tail.as_str())
    };
    assert(views(warnings@).len() == warnings@.len());
    let text = if warnings.len() == 0 {
        head
    } else {
        let notes = join_texts(&warnings, "; ");
        concat3(head.as_str(), ". Warning: ", notes.as_str())
    };
    if all_gone {
        Ok(text)
    } else {
        Err(text)
    }
}

/// A deletion is told as a success only where not one file was left behind.
pub proof fn law_success_means_all_are_gone(outcomes: Seq<DeleteOutcome>, total: nat)
    requires
        deleted_count(outcomes) == total,
        outcomes.len() <= total,
    ensures
        outcomes.len() == total,
        forall|i: int| 0 <= i < outcomes.len() ==> (#[trigger] outcomes[i]) is Deleted,
    decreases outcomes.len(),
{
    lemma_count_is_bounded(outcomes);
    if outcomes.len() > 0 {
        lemma_count_is_bounded(outcomes.drop_last());
        law_success_means_all_are_gone(outcomes.drop_last(), (total - 1) as nat);
        assert forall|i: int| 0 <= i < outcomes.len() implies (#[trigger] outcomes[i]) is Deleted by {
            if i < outcomes.len() - 1 {
                assert(outcomes.drop_last()[i] == outcomes[i]);
            }
        }
    }
}

proof fn lemma_count_is_bounded(outcomes: Seq<DeleteOutcome>)
    ensures
        deleted_count(outcomes) <= outcomes.len(),
    decreases outcomes.len(),
{
    if outcomes.len() > 0 {
        lemma_count_is_bounded(outcomes.drop_last());
    }
}

/// Up to three files are all named; of more the first two are, and how many follow.
pub proof fn law_brief_list_names_the_first(files: Seq<Seq<char>>)
    ensures
        files.len() == 1 ==> brief_list(files) == files[0],
        files.len() == 2 ==> brief_list(files) == files[0] + ", "@ + files[1],
        files.len() == 3 ==> brief_list(files) == files[0] + ", "@ + files[1] + ", "@ + files[2],
        files.len() > 3 ==> brief_list(files) == files[0] + ", "@ + files[1] + " and "@ + decimal(
            (files.len() - 2) as nat,
        ) + " more"@,
{
    reveal_with_fuel(joined, 4);
    if files.len() == 2 {
        assert(files.drop_last()[0] == files[0]);
    }
    if files.len() == 3 {
        assert(files.drop_last().drop_last()[0] == files[0]);
    }
    if files.len() > 3 {
        let two = files.take(2);
        assert(two.drop_last()[0] == files[0]);
    }
}

/// What is deleted is what was shown in the dialog: every file of the operation under its
/// own path with what was seen of it, in the directory that was seen; on a remote machine
/// by its path there, with the session of its panel.
pub proof fn law_agreed_files_are_deleted(
    before: App,
    asked: App,
    after: App,
    image_path: Option<&str>,
    directory: Result<DirectoryAuthorization, String>,
    sources: Seq<Result<PathAuthorization, String>>,
    r: DeleteStart,
)
    requires
        before.wf(),
        before.current_screen != Screen::ImageViewer,
        !before.active().remote() && directory is Ok && first_failure(sources) is None
            ==> sources.len() == operation_files(before.active()).len(),
        asks_deletion(before, asked, image_path, directory, sources),
        asked.remote_spinner is None,
        begins_deletion(asked, after, r),
    ensures
        ({
            let files = operation_files(before.active());
            &&& r matches DeleteStart::Local { entries, directory: bound } ==> {
                &&& !before.active().remote()
                &&& directory == Ok::<DirectoryAuthorization, String>(bound)
                &&& entries@.len() == files.len()
                &&& forall|i: int|
                    0 <= i < files.len() ==> {
                        &&& (#[trigger] entries@[i]).path@ == joined_path(
                            bound.resolved_path@,
                            files[i],
                        )
                        &&& entries@[i].authorization == sources[i]->Ok_0
                    }
            }
            &&& r matches DeleteStart::Remote { ctx, panel_index, paths } ==> {
                &&& before.active().remote_ctx == Some(ctx)
                &&& panel_index == before.active_panel_index
                &&& paths@.len() == files.len()
                &&& forall|i: int|
                    0 <= i < files.len() ==> (#[trigger] paths@[i])@ == child(
                        before.active().path@,
                        files[i],
                    ) && plain_name(files[i])
            }
            &&& !(r is Image)
            &&& files.len() == 0 ==> r is Nothing
            &&& files.len() > 0 && !before.active().remote() && directory is Ok && first_failure(
                sources,
            ) is None ==> r is Local
            &&& r is Nothing || after.pending_delete_operation is None
        }),
{
    let files = operation_files(before.active());
    if let DeleteStart::Local { entries, directory: bound } = r {
        let list = pathed_views(entries@);
        assert(list.len() == entries@.len());
        assert forall|i: int| 0 <= i < files.len() implies {
            &&& (#[trigger] entries@[i]).path@ == joined_path(bound.resolved_path@, files[i])
            &&& entries@[i].authorization == sources[i]->Ok_0
        } by {
            assert(list[i] == (entries@[i].path@, entries@[i].authorization));
            assert(list[i] == entries_below(bound.resolved_path@, files, sources)[i]);
        }
    }
    if let DeleteStart::Remote { ctx, panel_index, paths } = r {
        let list = views(paths@);
        assert(list.len() == paths@.len());
        assert forall|i: int| 0 <= i < files.len() implies (#[trigger] paths@[i])@ == child(
            before.active().path@,
            files[i],
        ) && plain_name(files[i]) by {
            assert(list[i] == children(before.active().path@, files)[i]);
        }
    }
}

/// The dialog that asks for a deletion names what is deleted and has its safe answer chosen.
pub proof fn law_deletion_is_asked_carefully(before: App, after: App, list: Seq<char>)
    requires
        asks_to_delete(before, after, list),
    ensures
        dialog_view(after.dialog) is Some,
        dialog_view(after.dialog)->0.dialog_type == DialogType::Delete,
        dialog_view(after.dialog)->0.message == "Delete "@ + list + "?"@,
        dialog_view(after.dialog)->0.selected_button == 1,
        after.panels == before.panels,
{
}

/// Every entry is told once: as deleted or with one error.
pub proof fn law_every_entry_is_told(paths: Seq<Seq<char>>, outcomes: Seq<DeleteOutcome>)
    ensures
        deleted_count(outcomes) + delete_errors(paths, outcomes).len() == outcomes.len(),
        deleted_count(outcomes) == outcomes.filter(|o: DeleteOutcome| o is Deleted).len(),
    decreases outcomes.len(),
{
    reveal(Seq::filter);
    if outcomes.len() > 0 {
        law_every_entry_is_told(paths, outcomes.drop_last());
    }
}

/// The error of an entry names the entry that it is about.
pub proof fn law_error_names_its_entry(
    paths: Seq<Seq<char>>,
    outcomes: Seq<DeleteOutcome>,
    error: String,
    warnings: Vec<String>,
)
    ensures
        delete_errors(paths, outcomes.push(DeleteOutcome::Failed(error))) == delete_errors(
            paths,
            outcomes,
        ).push(paths[outcomes.len() as int] + ": "@ + error@),
        delete_errors(paths, outcomes.push(DeleteOutcome::DirectoryChanged(error)))
            == delete_errors(paths, outcomes).push(error@),
        delete_errors(paths, outcomes.push(DeleteOutcome::Deleted { warnings })) == delete_errors(
            paths,
            outcomes,
        ),
        delete_warnings(paths, outcomes.push(DeleteOutcome::Failed(error))) == delete_warnings(
            paths,
            outcomes,
        ),
        warnings@.len() == 1 ==> delete_warnings(
            paths,
            outcomes.push(DeleteOutcome::Deleted { warnings }),
        ) == delete_warnings(paths, outcomes).push(
            paths[outcomes.len() as int] + ": "@ + warnings@[0]@,
        ),
{
    assert(outcomes.push(DeleteOutcome::Failed(error)).drop_last() =~= outcomes);
    assert(outcomes.push(DeleteOutcome::DirectoryChanged(error)).drop_last() =~= outcomes);
    let gone = outcomes.push(DeleteOutcome::Deleted { warnings });
    assert(gone.drop_last() =~= outcomes);
    if warnings@.len() == 1 {
        assert(delete_warnings(paths, gone) =~= delete_warnings(paths, outcomes).push(
            paths[outcomes.len() as int] + ": "@ + warnings@[0]@,
        ));
    }
}

/// A deletion of which everything succeeded says how many are gone; any other says how many
/// of all, and what went wrong. What the user is warned of is said last.
pub proof fn law_deletion_is_told(paths: Seq<Seq<char>>, outcomes: Seq<DeleteOutcome>)
    requires
        paths.len() == outcomes.len(),
    ensures
        ({
            let text = delete_text(paths, outcomes);
            let all = forall|i: int| 0 <= i < outcomes.len() ==> #[trigger] outcomes[i] is Deleted;
            let warnings = delete_warnings(paths, outcomes);
            let whole = "Deleted "@ + decimal(outcomes.len()) + " file(s)"@;
            &&& "Deleted "@.is_prefix_of(text)
            &&& all && warnings.len() == 0 ==> text == whole
            &&& all && warnings.len() > 0 ==> text == whole + ". Warning: "@ + joined(
                warnings,
                "; "@,
            )
            &&& !all && warnings.len() == 0 ==> joined(
                delete_errors(paths, outcomes),
                "; "@,
            ).is_suffix_of(text)
        }),
{
    let text = delete_text(paths, outcomes);
    let done = deleted_count(outcomes);
    lemma_all_deleted(outcomes);
    let errors = joined(delete_errors(paths, outcomes), "; "@);
    let middle = decimal(done) + "/"@ + (decimal(paths.len()) + ". Error: "@ + errors);
    let full = "Deleted "@ + decimal(done) + "/"@ + (decimal(paths.len()) + ". Error: "@ + errors);
    assert(full =~= "Deleted "@ + middle);
    let front = "Deleted "@ + decimal(done) + "/"@ + (decimal(paths.len()) + ". Error: "@);
    assert(full =~= front + errors);
}

proof fn lemma_all_deleted(outcomes: Seq<DeleteOutcome>)
    ensures
        deleted_count(outcomes) <= outcomes.len(),
        deleted_count(outcomes) == outcomes.len() <==> forall|i: int|
            0 <= i < outcomes.len() ==> #[trigger] outcomes[i] is Deleted,
    decreases outcomes.len(),
{
    if outcomes.len() > 0 {
        let rest = outcomes.drop_last();
        lemma_all_deleted(rest);
        assert(outcomes.last() == outcomes[outcomes.len() - 1]);
        assert forall|i: int| 0 <= i < rest.len() implies #[trigger] rest[i] == outcomes[i] by {}
        if deleted_count(outcomes) == outcomes.len() {
            assert forall|i: int| 0 <= i < outcomes.len() implies #[trigger] outcomes[i] is Deleted by {
                if i < rest.len() {
                    assert(rest[i] is Deleted);
                }
            }
        }
        if forall|i: int| 0 <= i < outcomes.len() ==> #[trigger] outcomes[i] is Deleted {
            assert forall|i: int| 0 <= i < rest.len() implies #[trigger] rest[i] is Deleted by {
                assert(outcomes[i] is Deleted);
            }
        }
    }
}

/// An image that was deleted is no longer shown; one that was not stays on the screen, and
/// the error is told.
pub proof fn law_deleted_image_is_closed(
    before: App,
    after: App,
    result: Result<Vec<String>, String>,
    list: Option<ListJob>,
)
    requires
        image_gone(before, after, result, list),
    ensures
        result is Ok ==> after.current_screen == Screen::FilePanel && !after.image_viewer_open,
        result is Err ==> after.current_screen == before.current_screen
            && after.image_viewer_open == before.image_viewer_open,
        result matches Err(error) ==> optional_text(after.message) == Some(
            "Delete failed: "@ + error@,
        ),
        result matches Ok(warnings) ==> (warnings@.len() == 0 ==> optional_text(after.message)
            == Some("Deleted image"@)),
{
}

} // verus!
