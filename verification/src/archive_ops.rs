//! Making and unpacking archives from a panel.

use crate::app_state::{says, App};
use crate::archive_names::{extract_dir_name, extract_name};
use crate::archive_run::TarRun;
use crate::clipboard::{copy_texts, operation_files};
use crate::dialogs::{dialog_view, plain_dialog, Dialog, DialogType, TarExcludeState};
use crate::names::NameSet;
use crate::panel::PanelState;
use crate::paths::{local_name, local_parent, name_of_path, parent_of_path};
use crate::progress::{fresh_operation, FileOperationProgress, FileOperationType, OperationView};
use crate::text::{concat2, concat3, concat4, views};
use crate::untar_run::UntarRun;
use vstd::prelude::*;

verus! {

/// What a wish for an archive comes to.
#[derive(Debug, Clone, Copy, PartialEq, Eq, Structural)]
pub enum TarStart {
    Refused,
    /// The user is asked about paths that are left out.
    Asked,
    /// The archive is to be made.
    Go,
}

/// The first name that was refused, or -1.
pub open spec fn first_refused(checks: Seq<Result<(), String>>) -> int
    decreases checks.len(),
{
    if checks.len() == 0 {
        -1
    } else if first_refused(checks.drop_last()) >= 0 {
        first_refused(checks.drop_last())
    } else if checks.last() is Err {
        checks.len() - 1
    } else {
        -1
    }
}

proof fn lemma_first_refused_stays(checks: Seq<Result<(), String>>, n: int)
    requires
        0 <= n <= checks.len(),
        first_refused(checks.take(n)) >= 0,
    ensures
        first_refused(checks) == first_refused(checks.take(n)),
    decreases checks.len() - n,
{
    if n < checks.len() {
        assert(checks.take(n + 1).drop_last() =~= checks.take(n));
        lemma_first_refused_stays(checks, n + 1);
    } else {
        assert(checks.take(n) =~= checks);
    }
}

/// The first name that was refused.
pub fn find_refused(checks: &Vec<Result<(), String>>) -> (r: Option<usize>)
    ensures
        match r {
            Some(i) => i < checks@.len() && first_refused(checks@) == i && checks@[i as int] is Err,
            None => first_refused(checks@) == -1,
        },
{
    let mut i: usize = 0;
    assert(checks@.take(0) =~= Seq::<Result<(), String>>::empty());
    while i < checks.len()
        invariant
            i <= checks@.len(),
            first_refused(checks@.take(i as int)) == -1,
        decreases checks@.len() - i,
    {
        assert(checks@.take(i + 1).drop_last() =~= checks@.take(i as int));
        assert(checks@.take(i + 1).last() == checks@[i as int]);
        if checks[i].is_err() {
            proof {
                lemma_first_refused_stays(checks@, i + 1);
            }
            return Some(i);
        }
        i += 1;
    }
    assert(checks@.take(i as int) =~= checks@);
    None
}

/// A preparing operation.
pub open spec fn preparing(operation_type: FileOperationType) -> OperationView {
    OperationView {
        is_active: true,
        is_preparing: true,
        preparing_message: "Preparing..."@,
        ..fresh_operation(operation_type)
    }
}

fn preparing_progress(operation_type: FileOperationType) -> (r: FileOperationProgress)
    ensures
        r@ == preparing(operation_type),
{
    let mut r = FileOperationProgress::new(operation_type);
    r.is_active = true;
    r.is_preparing = true;
    r.preparing_message = "Preparing...".to_owned();
    r
}

/// What is said of an archive path that cannot be unpacked, if anything. `found`
/// is whether the archive is there, `taken` whether its directory is.
pub open spec fn untar_refusal(remote: bool, path: Seq<char>, found: bool, taken: bool) -> Option<
    Seq<char>,
> {
    if remote {
        Some("Archive extraction is not supported on remote panels"@)
    } else {
        match local_name(path) {
            None => Some("Invalid archive path"@),
            Some(name) => if !found {
                Some("Archive not found: "@ + name)
            } else if local_parent(path) is None {
                Some("Invalid archive path"@)
            } else if taken {
                Some("Error: "@ + extract_name(name) + " already exists"@)
            } else {
                None
            },
        }
    }
}

/// What a wish for an archive comes to.
pub open spec fn wants_tar(
    before: App,
    after: App,
    archive_name: Seq<char>,
    name_check: Result<(), String>,
    checks: Seq<Result<(), String>>,
    found: bool,
    excluded: Vec<String>,
    r: TarStart,
) -> bool {
    let files = operation_files(before.active());
    if before.active().remote() {
        says(
            before,
            after,
            "Archive creation is not supported on remote panels"@,
        ) && r == TarStart::Refused
    } else if name_check is Err {
        says(before, after, "Error: "@ + name_check->Err_0@)
            && r == TarStart::Refused
    } else if files.len() == 0 {
        says(before, after, "No files to archive"@) && r == TarStart::Refused
    } else if first_refused(checks) >= 0 {
        says(
            before,
            after,
            "Invalid filename '"@ + files[first_refused(checks)] + "': "@
                + checks[first_refused(checks)]->Err_0@,
        ) && r == TarStart::Refused
    } else if found {
        says(before, after, "Error: "@ + archive_name + " already exists"@)
            && r == TarStart::Refused
    } else if excluded@.len() > 0 {
        &&& r == TarStart::Asked
        &&& after == (App {
            tar_exclude_state: after.tar_exclude_state,
            dialog: after.dialog,
            ..before
        })
        &&& after.tar_exclude_state matches Some(state)
        &&& state.archive_name@ == archive_name
        &&& views(state.files@) == files
        &&& state.excluded_paths == excluded
        &&& state.scroll_offset == 0
        &&& dialog_view(after.dialog) == Some(
            plain_dialog(DialogType::TarExcludeConfirm, Seq::empty(), Seq::empty()),
        )
    } else {
        after == before && r == TarStart::Go
    }
}

impl App {
    /// Decides on a wish for an archive. `name_check` is whether its name may be
    /// used, `checks` the same for each file, `found` whether the archive is
    /// already there, and `excluded` what has to be left out of it.
    pub fn execute_tar(
        &mut self,
        archive_name: &str,
        name_check: Result<(), String>,
        checks: &Vec<Result<(), String>>,
        found: bool,
        excluded: Vec<String>,
    ) -> (r: TarStart)
        requires
            old(self).wf(),
            operation_files(old(self).active()).len() == checks@.len(),
        ensures
            wants_tar(*old(self), *final(self), archive_name@, name_check, checks@, found, excluded, r),
    {
        if self.active_panel().is_remote() {
            self.show_message("Archive creation is not supported on remote panels");
            return TarStart::Refused;
        }
        if let Err(error) = name_check {
            let text = concat2("Error: ", error.as_str());
            self.show_message(text.as_str());
            return TarStart::Refused;
        }
        let files = self.get_operation_files();
        assert(views(files@).len() == files@.len());
        if files.len() == 0 {
            self.show_message("No files to archive");
            return TarStart::Refused;
        }
        if let Some(i) = find_refused(checks) {
            assert(views(files@)[i as int] == files@[i as int]@);
            if let Err(error) = &checks[i] {
                let text = concat4(
                    "Invalid filename '",
                    files[i].as_str(),
                    "': ",
                    error.as_str(),
                );
                self.show_message(text.as_str());
            }
            return TarStart::Refused;
        }
        if found {
            let text = concat3("Error: ", archive_name, " already exists");
            self.show_message(text.as_str());
            return TarStart::Refused;
        }
        if excluded.len() > 0 {
            self.tar_exclude_state =
            Some(
                TarExcludeState {
                    archive_name: archive_name.to_owned(),
                    files,
                    excluded_paths: excluded,
                    scroll_offset: 0,
                },
            );
            let dialog = Dialog::plain(
                DialogType::TarExcludeConfirm,
                String::new(),
                String::new(),
            );
            assert(dialog@ == plain_dialog(
                DialogType::TarExcludeConfirm,
                Seq::empty(),
                Seq::empty(),
            ));
            self.dialog = Some(dialog);
            return TarStart::Asked;
        }
        TarStart::Go
    }

    /// Begins to make an archive. `reserved` is whether a file that it is written
    /// to could be made.
    pub fn execute_tar_with_excludes(
        &mut self,
        archive_name: &str,
        files: &Vec<String>,
        excluded: &Vec<String>,
        reserved: Result<(), String>,
    ) -> (r: Option<TarRun>)
        requires
            old(self).wf(),
        ensures
            match reserved {
                Err(error) => says(
                    *old(self),
                    *final(self),
                    "Error: cannot create temporary archive: "@ + error@,
                ) && r is None,
                Ok(_) => {
                    let at = old(self).active_panel_index as int;
                    &&& *final(self) == (App {
                        panels: final(self).panels,
                        file_operation_progress: final(self).file_operation_progress,
                        pending_tar_archive: final(self).pending_tar_archive,
                        dialog: final(self).dialog,
                        ..*old(self)
                    })
                    &&& final(self).panels@ == old(self).panels@.update(
                        at,
                        (PanelState {
                            selected_files: final(self).panels@[at].selected_files,
                            ..old(self).active()
                        }),
                    )
                    &&& final(self).panels@[at].selected_files@ == Set::<Seq<char>>::empty()
                    &&& final(self).file_operation_progress matches Some(progress) && progress@
                        == preparing(FileOperationType::Tar)
                    &&& final(self).pending_tar_archive matches Some(name) && name@ == archive_name@
                    &&& dialog_view(final(self).dialog) == Some(
                        plain_dialog(DialogType::Progress, Seq::empty(), Seq::empty()),
                    )
                    &&& r matches Some(run)
                    &&& run.is_fresh()
                    &&& run.name() == archive_name@
                    &&& run.files@ == files@
                    &&& run.excluded@ == excluded@
                },
            },
    {
        if let Err(error) = reserved {
            let text = concat2("Error: cannot create temporary archive: ", error.as_str());
            self.show_message(text.as_str());
            return None;
        }
        let at: usize = self.active_panel_index;
        self.panels[at].selected_files = NameSet::new();
        self.file_operation_progress = Some(preparing_progress(FileOperationType::Tar));
        self.pending_tar_archive = Some(archive_name.to_owned());
        let dialog = Dialog::plain(DialogType::Progress, String::new(), String::new());
        assert(dialog@ == plain_dialog(DialogType::Progress, Seq::empty(), Seq::empty()));
        self.dialog = Some(dialog);
        Some(TarRun::start(archive_name.to_owned(), copy_texts(files), copy_texts(excluded)))
    }

    /// Begins to unpack an archive beside itself. `found` is whether the archive
    /// is there, `taken` whether the directory that it is unpacked into is.
    pub fn execute_untar(&mut self, archive_path: &str, found: bool, taken: bool) -> (r: Option<
        UntarRun,
    >)
        requires
            old(self).wf(),
        ensures
            match untar_refusal(old(self).active().remote(), archive_path@, found, taken) {
                Some(text) => says(*old(self), *final(self), text) && r is None,
                None => {
                    let name = local_name(archive_path@)->0;
                    &&& *final(self) == (App {
                        file_operation_progress: final(self).file_operation_progress,
                        pending_extract_dir: final(self).pending_extract_dir,
                        dialog: final(self).dialog,
                        ..*old(self)
                    })
                    &&& final(self).file_operation_progress matches Some(progress) && progress@
                        == preparing(FileOperationType::Untar)
                    &&& final(self).pending_extract_dir matches Some(dir) && dir@ == extract_name(name)
                    &&& dialog_view(final(self).dialog) == Some(
                        plain_dialog(DialogType::Progress, Seq::empty(), Seq::empty()),
                    )
                    &&& r matches Some(run)
                    &&& run.is_fresh()
                    &&& run.archive_path@ == archive_path@
                    &&& run.archive_name@ == name
                    &&& run.name() == extract_name(name)
                },
            },
    {
        if self.active_panel().is_remote() {
            self.show_message("Archive extraction is not supported on remote panels");
            return None;
        }
        let name = match name_of_path(archive_path) {
            Some(name) => name,
            None => {
                self.show_message("Invalid archive path");
                return None;
            },
        };
        if !found {
            let text = concat2("Archive not found: ", name.as_str());
            self.show_message(text.as_str());
            return None;
        }
        if parent_of_path(archive_path).is_none() {
            self.show_message("Invalid archive path");
            return None;
        }
        let dir = extract_dir_name(name.as_str());
        if taken {
            let text = concat3("Error: ", dir.as_str(), " already exists");
            self.show_message(text.as_str());
            return None;
        }
        self.file_operation_progress = Some(preparing_progress(FileOperationType::Untar));
        self.pending_extract_dir = Some(dir.clone());
        let dialog = Dialog::plain(DialogType::Progress, String::new(), String::new());
        assert(dialog@ == plain_dialog(DialogType::Progress, Seq::empty(), Seq::empty()));
        self.dialog = Some(dialog);
        Some(UntarRun::start(archive_path.to_owned(), name, dir))
    }
}

/// The name that is refused is the first one that was not accepted.
pub proof fn law_first_refused_name(checks: Seq<Result<(), String>>)
    ensures
        first_refused(checks) < 0 <==> forall|i: int|
            0 <= i < checks.len() ==> (#[trigger] checks[i]) is Ok,
        first_refused(checks) >= 0 ==> {
            &&& first_refused(checks) < checks.len()
            &&& checks[first_refused(checks)] is Err
            &&& forall|i: int| 0 <= i < first_refused(checks) ==> (#[trigger] checks[i]) is Ok
        },
    decreases checks.len(),
{
    if checks.len() > 0 {
        let rest = checks.drop_last();
        law_first_refused_name(rest);
        assert(checks[checks.len() - 1] == checks.last());
        assert forall|i: int| 0 <= i < rest.len() implies (#[trigger] rest[i]) == checks[i] by {}
        if first_refused(rest) >= 0 {
            let at = first_refused(rest);
            assert(rest[at] == checks[at]);
            assert forall|i: int| 0 <= i < at implies (#[trigger] checks[i]) is Ok by {
                assert(rest[i] is Ok);
            }
        } else {
            assert forall|i: int| 0 <= i < rest.len() implies (#[trigger] checks[i]) is Ok by {
                assert(rest[i] is Ok);
            }
        }
    }
}

/// An archive is made at once exactly where its panel is one of this machine, its name and
/// those of its files are accepted, nothing has its name yet and nothing has to be left out;
/// with something left out it is asked about first.
pub proof fn law_archive_is_made_only_when_allowed(
    before: App,
    after: App,
    archive_name: Seq<char>,
    name_check: Result<(), String>,
    checks: Seq<Result<(), String>>,
    found: bool,
    excluded: Vec<String>,
    r: TarStart,
)
    requires
        before.wf(),
        operation_files(before.active()).len() == checks.len(),
        wants_tar(before, after, archive_name, name_check, checks, found, excluded, r),
    ensures
        ({
            let allowed = !before.active().remote() && name_check is Ok && checks.len() > 0 && !found
                && forall|i: int| 0 <= i < checks.len() ==> (#[trigger] checks[i]) is Ok;
            &&& r == TarStart::Refused <==> !allowed
            &&& r == TarStart::Asked <==> allowed && excluded@.len() > 0
            &&& r == TarStart::Go <==> allowed && excluded@.len() == 0
            &&& r == TarStart::Go ==> after == before
            &&& r == TarStart::Asked ==> after.tar_exclude_state is Some
                && after.tar_exclude_state->0.excluded_paths == excluded && views(
                after.tar_exclude_state->0.files@,
            ) == operation_files(before.active())
        }),
{
    law_first_refused_name(checks);
}

/// An archive is unpacked exactly where it is a file of this machine that is there, in a
/// directory in which nothing has the name of what it is unpacked to.
pub proof fn law_archive_is_unpacked_only_when_allowed(
    remote: bool,
    path: Seq<char>,
    found: bool,
    taken: bool,
)
    ensures
        untar_refusal(remote, path, found, taken) is None <==> {
            &&& !remote
            &&& local_name(path) is Some
            &&& local_parent(path) is Some
            &&& found
            &&& !taken
        },
{
}

} // verus!
