//! The clipboard: what is put on it, and what stays on it once a move has ended.

use crate::app_state::{says, App};
use crate::authorization::{DirectoryAuthorization, NamedAuthorization, PathAuthorization};
use crate::dialogs::{Clipboard, ClipboardOperation};
use crate::panel::PanelState;
use crate::progress::FileOperationProgress;
use crate::text::{concat2, decimal, number_text, same_text, views};
use vstd::prelude::*;

verus! {

/// The local objects that were chosen, and the directory that they are in.
#[derive(Debug)]
pub struct ClipboardSources {
    pub items: Vec<NamedAuthorization>,
    pub directory: Option<DirectoryAuthorization>,
}

/// Whether a name is among those of a list.
pub open spec fn listed(list: Seq<String>, name: Seq<char>) -> bool {
    exists|i: int| 0 <= i < list.len() && (#[trigger] list[i])@ == name
}

/// A copy of a list of texts.
pub fn copy_texts(list: &Vec<String>) -> (r: Vec<String>)
    ensures
        r@ == list@,
{
    let mut r: Vec<String> = Vec::new();
    let mut i: usize = 0;
    while i < list.len()
        invariant
            i <= list@.len(),
            r@ == list@.take(i as int),
        decreases list@.len() - i,
    {
        r.push(list[i].clone());
        i += 1;
        assert(list@.take(i as int) == list@.take(i - 1).push(list@[i - 1]));
    }
    assert(list@.take(i as int) == list@);
    r
}

/// Whether a text is among those of a list.
pub fn holds_name(list: &Vec<String>, name: &str) -> (r: bool)
    ensures
        r == listed(list@, name@),
{
    let mut i: usize = 0;
    while i < list.len()
        invariant
            i <= list@.len(),
            forall|k: int| 0 <= k < i ==> (#[trigger] list@[k])@ != name@,
        decreases list@.len() - i,
    {
        if same_text(list[i].as_str(), name) {
            assert(list@[i as int]@ == name@);
            return true;
        }
        i += 1;
    }
    false
}

/// The first capture that failed.
pub open spec fn first_failure(items: Seq<Result<PathAuthorization, String>>) -> Option<String>
    decreases items.len(),
{
    if items.len() == 0 {
        None
    } else {
        match first_failure(items.drop_last()) {
            Some(error) => Some(error),
            None => match items.last() {
                Ok(_) => None,
                Err(error) => Some(error),
            },
        }
    }
}

/// Each name with what was seen under it.
pub open spec fn paired(files: Seq<String>, items: Seq<Result<PathAuthorization, String>>) -> Seq<
    NamedAuthorization,
> {
    Seq::new(
        files.len(),
        |i: int| NamedAuthorization { name: files[i], authorization: items[i]->Ok_0 },
    )
}

/// What a selection is bound to: nothing on a remote panel; else the directory
/// and each of the files, where all of them could be seen. `items` holds what was
/// seen of each file, up to the first one that could not be.
pub fn capture_local_clipboard_authorizations(
    is_remote: bool,
    files: &Vec<String>,
    directory: Result<DirectoryAuthorization, String>,
    items: &Vec<Result<PathAuthorization, String>>,
) -> (r: Result<ClipboardSources, String>)
    requires
        !is_remote && directory is Ok && first_failure(items@) is None ==> items@.len()
            == files@.len(),
    ensures
        is_remote ==> (r matches Ok(s) && s.items@.len() == 0 && s.directory is None),
        !is_remote ==> match directory {
            Err(error) => r matches Err(e) && e == error,
            Ok(d) => match first_failure(items@) {
                Some(error) => r matches Err(e) && e == error,
                None => r matches Ok(s) && s.directory == Some(d) && s.items@ == paired(
                    files@,
                    items@,
                ),
            },
        },
{
    if is_remote {
        return Ok(ClipboardSources { items: Vec::new(), directory: None });
    }
    let found = match directory {
        Err(error) => {
            return Err(error);
        },
        Ok(found) => found,
    };
    let mut i: usize = 0;
    while i < items.len()
        invariant
            i <= items@.len(),
            !is_remote,
            directory == Ok::<DirectoryAuthorization, String>(found),
            first_failure(items@.take(i as int)) is None,
            forall|k: int| 0 <= k < i ==> (#[trigger] items@[k]) is Ok,
        decreases items@.len() - i,
    {
        assert(items@.take(i + 1).drop_last() == items@.take(i as int));
        match &items[i] {
            Ok(_) => {},
            Err(error) => {
                proof {
                    lemma_first_failure_stays(items@, i + 1);
                }
                return Err(error.clone());
            },
        }
        i += 1;
    }
    assert(items@.take(i as int) == items@);
    let mut list: Vec<NamedAuthorization> = Vec::new();
    let mut k: usize = 0;
    while k < files.len()
        invariant
            k <= files@.len(),
            files@.len() == items@.len(),
            forall|m: int| 0 <= m < items@.len() ==> (#[trigger] items@[m]) is Ok,
            list@ == paired(files@, items@).take(k as int),
        decreases files@.len() - k,
    {
        assert(items@[k as int] is Ok);
        if let Ok(authorization) = &items[k] {
            list.push(NamedAuthorization { name: files[k].clone(), authorization: *authorization });
        }
        assert(paired(files@, items@).take(k + 1) == paired(files@, items@).take(k as int).push(
            paired(files@, items@)[k as int],
        ));
        k += 1;
    }
    assert(paired(files@, items@).take(k as int) == paired(files@, items@));
    Ok(ClipboardSources { items: list, directory: Some(found) })
}

proof fn lemma_first_failure_stays(items: Seq<Result<PathAuthorization, String>>, n: int)
    requires
        0 <= n <= items.len(),
        first_failure(items.take(n)) is Some,
    ensures
        first_failure(items) == first_failure(items.take(n)),
    decreases items.len() - n,
{
    if n < items.len() {
        assert(items.take(n + 1).drop_last() == items.take(n));
        lemma_first_failure_stays(items, n + 1);
    } else {
        assert(items.take(n) == items);
    }
}

/// The names that an operation works on: the marked ones, or the one under the
/// cursor where none is marked. The line to the parent is none.
pub open spec fn operation_files(panel: PanelState) -> Seq<Seq<char>> {
    if panel.selected_files@ != Set::<Seq<char>>::empty() {
        panel.selected_files.in_order()
    } else {
        match panel.current() {
            Some(item) => if item.name@ == ".."@ {
                Seq::empty()
            } else {
                seq![item.name@]
            },
            None => Seq::empty(),
        }
    }
}

/// The directory that the files of a clipboard are in.
pub open spec fn source_root(clipboard: Clipboard) -> Seq<char> {
    match clipboard.source_directory_authorization {
        Some(directory) => directory.resolved_path@,
        None => clipboard.source_path@,
    }
}

/// The names of `files` for which `keep` holds, in their order.
pub open spec fn kept(files: Seq<String>, keep: Seq<bool>) -> Seq<String>
    decreases files.len(),
{
    if files.len() == 0 {
        files
    } else {
        let before = kept(files.drop_last(), keep.drop_last());
        if keep.last() {
            before.push(files.last())
        } else {
            before
        }
    }
}

/// The names for which `keep` holds, in their order.
pub fn keep_names(files: &Vec<String>, keep: &Vec<bool>) -> (r: Vec<String>)
    requires
        files@.len() == keep@.len(),
    ensures
        r@ == kept(files@, keep@),
{
    let mut r: Vec<String> = Vec::new();
    let mut i: usize = 0;
    while i < files.len()
        invariant
            i <= files@.len(),
            files@.len() == keep@.len(),
            r@ == kept(files@.take(i as int), keep@.take(i as int)),
        decreases files@.len() - i,
    {
        if keep[i] {
            r.push(files[i].clone());
        }
        assert(files@.take(i + 1).drop_last() == files@.take(i as int));
        assert(keep@.take(i + 1).drop_last() == keep@.take(i as int));
        i += 1;
    }
    assert(files@.take(i as int) == files@);
    assert(keep@.take(i as int) == keep@);
    r
}

/// Whether a name of a finished move stays on the clipboard. `present` is whether
/// it is still there at the source.
pub open spec fn stays_cut(
    succeeded: bool,
    remote: bool,
    progress: Option<FileOperationProgress>,
    name: Seq<char>,
    present: bool,
) -> bool {
    if succeeded {
        present && (progress matches Some(p) && p.skipped_cut_item_names@.contains(name))
    } else if remote {
        !(progress matches Some(p) && p.completed_item_names@.contains(name))
    } else {
        present && !(progress matches Some(p) && p.terminal_item_names@.contains(name))
    }
}

/// What of a cut stays on the clipboard.
pub open spec fn stays(
    succeeded: bool,
    progress: Option<FileOperationProgress>,
    clipboard: Clipboard,
    present: Seq<bool>,
) -> Seq<bool> {
    Seq::new(
        clipboard.files@.len(),
        |i: int|
            stays_cut(
                succeeded,
                clipboard.source_remote_profile is Some,
                progress,
                clipboard.files@[i]@,
                present[i],
            ),
    )
}

/// The word for what a clipboard is for.
pub open spec fn operation_word(operation: ClipboardOperation) -> Seq<char> {
    match operation {
        ClipboardOperation::Copy => "copy"@,
        ClipboardOperation::Cut => "cut"@,
    }
}

/// What the end of moving cut files does to the clipboard.
pub open spec fn cut_finished(
    before: App,
    after: App,
    succeeded: bool,
    present: Seq<bool>,
) -> bool {
    match before.pending_cut_clipboard {
        None => after.clipboard == before.clipboard,
        Some(c) => {
            let left = kept(
                c.files@,
                stays(succeeded, before.file_operation_progress, c, present),
            );
            if left.len() == 0 {
                after.clipboard == before.clipboard
            } else {
                &&& after.clipboard is Some
                &&& after.clipboard->0 == (Clipboard {
                    files: after.clipboard->0.files,
                    ..c
                })
                &&& after.clipboard->0.files@ == left
            }
        },
    }
}

impl App {
    /// The names that an operation works on.
    pub fn get_operation_files(&self) -> (r: Vec<String>)
        requires
            self.wf(),
        ensures
            views(r@) == operation_files(self.active()),
            self.active().selected_files@ != Set::<Seq<char>>::empty() ==> views(r@).to_set()
                == self.active().selected_files@ && views(r@).no_duplicates(),
    {
        let panel = self.active_panel();
        if !panel.selected_files.is_empty() {
            panel.selected_files.to_list()
        } else {
            let mut r: Vec<String> = Vec::new();
            if let Some(file) = panel.current_file() {
                if !same_text(file.name.as_str(), "..") {
                    r.push(file.name.clone());
                    assert(views(r@) =~= seq![file.name@]);
                    return r;
                }
            }
            assert(views(r@) =~= Seq::<Seq<char>>::empty());
            r
        }
    }

    fn put_on_clipboard(
        &mut self,
        directory: Result<DirectoryAuthorization, String>,
        items: &Vec<Result<PathAuthorization, String>>,
        operation: ClipboardOperation,
    )
        requires
            old(self).wf(),
            all_seen(old(self).active(), directory, items@),
        ensures
            is_clipboard_change(*old(self), *final(self), directory, items@, operation),
    {
        let files = self.get_operation_files();
        assert(views(files@).len() == files@.len());
        if files.len() == 0 {
            self.show_message("No files selected");
            return;
        }
        let is_remote = self.active_panel().remote_ctx.is_some();
        match capture_local_clipboard_authorizations(is_remote, &files, directory, items) {
            Err(error) => {
                let text = match operation {
                    ClipboardOperation::Copy => concat2(
                        "Selection changed before it could be copied: ",
                        error.as_str(),
                    ),
                    ClipboardOperation::Cut => concat2(
                        "Selection changed before it could be cut: ",
                        error.as_str(),
                    ),
                };
                self.show_message(text.as_str());
            },
            Ok(sources) => {
                let count = number_text(files.len() as u64);
                let panel = self.active_panel();
                let source_path = match &sources.directory {
                    Some(directory) => directory.resolved_path.clone(),
                    None => panel.path.clone(),
                };
                let profile = match &panel.remote_ctx {
                    Some(context) => Some(context.profile.clone()),
                    None => None,
                };
                self.clipboard = Some(
                    Clipboard {
                        files,
                        source_path,
                        operation,
                        source_remote_profile: profile,
                        source_authorizations: sources.items,
                        source_directory_authorization: sources.directory,
                    },
                );
                let text = match operation {
                    ClipboardOperation::Copy => concat2(
                        count.as_str(),
                        " file(s) copied to clipboard",
                    ),
                    ClipboardOperation::Cut => concat2(count.as_str(), " file(s) cut to clipboard"),
                };
                self.show_message(text.as_str());
            },
        }
    }

    /// Puts the selection on the clipboard to be copied. `directory` and `items` are
    /// what was seen of the directory and of each file, up to the first that could
    /// not be seen; a remote selection needs neither.
    pub fn clipboard_copy(
        &mut self,
        directory: Result<DirectoryAuthorization, String>,
        items: &Vec<Result<PathAuthorization, String>>,
    )
        requires
            old(self).wf(),
            all_seen(old(self).active(), directory, items@),
        ensures
            is_clipboard_change(
                *old(self),
                *final(self),
                directory,
                items@,
                ClipboardOperation::Copy,
            ),
    {
        self.put_on_clipboard(directory, items, ClipboardOperation::Copy);
    }

    /// Puts the selection on the clipboard to be moved. `directory` and `items` are
    /// what was seen of it, as for a copy.
    pub fn clipboard_cut(
        &mut self,
        directory: Result<DirectoryAuthorization, String>,
        items: &Vec<Result<PathAuthorization, String>>,
    )
        requires
            old(self).wf(),
            all_seen(old(self).active(), directory, items@),
        ensures
            is_clipboard_change(
                *old(self),
                *final(self),
                directory,
                items@,
                ClipboardOperation::Cut,
            ),
    {
        self.put_on_clipboard(directory, items, ClipboardOperation::Cut);
    }

    /// Ends a move. Where it succeeded, the clipboard keeps only the files that
    /// were skipped on purpose; else those that are left to be moved. `present`
    /// is whether each file of the cut is still there.
    pub fn finish_pending_cut_operation(&mut self, succeeded: bool, present: &Vec<bool>)
        requires
            old(self).pending_cut_clipboard matches Some(c) ==> present@.len() == c.files@.len(),
        ensures
            *final(self) == (App {
                clipboard: final(self).clipboard,
                pending_cut_clipboard: None,
                ..*old(self)
            }),
            cut_finished(*old(self), *final(self), succeeded, present@),
    {
        if let Some(clipboard) = self.pending_cut_clipboard.take() {
            let mut clipboard = clipboard;
            let ghost whole = clipboard;
            let remote = clipboard.source_remote_profile.is_some();
            let mut keep: Vec<bool> = Vec::new();
            let mut i: usize = 0;
            let ghost wanted = stays(succeeded, self.file_operation_progress, clipboard, present@);
            while i < clipboard.files.len()
                invariant
                    i <= clipboard.files@.len(),
                    present@.len() == clipboard.files@.len(),
                    remote == (clipboard.source_remote_profile is Some),
                    wanted == stays(succeeded, self.file_operation_progress, clipboard, present@),
                    keep@ == wanted.take(i as int),
                decreases clipboard.files@.len() - i,
            {
                let name = clipboard.files[i].as_str();
                let flag = match &self.file_operation_progress {
                    None => if succeeded {
                        false
                    } else if remote {
                        true
                    } else {
                        present[i]
                    },
                    Some(progress) => if succeeded {
                        present[i] && progress.skipped_cut_item_names.contains(name)
                    } else if remote {
                        !progress.completed_item_names.contains(name)
                    } else {
                        present[i] && !progress.terminal_item_names.contains(name)
                    },
                };
                keep.push(flag);
                assert(wanted.take(i + 1) == wanted.take(i as int).push(wanted[i as int]));
                i += 1;
            }
            assert(wanted.take(i as int) == wanted);
            let left = keep_names(&clipboard.files, &keep);
            if left.len() > 0 {
                clipboard.files = left;
                self.clipboard = Some(clipboard);
            }
        }
    }

    /// Whether anything is on the clipboard.
    pub fn has_clipboard(&self) -> (r: bool)
        ensures
            r == (self.clipboard is Some),
    {
        self.clipboard.is_some()
    }

    /// How many files are on the clipboard, and what for.
    pub fn clipboard_info(&self) -> (r: Option<(usize, &str)>)
        ensures
            match self.clipboard {
                Some(c) => r matches Some((count, word)) && count == c.files@.len() && word@
                    == operation_word(c.operation),
                None => r is None,
            },
    {
        match &self.clipboard {
            Some(clipboard) => {
                let word = match clipboard.operation {
                    ClipboardOperation::Copy => "copy",
                    ClipboardOperation::Cut => "cut",
                };
                Some((clipboard.files.len(), word))
            },
            None => None,
        }
    }
}

/// Whether each file of a local selection was looked at, where nothing failed.
pub open spec fn all_seen(
    panel: PanelState,
    directory: Result<DirectoryAuthorization, String>,
    items: Seq<Result<PathAuthorization, String>>,
) -> bool {
    panel.remote_ctx is None && directory is Ok && first_failure(items) is None ==> items.len()
        == operation_files(panel).len()
}

/// Why a selection could not be bound to what was seen of it.
pub open spec fn capture_error(
    panel: PanelState,
    directory: Result<DirectoryAuthorization, String>,
    items: Seq<Result<PathAuthorization, String>>,
) -> Option<String> {
    if panel.remote_ctx is Some {
        None
    } else {
        match directory {
            Err(error) => Some(error),
            Ok(_) => first_failure(items),
        }
    }
}

/// Whether the clipboard holds the selection of the panel, bound to what was seen
/// of it.
pub open spec fn is_clipboard_of(
    clipboard: Clipboard,
    panel: PanelState,
    directory: Result<DirectoryAuthorization, String>,
    items: Seq<Result<PathAuthorization, String>>,
    operation: ClipboardOperation,
) -> bool {
    &&& views(clipboard.files@) == operation_files(panel)
    &&& clipboard.operation == operation
    &&& match panel.remote_ctx {
        Some(context) => {
            &&& clipboard.source_path == panel.path
            &&& clipboard.source_remote_profile == Some(context.profile)
            &&& clipboard.source_authorizations@.len() == 0
            &&& clipboard.source_directory_authorization is None
        },
        None => {
            &&& clipboard.source_path == directory->Ok_0.resolved_path
            &&& clipboard.source_remote_profile is None
            &&& clipboard.source_authorizations@ == paired(clipboard.files@, items)
            &&& clipboard.source_directory_authorization == Some(directory->Ok_0)
        },
    }
}

/// What putting the selection on the clipboard comes to.
pub open spec fn is_clipboard_change(
    before: App,
    after: App,
    directory: Result<DirectoryAuthorization, String>,
    items: Seq<Result<PathAuthorization, String>>,
    operation: ClipboardOperation,
) -> bool {
    let panel = before.active();
    let files = operation_files(panel);
    if files.len() == 0 {
        says(before, after, "No files selected"@)
    } else {
        match capture_error(panel, directory, items) {
            Some(error) => says(
                before,
                after,
                match operation {
                    ClipboardOperation::Copy => "Selection changed before it could be copied: "@,
                    ClipboardOperation::Cut => "Selection changed before it could be cut: "@,
                } + error@,
            ),
            None => {
                &&& after.clipboard matches Some(c)
                &&& says(
                    App { clipboard: Some(c), ..before },
                    after,
                    decimal(files.len()) + match operation {
                        ClipboardOperation::Copy => " file(s) copied to clipboard"@,
                        ClipboardOperation::Cut => " file(s) cut to clipboard"@,
                    },
                )
                &&& is_clipboard_of(c, panel, directory, items, operation)
            },
        }
    }
}

/// A move that succeeded leaves nothing on the clipboard but what was skipped,
/// and a move that failed loses no file that is still to be moved.
pub proof fn law_cut_keeps_what_is_left(
    progress: FileOperationProgress,
    name: Seq<char>,
    present: bool,
)
    ensures
        stays_cut(true, false, Some(progress), name, present)
            ==> progress.skipped_cut_item_names@.contains(name),
        present && !progress.terminal_item_names@.contains(name) ==> stays_cut(
            false,
            false,
            Some(progress),
            name,
            present,
        ),
        !progress.completed_item_names@.contains(name) ==> stays_cut(
            false,
            true,
            Some(progress),
            name,
            present,
        ),
{
}

/// What is kept are the flagged files, in their order.
pub proof fn law_flagged_files_are_kept(files: Seq<String>, keep: Seq<bool>, name: Seq<char>)
    requires
        keep.len() == files.len(),
    ensures
        kept(files, keep).len() <= files.len(),
        listed(kept(files, keep), name) <==> exists|i: int|
            0 <= i < files.len() && #[trigger] keep[i] && files[i]@ == name,
        (forall|i: int| 0 <= i < keep.len() ==> keep[i]) ==> kept(files, keep) == files,
        (forall|i: int| 0 <= i < keep.len() ==> !keep[i]) ==> kept(files, keep).len() == 0,
    decreases files.len(),
{
    if files.len() > 0 {
        let rest = files.drop_last();
        let less = keep.drop_last();
        law_flagged_files_are_kept(rest, less, name);
        let before = kept(rest, less);
        let now = kept(files, keep);
        let last = files.len() - 1;
        if listed(before, name) {
            let k = choose|k: int| 0 <= k < before.len() && (#[trigger] before[k])@ == name;
            assert(now[k]@ == name);
            let i = choose|i: int| 0 <= i < rest.len() && #[trigger] less[i] && rest[i]@ == name;
            assert(keep[i] && files[i]@ == name);
        }
        if listed(now, name) && !listed(before, name) {
            let k = choose|k: int| 0 <= k < now.len() && (#[trigger] now[k])@ == name;
            if k < before.len() {
                assert(before[k]@ == name);
            }
            assert(keep[last] && files[last]@ == name);
        }
        if exists|i: int| 0 <= i < files.len() && #[trigger] keep[i] && files[i]@ == name {
            let i = choose|i: int| 0 <= i < files.len() && #[trigger] keep[i] && files[i]@ == name;
            if i < last {
                assert(less[i] && rest[i]@ == name);
            } else {
                assert(now[now.len() - 1]@ == name);
            }
        }
        if forall|i: int| 0 <= i < keep.len() ==> keep[i] {
            assert forall|i: int| 0 <= i < less.len() implies less[i] by {
                assert(keep[i]);
            }
            assert(keep[last]);
            assert(rest.push(files.last()) =~= files);
        }
        if forall|i: int| 0 <= i < keep.len() ==> !keep[i] {
            assert forall|i: int| 0 <= i < less.len() implies !less[i] by {
                assert(!keep[i]);
            }
            assert(!keep[last]);
        }
    } else {
        assert(kept(files, keep) =~= files);
    }
}

/// The first error is told, and none where every object was seen.
pub proof fn law_first_error_is_told(items: Seq<Result<PathAuthorization, String>>)
    ensures
        first_failure(items) is None <==> forall|i: int|
            0 <= i < items.len() ==> (#[trigger] items[i]) is Ok,
        first_failure(items) matches Some(error) ==> exists|i: int|
            0 <= i < items.len() && (#[trigger] items[i]) == Err::<PathAuthorization, String>(error)
                && forall|j: int| 0 <= j < i ==> (#[trigger] items[j]) is Ok,
    decreases items.len(),
{
    if items.len() > 0 {
        let rest = items.drop_last();
        law_first_error_is_told(rest);
        if let Some(error) = first_failure(rest) {
            let i = choose|i: int|
                0 <= i < rest.len() && (#[trigger] rest[i]) == Err::<PathAuthorization, String>(
                    error,
                ) && forall|j: int| 0 <= j < i ==> (#[trigger] rest[j]) is Ok;
            assert(items[i] == rest[i]);
            assert forall|j: int| 0 <= j < i implies (#[trigger] items[j]) is Ok by {
                assert(rest[j] is Ok);
            }
        } else {
            assert forall|j: int| 0 <= j < rest.len() implies (#[trigger] items[j]) is Ok by {
                assert(rest[j] is Ok);
            }
            assert(items[items.len() - 1] == items.last());
        }
    }
}

/// Operations take the marked files, or where none is marked the one under the cursor, but
/// never the line to the parent.
pub proof fn law_operations_take_the_marked_files(panel: PanelState)
    ensures
        panel.selected_files@ != Set::<Seq<char>>::empty() ==> operation_files(panel)
            == panel.selected_files.in_order(),
        panel.selected_files@ == Set::<Seq<char>>::empty() ==> {
            &&& operation_files(panel).len() <= 1
            &&& operation_files(panel).len() == 1 <==> panel.selected_index < panel.files@.len()
                && panel.files@[panel.selected_index as int].name@ != ".."@
            &&& operation_files(panel).len() == 1 ==> operation_files(panel)[0]
                == panel.files@[panel.selected_index as int].name@
        },
{
}

/// The clipboard holds the files with the directory that they are in and what was seen of
/// each; files of a remote machine are held with its profile.
pub proof fn law_clipboard_holds_the_files(
    before: App,
    after: App,
    directory: Result<DirectoryAuthorization, String>,
    items: Seq<Result<PathAuthorization, String>>,
    operation: ClipboardOperation,
)
    requires
        before.wf(),
        all_seen(before.active(), directory, items),
        is_clipboard_change(before, after, directory, items, operation),
    ensures
        ({
            let panel = before.active();
            let taken = operation_files(panel).len() > 0 && (panel.remote_ctx is Some || (
            directory is Ok && forall|i: int|
                0 <= i < items.len() ==> (#[trigger] items[i]) is Ok));
            &&& !taken ==> after.clipboard == before.clipboard
            &&& taken ==> {
                &&& after.clipboard matches Some(c)
                &&& c.operation == operation
                &&& views(c.files@) == operation_files(panel)
                &&& panel.remote_ctx matches Some(context) ==> c.source_remote_profile == Some(
                    context.profile,
                ) && c.source_path == panel.path
                &&& panel.remote_ctx is None ==> {
                    &&& c.source_remote_profile is None
                    &&& c.source_path == directory->Ok_0.resolved_path
                    &&& source_root(c) == directory->Ok_0.resolved_path@
                    &&& c.source_authorizations@.len() == c.files@.len()
                    &&& forall|i: int|
                        0 <= i < c.files@.len() ==> {
                            &&& (#[trigger] c.source_authorizations@[i]).name == c.files@[i]
                            &&& items[i] == Ok::<PathAuthorization, String>(
                                c.source_authorizations@[i].authorization,
                            )
                        }
                }
            }
            &&& after.panels == before.panels
        }),
{
    law_first_error_is_told(items);
    let panel = before.active();
    if operation_files(panel).len() > 0 && panel.remote_ctx is None && directory is Ok
        && first_failure(items) is None {
        let c = after.clipboard->0;
        assert(views(c.files@).len() == c.files@.len());
        assert forall|i: int| 0 <= i < c.files@.len() implies items[i] == Ok::<
            PathAuthorization,
            String,
        >((#[trigger] c.source_authorizations@[i]).authorization) by {
            assert(items[i] is Ok);
        }
    }
}

/// After a move the clipboard holds what was not moved: of one that went through, what was
/// skipped and is still there; of a failed one on this machine, what is still there and was
/// not settled; of a failed remote one, what was not completed.
pub proof fn law_cut_files_that_were_not_moved_stay(
    before: App,
    after: App,
    succeeded: bool,
    present: Seq<bool>,
    i: int,
)
    requires
        before.pending_cut_clipboard is Some,
        present.len() == before.pending_cut_clipboard->0.files@.len(),
        cut_finished(before, after, succeeded, present),
        0 <= i < present.len(),
        before.clipboard is None,
    ensures
        ({
            let c = before.pending_cut_clipboard->0;
            let name = c.files@[i]@;
            let progress = before.file_operation_progress;
            let left = after.clipboard is Some && listed(after.clipboard->0.files@, name);
            &&& succeeded && present[i] && progress is Some
                && progress->0.skipped_cut_item_names@.contains(name) ==> left
            &&& !succeeded && c.source_remote_profile is None && present[i] && !(progress is Some
                && progress->0.terminal_item_names@.contains(name)) ==> left
            &&& !succeeded && c.source_remote_profile is Some && !(progress is Some
                && progress->0.completed_item_names@.contains(name)) ==> left
            &&& succeeded && !(progress is Some && progress->0.skipped_cut_item_names@.contains(
                name,
            )) ==> !left
            &&& !succeeded && c.source_remote_profile is None && progress is Some
                && progress->0.terminal_item_names@.contains(name) ==> !left
            &&& !succeeded && c.source_remote_profile is Some && progress is Some
                && progress->0.completed_item_names@.contains(name) ==> !left
            &&& after.clipboard matches Some(held) ==> held.operation == c.operation
                && held.source_path == c.source_path && held.source_remote_profile
                == c.source_remote_profile
        }),
{
    let c = before.pending_cut_clipboard->0;
    let flags = stays(succeeded, before.file_operation_progress, c, present);
    let name = c.files@[i]@;
    law_flagged_files_are_kept(c.files@, flags, name);
    let left = kept(c.files@, flags);
    assert(flags[i] == stays_cut(
        succeeded,
        c.source_remote_profile is Some,
        before.file_operation_progress,
        name,
        present[i],
    ));
    if left.len() == 0 {
        assert(!listed(left, name));
    }
}

/// The two operations have two words.
pub proof fn law_words_for_the_clipboard(operation: ClipboardOperation)
    ensures
        operation_word(operation) == "copy"@ <==> operation == ClipboardOperation::Copy,
        operation_word(operation) == "cut"@ <==> operation == ClipboardOperation::Cut,
{
    reveal_strlit("copy");
    reveal_strlit("cut");
    assert("copy"@.len() == 4 && "cut"@.len() == 3);
}

} // verus!
