//! Pastes beside the files themselves, and pastes that the user was asked about.

use crate::app_state::{says, App};
use crate::authorization::{
    find_at, find_named, pathed_views, seen_at, seen_under, PathAuthorization, PathedAuthorization,
};
use crate::clipboard::{
    holds_name, keep_names, kept, law_flagged_files_are_kept, listed, source_root,
};
use crate::dialogs::{Clipboard, ClipboardOperation, ConflictState};
use crate::dup_run::{generate_dup_filename, is_dup_name, DupEntry, DupRun};
use crate::names::NameSet;
use crate::paste::{
    begun, handed_over, is_local_paste, local_clipboard_source_root, operation_of, running,
    PasteResolution,
};
use crate::paths::{join_path, joined_path};
use crate::progress::{FileOperationProgress, FileOperationType, OperationView};
use crate::text::{lemma_push_to_set, same_text, views};
use vstd::prelude::*;

verus! {

/// The files that are copied beside themselves: those that are there, without the
/// line to the parent.
pub open spec fn duplicable(files: Seq<String>, present: Seq<bool>) -> Seq<bool> {
    Seq::new(files.len(), |i: int| present[i] && files[i]@ != ".."@)
}

/// Whether `entries` holds one copy for each file.
pub open spec fn are_copies(
    entries: Seq<DupEntry>,
    clipboard: Clipboard,
    files: Seq<String>,
    taken: Set<Seq<char>>,
    millis: u64,
) -> bool {
    &&& entries.len() == files.len()
    &&& forall|i: int|
        #![trigger entries[i]]
        0 <= i < entries.len() ==> {
            &&& entries[i].name == files[i]
            &&& is_dup_name(files[i]@, taken, millis, entries[i].dup_name@)
            &&& entries[i].authorization == seen_under(
                clipboard.source_authorizations@,
                files[i]@,
            )
        }
}

/// The names that the copies get.
pub open spec fn dup_names(entries: Seq<DupEntry>) -> Seq<String> {
    Seq::new(entries.len(), |i: int| entries[i].dup_name)
}

/// Which of the files the user did not skip.
pub open spec fn not_skipped(source: Seq<char>, files: Seq<String>, skip: Seq<String>) -> Seq<bool> {
    Seq::new(files.len(), |i: int| !listed(skip, joined_path(source, files[i]@)))
}

/// Which of the files the user skipped.
pub open spec fn skipped(source: Seq<char>, files: Seq<String>, skip: Seq<String>) -> Seq<bool> {
    Seq::new(files.len(), |i: int| listed(skip, joined_path(source, files[i]@)))
}

/// Names as paths below a directory.
pub open spec fn below(root: Seq<char>, names: Seq<String>) -> Seq<Seq<char>> {
    Seq::new(names.len(), |i: int| joined_path(root, names[i]@))
}

/// The files that the user let replace what is there: by their paths below
/// `root`, with what was seen at the destination. The user was asked about paths
/// below `source`.
pub open spec fn replacing(
    source: Seq<char>,
    root: Seq<char>,
    files: Seq<String>,
    overwrite: Seq<PathedAuthorization>,
) -> Seq<(Seq<char>, PathAuthorization)>
    decreases files.len(),
{
    if files.len() == 0 {
        Seq::empty()
    } else {
        let before = replacing(source, root, files.drop_last(), overwrite);
        match seen_at(overwrite, joined_path(source, files.last()@)) {
            Some(seen) => before.push((joined_path(root, files.last()@), seen)),
            None => before,
        }
    }
}

fn flag_skipped(source: &str, files: &Vec<String>, skip: &Vec<String>) -> (r: (Vec<bool>, Vec<bool>))
    ensures
        r.0@ == skipped(source@, files@, skip@),
        r.1@ == not_skipped(source@, files@, skip@),
{
    let mut gone: Vec<bool> = Vec::new();
    let mut left: Vec<bool> = Vec::new();
    let ghost a = skipped(source@, files@, skip@);
    let ghost b = not_skipped(source@, files@, skip@);
    let mut i: usize = 0;
    while i < files.len()
        invariant
            i <= files@.len(),
            a == skipped(source@, files@, skip@),
            b == not_skipped(source@, files@, skip@),
            gone@ == a.take(i as int),
            left@ == b.take(i as int),
        decreases files@.len() - i,
    {
        let path = join_path(source, files[i].as_str());
        let found = holds_name(skip, path.as_str());
        gone.push(found);
        left.push(!found);
        assert(a.take(i + 1) =~= a.take(i as int).push(a[i as int]));
        assert(b.take(i + 1) =~= b.take(i as int).push(b[i as int]));
        i += 1;
    }
    assert(a.take(i as int) =~= a);
    assert(b.take(i as int) =~= b);
    (gone, left)
}

fn paths_below(root: &str, names: &Vec<String>) -> (r: Vec<String>)
    ensures
        views(r@) == below(root@, names@),
{
    let mut r: Vec<String> = Vec::new();
    let ghost all = below(root@, names@);
    let mut i: usize = 0;
    while i < names.len()
        invariant
            i <= names@.len(),
            all == below(root@, names@),
            views(r@) == all.take(i as int),
        decreases names@.len() - i,
    {
        let ghost held = r@;
        r.push(join_path(root, names[i].as_str()));
        assert(views(r@) =~= views(held).push(all[i as int]));
        assert(all.take(i + 1) =~= all.take(i as int).push(all[i as int]));
        i += 1;
    }
    assert(all.take(i as int) =~= all);
    r
}

fn replaced_below(
    source: &str,
    root: &str,
    files: &Vec<String>,
    overwrite: &Vec<PathedAuthorization>,
) -> (r: Vec<PathedAuthorization>)
    ensures
        pathed_views(r@) == replacing(source@, root@, files@, overwrite@),
{
    let mut r: Vec<PathedAuthorization> = Vec::new();
    let mut i: usize = 0;
    assert(pathed_views(r@) =~= Seq::<(Seq<char>, PathAuthorization)>::empty());
    while i < files.len()
        invariant
            i <= files@.len(),
            pathed_views(r@) == replacing(source@, root@, files@.take(i as int), overwrite@),
        decreases files@.len() - i,
    {
        assert(files@.take(i + 1).drop_last() =~= files@.take(i as int));
        let ghost held = r@;
        let asked = join_path(source, files[i].as_str());
        if let Some(seen) = find_at(overwrite, asked.as_str()) {
            let path = join_path(root, files[i].as_str());
            r.push(PathedAuthorization { path, authorization: seen });
            assert(pathed_views(r@) =~= pathed_views(held).push(
                (joined_path(root@, files@[i as int]@), seen),
            ));
        }
        i += 1;
    }
    assert(files@.take(i as int) =~= files@);
    r
}

fn name_set(names: &Vec<String>) -> (r: NameSet)
    ensures
        r@ == views(names@).to_set(),
{
    let mut r = NameSet::new();
    let mut i: usize = 0;
    assert(views(names@).take(0).to_set() =~= Set::<Seq<char>>::empty());
    while i < names.len()
        invariant
            i <= names@.len(),
            r@ == views(names@).take(i as int).to_set(),
        decreases names@.len() - i,
    {
        r.insert(names[i].clone());
        assert(views(names@).take(i + 1) =~= views(names@).take(i as int).push(
            names@[i as int]@,
        ));
        proof {
            lemma_push_to_set(views(names@).take(i as int), names@[i as int]@);
        }
        i += 1;
    }
    assert(views(names@).take(i as int) =~= views(names@));
    r
}

/// What a paste into the folder that the files come from does.
pub open spec fn duplicates(
    before: App,
    after: App,
    present: Seq<bool>,
    taken: Set<Seq<char>>,
    millis: u64,
    r: Option<DupRun>,
) -> bool {
    let c = before.clipboard->0;
    let files = kept(c.files@, duplicable(c.files@, present));
    if files.len() == 0 {
        says(before, after, "No valid files to duplicate"@) && r is None
    } else {
        &&& r matches Some(run)
        &&& are_copies(run.entries@, c, files, taken, millis)
        &&& run.wf()
        &&& run == (DupRun {
            entries: run.entries,
            bound: c.source_directory_authorization is Some,
            next: 0,
            completed: 0,
            failed: 0,
            completed_bytes: 0,
            completed_files: 0,
            total_bytes: 0,
            total_files: 0,
            ended: false,
        })
        &&& begun(
            before,
            after,
            running(FileOperationType::Copy, 0),
            dup_names(run.entries@),
        )
    }
}

impl App {
    /// Begins to copy the files of the clipboard beside themselves. `present` is
    /// whether each of them is there, `taken` holds the names in the directory,
    /// and `millis` is the clock.
    pub fn execute_same_folder_paste(&mut self, present: &Vec<bool>, taken: &NameSet, millis: u64) -> (r:
        Option<DupRun>)
        requires
            old(self).clipboard is Some,
            present@.len() == old(self).clipboard->0.files@.len(),
        ensures
            duplicates(*old(self), *final(self), present@, taken@, millis, r),
    {
        let clipboard = match self.clipboard.take() {
            Some(clipboard) => clipboard,
            None => {
                return None;
            },
        };
        let ghost all = duplicable(clipboard.files@, present@);
        let mut keep: Vec<bool> = Vec::new();
        let mut i: usize = 0;
        while i < clipboard.files.len()
            invariant
                i <= clipboard.files@.len(),
                present@.len() == clipboard.files@.len(),
                all == duplicable(clipboard.files@, present@),
                keep@ == all.take(i as int),
            decreases clipboard.files@.len() - i,
        {
            let flag = present[i] && !same_text(clipboard.files[i].as_str(), "..");
            keep.push(flag);
            assert(all.take(i + 1) =~= all.take(i as int).push(all[i as int]));
            i += 1;
        }
        assert(all.take(i as int) =~= all);
        let files = keep_names(&clipboard.files, &keep);
        if files.len() == 0 {
            self.clipboard = Some(clipboard);
            self.show_message("No valid files to duplicate");
            return None;
        }
        let mut entries: Vec<DupEntry> = Vec::new();
        let mut focus: Vec<String> = Vec::new();
        let mut k: usize = 0;
        while k < files.len()
            invariant
                k <= files@.len(),
                are_copies(entries@, clipboard, files@.take(k as int), taken@, millis),
                focus@ == dup_names(entries@),
            decreases files@.len() - k,
        {
            let dup_name = generate_dup_filename(files[k].as_str(), taken, millis);
            let ghost held = entries@;
            focus.push(dup_name.clone());
            entries.push(
                DupEntry {
                    name: files[k].clone(),
                    dup_name,
                    authorization: find_named(
                        &clipboard.source_authorizations,
                        files[k].as_str(),
                    ),
                },
            );
            assert(focus@ =~= dup_names(entries@));
            assert forall|m: int| #![trigger entries@[m]] 0 <= m < entries@.len() implies {
                &&& entries@[m].name == files@.take(k + 1)[m]
                &&& is_dup_name(files@.take(k + 1)[m]@, taken@, millis, entries@[m].dup_name@)
                &&& entries@[m].authorization == seen_under(
                    clipboard.source_authorizations@,
                    files@.take(k + 1)[m]@,
                )
            } by {
                if m < k {
                    assert(entries@[m] == held[m]);
                    assert(files@.take(k + 1)[m] == files@.take(k as int)[m]);
                }
            }
            k += 1;
        }
        assert(files@.take(k as int) =~= files@);
        let run = DupRun::start(entries, clipboard.source_directory_authorization.is_some());
        let mut progress = FileOperationProgress::new(FileOperationType::Copy);
        progress.is_active = true;
        assert(progress@ == running(FileOperationType::Copy, 0));
        self.clipboard = Some(clipboard);
        self.begin_operation(progress, &focus);
        Some(run)
    }

    /// Begins the paste that the user was asked about, with the answers.
    pub fn execute_paste_with_conflicts(&mut self) -> (r: PasteResolution)
        ensures
            match old(self).conflict_state {
                None => *final(self) == *old(self) && r is Nothing,
                Some(state) => {
                    let closed = App { conflict_state: None, ..*old(self) };
                    match state.clipboard_backup {
                        None => *final(self) == closed && r is Nothing,
                        Some(c) => is_resolved_paste(closed, *final(self), r, state, c),
                    }
                },
            },
    {
        let state = match self.conflict_state.take() {
            Some(state) => state,
            None => {
                return PasteResolution::Nothing;
            },
        };
        let ConflictState {
            conflicts,
            current_index,
            files_to_overwrite,
            files_to_skip,
            valid_files,
            clipboard_backup,
            target_path,
            target_authorization,
        } = state;
        let clipboard = match clipboard_backup {
            Some(clipboard) => clipboard,
            None => {
                return PasteResolution::Nothing;
            },
        };
        let (gone, left) = flag_skipped(
            clipboard.source_path.as_str(),
            &valid_files,
            &files_to_skip,
        );
        let to_process = keep_names(&valid_files, &left);
        if to_process.len() == 0 {
            self.clipboard = Some(clipboard);
            self.show_message("All files skipped");
            return PasteResolution::AllSkipped;
        }
        let skipped_names = keep_names(&valid_files, &gone);
        let operation_type = match clipboard.operation {
            ClipboardOperation::Copy => FileOperationType::Copy,
            ClipboardOperation::Cut => FileOperationType::Move,
        };
        let mut progress = FileOperationProgress::new(operation_type);
        progress.is_active = true;
        if clipboard.operation == ClipboardOperation::Cut {
            progress.skipped_cut_item_names = name_set(&skipped_names);
        }
        let root = local_clipboard_source_root(&clipboard);
        let overwrite = replaced_below(
            clipboard.source_path.as_str(),
            root,
            &valid_files,
            &files_to_overwrite,
        );
        let skip = paths_below(root, &skipped_names);
        let mut job = self.paste_job(&clipboard, valid_files, target_path, target_authorization);
        job.overwrite = overwrite;
        job.skip = skip;
        assert(progress@ == resolved_operation(clipboard, skipped_names@));
        self.hand_over(clipboard);
        self.begin_operation(progress, &to_process);
        PasteResolution::Start(job)
    }
}

/// The running operation of a paste with answers: a cut remembers what was
/// skipped.
pub open spec fn resolved_operation(clipboard: Clipboard, skipped_names: Seq<String>) -> OperationView {
    OperationView {
        skipped_cut_item_names: match clipboard.operation {
            ClipboardOperation::Copy => Set::empty(),
            ClipboardOperation::Cut => views(skipped_names).to_set(),
        },
        ..running(operation_of(clipboard.operation), 0)
    }
}

/// What a paste with answers comes to.
pub open spec fn is_resolved_paste(
    before: App,
    after: App,
    r: PasteResolution,
    state: ConflictState,
    clipboard: Clipboard,
) -> bool {
    let source = clipboard.source_path@;
    let files = state.valid_files@;
    let to_process = kept(files, not_skipped(source, files, state.files_to_skip@));
    let skipped_names = kept(files, skipped(source, files, state.files_to_skip@));
    if to_process.len() == 0 {
        &&& r is AllSkipped
        &&& says(App { clipboard: Some(clipboard), ..before }, after, "All files skipped"@)
    } else {
        &&& begun(
            handed_over(before, clipboard),
            after,
            resolved_operation(clipboard, skipped_names),
            to_process,
        )
        &&& r matches PasteResolution::Start(job)
        &&& is_local_paste(
            job,
            before,
            clipboard,
            files,
            state.target_path@,
            state.target_authorization,
        )
        &&& pathed_views(job.overwrite@) == replacing(
            source,
            source_root(clipboard),
            files,
            state.files_to_overwrite@,
        )
        &&& views(job.skip@) == below(source_root(clipboard), skipped_names)
    }
}

/// The worker is told to replace what is there only for files that the user let do
/// so, each with what the user saw at its place.
pub proof fn law_only_agreed_files_are_replaced(
    source: Seq<char>,
    root: Seq<char>,
    files: Seq<String>,
    overwrite: Seq<PathedAuthorization>,
    k: int,
)
    requires
        0 <= k < replacing(source, root, files, overwrite).len(),
    ensures
        exists|i: int|
            #![trigger files[i]]
            0 <= i < files.len() && replacing(source, root, files, overwrite)[k].0 == joined_path(
                root,
                files[i]@,
            ) && seen_at(overwrite, joined_path(source, files[i]@)) == Some(
                replacing(source, root, files, overwrite)[k].1,
            ),
    decreases files.len(),
{
    if files.len() > 0 {
        let before = replacing(source, root, files.drop_last(), overwrite);
        if k < before.len() {
            law_only_agreed_files_are_replaced(source, root, files.drop_last(), overwrite, k);
            let i = choose|i: int|
                #![trigger files.drop_last()[i]]
                0 <= i < files.drop_last().len() && before[k].0 == joined_path(
                    root,
                    files.drop_last()[i]@,
                ) && seen_at(overwrite, joined_path(source, files.drop_last()[i]@)) == Some(
                    before[k].1,
                );
            assert(files[i] == files.drop_last()[i]);
        } else {
            assert(files[files.len() - 1] == files.last());
        }
    }
}

/// Every file that was agreed to be replaced is replaced, with what was seen there.
pub proof fn law_agreed_files_are_replaced(
    source: Seq<char>,
    root: Seq<char>,
    files: Seq<String>,
    overwrite: Seq<PathedAuthorization>,
    i: int,
)
    requires
        0 <= i < files.len(),
        seen_at(overwrite, joined_path(source, files[i]@)) is Some,
    ensures
        replacing(source, root, files, overwrite).contains(
            (
                joined_path(root, files[i]@),
                seen_at(overwrite, joined_path(source, files[i]@))->0,
            ),
        ),
    decreases files.len(),
{
    let rest = files.drop_last();
    let now = replacing(source, root, files, overwrite);
    let wanted = (
        joined_path(root, files[i]@),
        seen_at(overwrite, joined_path(source, files[i]@))->0,
    );
    if i < rest.len() {
        law_agreed_files_are_replaced(source, root, rest, overwrite, i);
        assert(rest[i] == files[i]);
        let before = replacing(source, root, rest, overwrite);
        let k = choose|k: int| 0 <= k < before.len() && before[k] == wanted;
        assert(now[k] == wanted);
    } else {
        assert(now[now.len() - 1] == wanted);
    }
}

/// With the conflicts settled the paste goes on with the files that are not to be skipped,
/// hands the others over as skipped, and leaves the clipboard alone only where all are
/// skipped; what was cut and skipped is noted as such.
pub proof fn law_settled_paste_skips_what_was_skipped(
    before: App,
    after: App,
    r: PasteResolution,
    state: ConflictState,
    clipboard: Clipboard,
    i: int,
)
    requires
        is_resolved_paste(before, after, r, state, clipboard),
        0 <= i < state.valid_files@.len(),
    ensures
        ({
            let path = joined_path(clipboard.source_path@, state.valid_files@[i]@);
            let skip = exists|k: int|
                0 <= k < state.files_to_skip@.len() && (#[trigger] state.files_to_skip@[k])@ == path;
            &&& !skip ==> r is Start
            &&& r is AllSkipped ==> after.clipboard == Some(clipboard)
            &&& r matches PasteResolution::Start(job) ==> {
                &&& job.operation == clipboard.operation
                &&& job.source_path == clipboard.source_path
                &&& job.target_path@ == state.target_path@
                &&& job.target == state.target_authorization
                &&& skip ==> views(job.skip@).contains(
                    joined_path(source_root(clipboard), state.valid_files@[i]@),
                )
                &&& clipboard.operation == ClipboardOperation::Cut ==> after.pending_cut_clipboard
                    == Some(clipboard)
                &&& clipboard.operation == ClipboardOperation::Copy ==> after.clipboard == Some(
                    clipboard,
                )
                &&& skip && clipboard.operation == ClipboardOperation::Cut
                    ==> after.file_operation_progress is Some
                    && after.file_operation_progress->0@.skipped_cut_item_names.contains(
                    state.valid_files@[i]@,
                )
                &&& !skip ==> after.pending_paste_focus is Some && listed(
                    after.pending_paste_focus->0@,
                    state.valid_files@[i]@,
                )
            }
        }),
{
    let source = clipboard.source_path@;
    let files = state.valid_files@;
    let name = files[i]@;
    let go = not_skipped(source, files, state.files_to_skip@);
    let stop = skipped(source, files, state.files_to_skip@);
    law_flagged_files_are_kept(files, go, name);
    law_flagged_files_are_kept(files, stop, name);
    let skipped_names = kept(files, stop);
    if stop[i] {
        assert(stop[i] && files[i]@ == name);
        let k = choose|k: int| 0 <= k < skipped_names.len() && (#[trigger] skipped_names[k])@ == name;
        let list = below(source_root(clipboard), skipped_names);
        assert(list[k] == joined_path(source_root(clipboard), name));
        assert(views(skipped_names)[k] == name);
    } else {
        assert(go[i] && files[i]@ == name);
        let to_process = kept(files, go);
        let k = choose|k: int| 0 <= k < to_process.len() && (#[trigger] to_process[k])@ == name;
    }
}

/// A copy beside its original is made of every file that is there, under a new name.
pub proof fn law_copies_are_made_of_what_is_there(
    before: App,
    after: App,
    present: Seq<bool>,
    taken: Set<Seq<char>>,
    millis: u64,
    r: Option<DupRun>,
    i: int,
)
    requires
        before.clipboard is Some,
        present.len() == before.clipboard->0.files@.len(),
        duplicates(before, after, present, taken, millis, r),
        0 <= i < present.len(),
        before.clipboard->0.files@[i]@ != ".."@,
        present[i],
    ensures
        r matches Some(run) && exists|k: int|
            0 <= k < run.entries@.len() && (#[trigger] run.entries@[k]).name@
                == before.clipboard->0.files@[i]@ && is_dup_name(
                run.entries@[k].name@,
                taken,
                millis,
                run.entries@[k].dup_name@,
            ),
        after.clipboard == before.clipboard,
{
    let files = before.clipboard->0.files@;
    let flags = duplicable(files, present);
    let name = files[i]@;
    law_flagged_files_are_kept(files, flags, name);
    assert(flags[i] && files[i]@ == name);
    let chosen = kept(files, flags);
    let k = choose|k: int| 0 <= k < chosen.len() && (#[trigger] chosen[k])@ == name;
    let run = r->0;
    assert(run.entries@[k].name == chosen[k]);
}

} // verus!
