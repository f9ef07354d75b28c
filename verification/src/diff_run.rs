//! The run of a comparison: its start, what its worker reports, and its end.

use crate::authorization::DirectoryAuthorization;
use crate::diff_state::{
    clamped, directory_paths, row_paths, DiffCompletion, DiffProgressMsg, DiffState,
};
use crate::diff_types::DiffEntry;
use crate::names::NameSet;
use crate::ranking::positions;
use crate::text::views;
use vstd::prelude::*;

verus! {

/// How far a comparison has come.
pub struct ProgressView {
    pub current: Seq<char>,
    pub count: usize,
    pub total: usize,
}

/// How far the comparison has come after the messages.
pub open spec fn after_messages(p: ProgressView, messages: Seq<DiffProgressMsg>) -> ProgressView
    decreases messages.len(),
{
    if messages.len() == 0 {
        p
    } else {
        let before = after_messages(p, messages.drop_last());
        match messages.last() {
            DiffProgressMsg::Counting(total) => ProgressView { total, ..before },
            DiffProgressMsg::Comparing(path, count, total) => ProgressView {
                current: path@,
                count,
                total,
            },
        }
    }
}

/// What starting a comparison comes to.
pub open spec fn comparison_started(
    before: DiffState,
    after: DiffState,
    left: Option<DirectoryAuthorization>,
    right: Option<DirectoryAuthorization>,
) -> bool {
    &&& after == (DiffState {
        is_comparing: true,
        all_entries: after.all_entries,
        filtered_indices: after.filtered_indices,
        collapsed_dirs: after.collapsed_dirs,
        selected_index: 0,
        scroll_offset: 0,
        progress_current: after.progress_current,
        progress_count: 0,
        progress_total: 0,
        left_root_authorization: left,
        right_root_authorization: right,
        copy_prompt: None,
        copy_in_progress: false,
        pending_copy_path: None,
        delete_prompt: None,
        delete_in_progress: false,
        pending_delete_path: None,
        ..before
    })
    &&& after.all_entries@ == Seq::<DiffEntry>::empty()
    &&& after.filtered_indices@ == Seq::<usize>::empty()
    &&& after.collapsed_dirs@ == Set::<Seq<char>>::empty()
    &&& after.progress_current@ == Seq::<char>::empty()
}

/// What looking for news of a comparison comes to.
pub open spec fn comparison_polled(
    before: DiffState,
    after: DiffState,
    messages: Seq<DiffProgressMsg>,
    completion: DiffCompletion,
    r: bool,
) -> bool {
    &&& r == (before.is_comparing && completion is Finished)
    &&& !before.is_comparing ==> after == before
    &&& before.is_comparing ==> {
        &&& after.progress() == after_messages(before.progress(), messages)
        &&& match completion {
            DiffCompletion::Pending => after == (DiffState {
                progress_current: after.progress_current,
                progress_count: after.progress_count,
                progress_total: after.progress_total,
                ..before
            }),
            DiffCompletion::Disconnected => after == (DiffState {
                is_comparing: false,
                progress_current: after.progress_current,
                progress_count: after.progress_count,
                progress_total: after.progress_total,
                ..before
            }),
            DiffCompletion::Finished(entries) => {
                &&& after == (DiffState {
                    is_comparing: false,
                    progress_current: after.progress_current,
                    progress_count: after.progress_count,
                    progress_total: after.progress_total,
                    all_entries: entries,
                    collapsed_dirs: after.collapsed_dirs,
                    selected_files: after.selected_files,
                    filtered_indices: after.filtered_indices,
                    selected_index: after.selected_index,
                    scroll_offset: 0,
                    ..before
                })
                &&& after.collapsed_dirs@ == directory_paths(entries@)
                &&& after.selected_files@ == before.selected_files@.intersect(
                    row_paths(entries@),
                )
                &&& positions(after.filtered_indices@) == after.rows_to_show()
                &&& after.selected_index == clamped(
                    before.selected_index as int,
                    after.rows_to_show().len(),
                )
                &&& after.wf()
            },
        }
    }
}

impl DiffState {
    /// How far the comparison has come.
    pub open spec fn progress(self) -> ProgressView {
        ProgressView {
            current: self.progress_current@,
            count: self.progress_count,
            total: self.progress_total,
        }
    }

    /// Makes the screen ready for a comparison of its two roots as they were
    /// seen. The marks, the filter and the sort are kept.
    pub fn start_comparison(
        &mut self,
        left: Option<DirectoryAuthorization>,
        right: Option<DirectoryAuthorization>,
    )
        ensures
            comparison_started(*old(self), *final(self), left, right),
    {
        self.is_comparing = true;
        self.all_entries = Vec::new();
        self.filtered_indices = Vec::new();
        self.collapsed_dirs = NameSet::new();
        self.selected_index = 0;
        self.scroll_offset = 0;
        self.progress_current = String::new();
        self.progress_count = 0;
        self.progress_total = 0;
        self.left_root_authorization = left;
        self.right_root_authorization = right;
        self.copy_prompt = None;
        self.copy_in_progress = false;
        self.pending_copy_path = None;
        self.delete_prompt = None;
        self.delete_in_progress = false;
        self.pending_delete_path = None;
    }

    /// Installs the rows of a finished comparison: all directories collapsed,
    /// and the marks of rows that are gone taken away.
    pub fn build_diff_list(&mut self, entries: Vec<DiffEntry>)
        ensures
            *final(self) == (DiffState {
                all_entries: entries,
                collapsed_dirs: final(self).collapsed_dirs,
                selected_files: final(self).selected_files,
                ..*old(self)
            }),
            final(self).collapsed_dirs@ == directory_paths(entries@),
            final(self).selected_files@ == old(self).selected_files@.intersect(row_paths(entries@)),
    {
        self.selected_files = marks_still_there(&self.selected_files, &entries);
        let mut collapsed = NameSet::new();
        crate::diff_fold::collapse_directories(&mut collapsed, &entries);
        assert(Set::<Seq<char>>::empty().union(directory_paths(entries@)) =~= directory_paths(
            entries@,
        ));
        self.collapsed_dirs = collapsed;
        self.all_entries = entries;
    }

    /// Takes in what the worker reported. True when the comparison has just
    /// ended with a result, which is then shown.
    pub fn poll(&mut self, messages: Vec<DiffProgressMsg>, completion: DiffCompletion) -> (r: bool)
        ensures
            comparison_polled(*old(self), *final(self), messages@, completion, r),
    {
        if !self.is_comparing {
            return false;
        }
        self.take_messages(messages);
        match completion {
            DiffCompletion::Pending => false,
            DiffCompletion::Disconnected => {
                self.is_comparing = false;
                false
            },
            DiffCompletion::Finished(entries) => {
                self.build_diff_list(entries);
                self.apply_filter();
                self.is_comparing = false;
                true
            },
        }
    }

    fn take_messages(&mut self, messages: Vec<DiffProgressMsg>)
        ensures
            *final(self) == (DiffState {
                progress_current: final(self).progress_current,
                progress_count: final(self).progress_count,
                progress_total: final(self).progress_total,
                ..*old(self)
            }),
            final(self).progress() == after_messages(old(self).progress(), messages@),
    {
        let mut i: usize = 0;
        assert(messages@.take(0) == Seq::<DiffProgressMsg>::empty());
        while i < messages.len()
            invariant
                i <= messages@.len(),
                *self == (DiffState {
                    progress_current: self.progress_current,
                    progress_count: self.progress_count,
                    progress_total: self.progress_total,
                    ..*old(self)
                }),
                self.progress() == after_messages(old(self).progress(), messages@.take(i as int)),
            decreases messages@.len() - i,
        {
            assert(messages@.take(i + 1).drop_last() == messages@.take(i as int));
            match &messages[i] {
                DiffProgressMsg::Counting(total) => {
                    self.progress_total = *total;
                },
                DiffProgressMsg::Comparing(path, count, total) => {
                    self.progress_current = path.clone();
                    self.progress_count = *count;
                    self.progress_total = *total;
                },
            }
            i += 1;
        }
        assert(messages@.take(i as int) == messages@);
    }

    /// Gives the comparison up, and with it what was being asked.
    pub fn cancel(&mut self)
        ensures
            *final(self) == (DiffState {
                is_comparing: false,
                copy_prompt: None,
                pending_copy_path: None,
                delete_prompt: None,
                pending_delete_path: None,
                ..*old(self)
            }),
    {
        self.is_comparing = false;
        self.copy_prompt = None;
        self.pending_copy_path = None;
        self.delete_prompt = None;
        self.pending_delete_path = None;
    }
}

/// Whether a row has this path.
pub fn has_row(entries: &Vec<DiffEntry>, path: &str) -> (r: bool)
    ensures
        r == row_paths(entries@).contains(path@),
{
    let wanted = path.to_owned();
    let mut i: usize = 0;
    while i < entries.len()
        invariant
            i <= entries@.len(),
            wanted@ == path@,
            forall|k: int| 0 <= k < i ==> (#[trigger] entries@[k]).relative_path@ != path@,
        decreases entries@.len() - i,
    {
        if entries[i].relative_path == wanted {
            assert(entries@[i as int].relative_path@ == path@);
            return true;
        }
        i += 1;
    }
    false
}

/// The marks of rows that are still there.
fn marks_still_there(marks: &NameSet, entries: &Vec<DiffEntry>) -> (r: NameSet)
    ensures
        r@ == marks@.intersect(row_paths(entries@)),
{
    let list = marks.to_list();
    let ghost all = views(list@);
    let mut kept = NameSet::new();
    let mut i: usize = 0;
    while i < list.len()
        invariant
            i <= list@.len(),
            all == views(list@),
            forall|p: Seq<char>|
                #[trigger] kept@.contains(p) <==> row_paths(entries@).contains(p) && exists|k: int|
                    0 <= k < i && #[trigger] all[k] == p,
        decreases list@.len() - i,
    {
        let ghost had = kept@;
        let ghost name = list@[i as int]@;
        assert(all[i as int] == name);
        if has_row(entries, list[i].as_str()) {
            kept.insert(list[i].clone());
        }
        proof {
            assert forall|p: Seq<char>|
                #[trigger] kept@.contains(p) <==> row_paths(entries@).contains(p) && exists|k: int|
                    0 <= k < i + 1 && #[trigger] all[k] == p by {
                assert(had.contains(p) <==> row_paths(entries@).contains(p) && exists|k: int|
                    0 <= k < i && #[trigger] all[k] == p);
                if p == name {
                    assert(all[i as int] == p);
                }
            }
        }
        i += 1;
    }
    proof {
        let rows = row_paths(entries@);
        assert forall|p: Seq<char>| kept@.contains(p) == marks@.intersect(rows).contains(p) by {
            assert(marks@.contains(p) == all.to_set().contains(p));
            if kept@.contains(p) {
                let k = choose|k: int| 0 <= k < list@.len() && #[trigger] all[k] == p;
                assert(all.contains(p));
            }
            if all.contains(p) {
                let k = choose|k: int| 0 <= k < all.len() && all[k] == p;
                assert(all[k] == p);
            }
        }
        assert(kept@ =~= marks@.intersect(rows));
    }
    kept
}

/// The progress shown is that of the last message: a comparison says where it is and how
/// far, a count only how much there is.
pub proof fn law_last_message_is_shown(
    p: ProgressView,
    messages: Seq<DiffProgressMsg>,
    path: String,
    count: usize,
    total: usize,
)
    ensures
        after_messages(p, messages.push(DiffProgressMsg::Comparing(path, count, total)))
            == (ProgressView { current: path@, count, total }),
        ({
            let before = after_messages(p, messages);
            let after = after_messages(p, messages.push(DiffProgressMsg::Counting(total)));
            after.total == total && after.count == before.count && after.current == before.current
        }),
        after_messages(p, Seq::empty()) == p,
{
    assert(messages.push(DiffProgressMsg::Counting(total)).drop_last() =~= messages);
    assert(messages.push(DiffProgressMsg::Comparing(path, count, total)).drop_last() =~= messages);
}

/// A comparison starts with nothing shown, nothing counted and nothing agreed to, and its
/// roots are the ones that were just seen, each on its side.
pub proof fn law_comparison_starts_afresh(
    before: DiffState,
    after: DiffState,
    left: Option<DirectoryAuthorization>,
    right: Option<DirectoryAuthorization>,
)
    requires
        comparison_started(before, after, left, right),
    ensures
        after.is_comparing,
        after.all_entries@.len() == 0,
        after.filtered_indices@.len() == 0,
        after.progress_count == 0 && after.progress_total == 0,
        after.left_root_authorization == left,
        after.right_root_authorization == right,
        after.copy_prompt is None && after.delete_prompt is None,
        !after.copy_in_progress && !after.delete_in_progress,
        after.left_root == before.left_root && after.right_root == before.right_root,
        after.compare_method == before.compare_method,
        after.filter == before.filter,
{
}

/// A comparison ends exactly where its rows have come or its worker is gone; only rows that
/// have come replace those before, all of their directories closed and marks of vanished rows
/// gone.
pub proof fn law_comparison_ends_with_its_rows(
    before: DiffState,
    after: DiffState,
    messages: Seq<DiffProgressMsg>,
    completion: DiffCompletion,
    r: bool,
)
    requires
        before.is_comparing,
        comparison_polled(before, after, messages, completion, r),
    ensures
        r <==> completion is Finished,
        after.is_comparing <==> completion is Pending,
        !(completion is Finished) ==> after.all_entries == before.all_entries
            && after.selected_files == before.selected_files,
        completion matches DiffCompletion::Finished(entries) ==> {
            &&& after.all_entries == entries
            &&& after.scroll_offset == 0
            &&& forall|k: int|
                0 <= k < entries@.len() && (#[trigger] entries@[k]).is_directory
                    ==> after.collapsed_dirs@.contains(entries@[k].relative_path@)
            &&& forall|p: Seq<char>| #[trigger]
                after.selected_files@.contains(p) ==> before.selected_files@.contains(p)
                    && exists|k: int|
                    0 <= k < entries@.len() && (#[trigger] entries@[k]).relative_path@ == p
        },
        messages.len() > 0 && messages.last() is Comparing ==> after.progress_count
            == messages.last()->Comparing_1 && after.progress_total == messages.last()->Comparing_2,
        messages.len() == 0 ==> after.progress_count == before.progress_count,
{
    assert(messages.len() == 0 ==> after.progress() == before.progress());
    if let DiffCompletion::Finished(entries) = completion {
        assert forall|k: int| 0 <= k < entries@.len() && (#[trigger] entries@[k]).is_directory implies after.collapsed_dirs@.contains(
            entries@[k].relative_path@,
        ) by {
            assert(directory_paths(entries@).contains(entries@[k].relative_path@));
        }
        assert forall|p: Seq<char>| #[trigger] after.selected_files@.contains(p) implies before.selected_files@.contains(
            p,
        ) && exists|k: int|
            0 <= k < entries@.len() && (#[trigger] entries@[k]).relative_path@ == p by {
            assert(row_paths(entries@).contains(p));
        }
    }
}

} // verus!
