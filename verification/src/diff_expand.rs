//! Opening a directory with everything below it: directories that were not read
//! yet are read one after the other, the highest row first, so that the rows
//! still waiting keep their positions.

use crate::diff_fold::{children_loaded, is_unread, only_view_changed, shown_at, LoadedChild};
use crate::diff_state::{is_ancestor, is_within, DiffState};
use crate::diff_types::DiffEntry;
use crate::names::NameSet;
use crate::ranking::positions;
use crate::text::{concat2, starts_with_text, views};
use vstd::prelude::*;

verus! {

/// The opening of a directory with everything below it.
#[derive(Debug)]
pub struct ExpandAll {
    /// The row of the directory.
    pub row: usize,
    /// Its relative path.
    pub path: String,
    /// The rows still to be visited; the last one is next.
    pub pending: Vec<usize>,
}

/// The end of the run of rows from `from` on that lie below `path`.
pub open spec fn run_end(entries: Seq<DiffEntry>, path: Seq<char>, from: int) -> int
    decreases entries.len() - from,
{
    if from >= entries.len() || !is_ancestor(path, entries[from].relative_path@) {
        from
    } else {
        run_end(entries, path, from + 1)
    }
}

/// The directories one level below `depth` among the rows from `from` to `to`.
pub open spec fn directories_at(entries: Seq<DiffEntry>, depth: int, from: int, to: int) -> Seq<int>
    decreases to - from,
{
    if to <= from {
        Seq::empty()
    } else {
        let before = directories_at(entries, depth, from, to - 1);
        if entries[to - 1].is_directory && entries[to - 1].depth == depth + 1 {
            before.push(to - 1)
        } else {
            before
        }
    }
}

/// The directories directly below row `at`.
pub open spec fn child_directories(entries: Seq<DiffEntry>, at: int) -> Seq<int> {
    directories_at(
        entries,
        entries[at].depth as int,
        at + 1,
        run_end(entries, entries[at].relative_path@, at + 1),
    )
}

impl ExpandAll {
    /// Whether the rows waiting are rows, each before the ones that are visited
    /// earlier.
    pub open spec fn wf(self, state: DiffState) -> bool {
        &&& forall|k: int|
            0 <= k < self.pending@.len() ==> #[trigger] self.pending@[k] < state.all_entries@.len()
        &&& forall|k: int, m: int|
            0 <= k < m < self.pending@.len() ==> #[trigger] self.pending@[k]
                < #[trigger] self.pending@[m]
    }

    /// Whether nothing is left to visit.
    pub fn is_done(&self) -> (r: bool)
        ensures
            r == (self.pending@.len() == 0),
    {
        self.pending.len() == 0
    }

    /// The directory whose children have to be read before the next step.
    pub fn load_needed(&self, state: &DiffState) -> (r: Option<usize>)
        requires
            self.wf(*state),
        ensures
            match r {
                Some(i) => self.pending@.len() > 0 && i == self.pending@.last() && is_unread(
                    *state,
                    i as int,
                ),
                None => self.pending@.len() > 0 ==> !is_unread(*state, self.pending@.last() as int),
            },
    {
        let count: usize = self.pending.len();
        if count == 0 {
            return None;
        }
        let row: usize = self.pending[count - 1];
        assert(self.pending@[count - 1] < state.all_entries@.len());
        if state.all_entries[row].children_not_loaded && state.all_entries[row].is_directory {
            Some(row)
        } else {
            None
        }
    }
}

proof fn lemma_run_end(entries: Seq<DiffEntry>, path: Seq<char>, from: int)
    requires
        0 <= from <= entries.len(),
    ensures
        from <= run_end(entries, path, from) <= entries.len(),
    decreases entries.len() - from,
{
    if from < entries.len() && is_ancestor(path, entries[from].relative_path@) {
        lemma_run_end(entries, path, from + 1);
    }
}

proof fn lemma_directories_at(entries: Seq<DiffEntry>, depth: int, from: int, to: int)
    requires
        from <= to,
    ensures
        forall|k: int|
            0 <= k < directories_at(entries, depth, from, to).len() ==> from
                <= #[trigger] directories_at(entries, depth, from, to)[k] < to,
        forall|k: int, m: int|
            0 <= k < m < directories_at(entries, depth, from, to).len()
                ==> #[trigger] directories_at(entries, depth, from, to)[k]
                < #[trigger] directories_at(entries, depth, from, to)[m],
    decreases to - from,
{
    if from < to {
        lemma_directories_at(entries, depth, from, to - 1);
        let before = directories_at(entries, depth, from, to - 1);
        let all = directories_at(entries, depth, from, to);
        assert forall|k: int| 0 <= k < all.len() implies from <= #[trigger] all[k] < to by {
            if k < before.len() {
                assert(all[k] == before[k]);
            }
        }
        assert forall|k: int, m: int| 0 <= k < m < all.len() implies #[trigger] all[k]
            < #[trigger] all[m] by {
            assert(all[k] == before[k]);
            if m < before.len() {
                assert(all[m] == before[m]);
            }
        }
    }
}

/// Adds the directories directly below row `at` to the rows waiting.
fn push_child_directories(entries: &Vec<DiffEntry>, at: usize, pending: &mut Vec<usize>)
    requires
        at < entries@.len(),
    ensures
        positions(final(pending)@) == positions(old(pending)@) + child_directories(
            entries@,
            at as int,
        ),
{
    let count: usize = entries.len();
    let depth: usize = entries[at].depth;
    let path = entries[at].relative_path.clone();
    let prefix = concat2(path.as_str(), "/");
    proof {
        reveal_strlit("/");
        assert("/"@ == seq!['/']);
    }
    let ghost before = pending@;
    let ghost end = run_end(entries@, path@, at + 1);
    let mut i: usize = at + 1;
    let mut inside = true;
    assert(positions(pending@) == positions(before) + Seq::<int>::empty());
    while i < count && inside
        invariant
            at < count,
            count == entries@.len(),
            at + 1 <= i <= count,
            depth == entries@[at as int].depth,
            path@ == entries@[at as int].relative_path@,
            prefix@ == path@ + seq!['/'],
            end == run_end(entries@, path@, at + 1),
            inside ==> end == run_end(entries@, path@, i as int),
            !inside ==> end == i,
            positions(pending@) == positions(before) + directories_at(
                entries@,
                depth as int,
                at + 1,
                i as int,
            ),
        decreases count - i + (if inside { 1int } else { 0int }),
    {
        let ghost full = entries@[i as int].relative_path@;
        inside = starts_with_text(entries[i].relative_path.as_str(), prefix.as_str());
        proof {
            assert(inside == is_ancestor(path@, full)) by {
                if inside {
                    assert(full[path@.len() as int] == prefix@[path@.len() as int]);
                    assert(full.take(path@.len() as int) == path@);
                }
                if is_ancestor(path@, full) {
                    assert(full.subrange(0, prefix@.len() as int) == prefix@);
                }
            }
        }
        if inside {
            let ghost had = pending@;
            if entries[i].is_directory && depth < usize::MAX && entries[i].depth == depth + 1 {
                pending.push(i);
                assert(positions(pending@) == positions(had).push(i as int));
            }
            i += 1;
        }
    }
    assert(end == i);
}

impl DiffState {
    /// Begins to open the directory under the cursor with everything below it.
    pub fn expand_all_begin(&self) -> (r: Option<ExpandAll>)
        ensures
            match self.cursor_row() {
                Some(i) if self.all_entries@[i].is_directory => r matches Some(job) && job.row == i
                    && job.path@ == self.all_entries@[i].relative_path@ && job.pending@ == seq![
                    i as usize,
                ] && job.wf(*self),
                _ => r is None,
            },
    {
        match self.current_entry() {
            Some(entry) => {
                if !entry.is_directory {
                    return None;
                }
                let row: usize = self.filtered_indices[self.selected_index];
                let mut pending: Vec<usize> = Vec::new();
                pending.push(row);
                assert(pending@ == seq![row]);
                Some(ExpandAll { row, path: entry.relative_path.clone(), pending })
            },
            None => None,
        }
    }

    /// Visits the next waiting directory: its children are put in where they
    /// were not read yet, and the directories directly below it wait next.
    pub fn expand_all_step(&mut self, job: &mut ExpandAll, children: Vec<LoadedChild>)
        requires
            old(self).wf(),
            old(job).wf(*old(self)),
            old(job).pending@.len() > 0,
            old(self).all_entries@.len() + children@.len() <= usize::MAX,
            old(self).all_entries@[old(job).pending@.last() as int].depth < usize::MAX,
        ensures
            is_unread(*old(self), old(job).pending@.last() as int) ==> children_loaded(
                *old(self),
                *final(self),
                old(job).pending@.last() as int,
                children@,
            ),
            !is_unread(*old(self), old(job).pending@.last() as int) ==> *final(self) == *old(self),
            final(self).wf(),
            final(job).row == old(job).row,
            final(job).path == old(job).path,
            positions(final(job).pending@) == positions(old(job).pending@).drop_last()
                + child_directories(final(self).all_entries@, old(job).pending@.last() as int),
            final(job).wf(*final(self)),
            forall|k: int|
                0 <= k < old(job).pending@.len() - 1 ==> {
                    let row = #[trigger] old(job).pending@[k] as int;
                    final(self).all_entries@[row] == old(self).all_entries@[row]
                },
    {
        let ghost waiting = job.pending@;
        let count: usize = job.pending.len();
        assert(waiting[count - 1] < self.all_entries@.len());
        let at: usize = job.pending.pop().unwrap();
        assert(at == waiting.last());
        let ghost was = self.all_entries@;
        self.lazy_load_children(at, children);
        proof {
            assert(self.all_entries@.len() >= was.len());
            assert forall|k: int| 0 <= k < waiting.len() - 1 implies self.all_entries@[#[trigger] waiting[k] as int]
                == was[waiting[k] as int] by {
                assert(waiting[k] < waiting[waiting.len() - 1]);
                assert(was.take(at as int)[waiting[k] as int] == was[waiting[k] as int]);
            }
        }
        let ghost kept = job.pending@;
        push_child_directories(&self.all_entries, at, &mut job.pending);
        proof {
            let entries = self.all_entries@;
            lemma_run_end(entries, entries[at as int].relative_path@, at + 1);
            let end = run_end(entries, entries[at as int].relative_path@, at + 1);
            lemma_directories_at(entries, entries[at as int].depth as int, at + 1, end);
            let added = child_directories(entries, at as int);
            assert(positions(kept) == positions(waiting).drop_last());
            assert(positions(job.pending@) == positions(kept) + added);
            assert(positions(job.pending@).len() == job.pending@.len());
            assert(positions(kept).len() == kept.len());
            assert forall|k: int| 0 <= k < job.pending@.len() implies #[trigger] job.pending@[k]
                < entries.len() by {
                assert(positions(job.pending@)[k] == job.pending@[k]);
                if k < kept.len() {
                    assert(positions(kept)[k] == kept[k]);
                    assert(waiting[k] < was.len());
                } else {
                    assert(positions(job.pending@)[k] == added[k - kept.len()]);
                }
            }
            assert forall|k: int, m: int| 0 <= k < m < job.pending@.len() implies #[trigger] job.pending@[k]
                < #[trigger] job.pending@[m] by {
                assert(positions(job.pending@)[k] == job.pending@[k]);
                assert(positions(job.pending@)[m] == job.pending@[m]);
                if m < kept.len() {
                    assert(waiting[k] < waiting[m]);
                    assert(positions(kept)[k] == waiting[k]);
                    assert(positions(kept)[m] == waiting[m]);
                } else if k < kept.len() {
                    assert(waiting[k] < waiting[waiting.len() - 1]);
                    assert(positions(kept)[k] == waiting[k]);
                    assert(positions(job.pending@)[m] == added[m - kept.len()]);
                } else {
                    assert(positions(job.pending@)[k] == added[k - kept.len()]);
                    assert(positions(job.pending@)[m] == added[m - kept.len()]);
                }
            }
        }
    }

    /// Ends the opening: the directory and all below it are collapsed no longer.
    pub fn expand_all(&mut self, job: &ExpandAll)
        ensures
            only_view_changed(*old(self), *final(self)),
            final(self).collapsed_dirs@ == old(self).collapsed_dirs@.difference(
                Set::new(|p: Seq<char>| is_within(p, job.path@)),
            ),
            shown_at(*final(self), job.row as int, old(self).selected_index as int),
    {
        self.collapsed_dirs = names_outside(&self.collapsed_dirs, job.path.as_str());
        self.show_at(job.row);
    }
}

/// The names that are not `path` and not below it.
pub fn names_outside(names: &NameSet, path: &str) -> (r: NameSet)
    ensures
        r@ == names@.difference(Set::new(|p: Seq<char>| is_within(p, path@))),
{
    let list = names.to_list();
    let ghost all = views(list@);
    let mut kept = NameSet::new();
    let mut i: usize = 0;
    while i < list.len()
        invariant
            i <= list@.len(),
            all == views(list@),
            forall|p: Seq<char>|
                #[trigger] kept@.contains(p) <==> !is_within(p, path@) && exists|k: int|
                    0 <= k < i && #[trigger] all[k] == p,
        decreases list@.len() - i,
    {
        let ghost had = kept@;
        let ghost name = list@[i as int]@;
        assert(all[i as int] == name);
        if !crate::diff_state::diff_path_is_within(list[i].as_str(), path) {
            kept.insert(list[i].clone());
        }
        proof {
            assert forall|p: Seq<char>|
                #[trigger] kept@.contains(p) <==> !is_within(p, path@) && exists|k: int|
                    0 <= k < i + 1 && #[trigger] all[k] == p by {
                assert(had.contains(p) <==> !is_within(p, path@) && exists|k: int|
                    0 <= k < i && #[trigger] all[k] == p);
                if p == name {
                    assert(all[i as int] == p);
                }
            }
        }
        i += 1;
    }
    proof {
        let gone = Set::new(|p: Seq<char>| is_within(p, path@));
        assert forall|p: Seq<char>| kept@.contains(p) == names@.difference(gone).contains(p) by {
            assert(names@.contains(p) == all.to_set().contains(p));
            if kept@.contains(p) {
                let k = choose|k: int| 0 <= k < list@.len() && #[trigger] all[k] == p;
                assert(all.contains(p));
            }
            if all.contains(p) {
                let k = choose|k: int| 0 <= k < all.len() && all[k] == p;
                assert(all[k] == p);
            }
        }
        assert(kept@ =~= names@.difference(gone));
    }
    kept
}

/// The directories that are opened next below a row are those one level deeper whose paths
/// lie below its path, and no others.
pub proof fn law_next_directories_are_children(entries: Seq<DiffEntry>, at: int)
    requires
        0 <= at < entries.len(),
    ensures
        ({
            let end = run_end(entries, entries[at].relative_path@, at + 1);
            &&& at + 1 <= end <= entries.len()
            &&& forall|i: int|
                at < i < end ==> is_ancestor(
                    entries[at].relative_path@,
                    (#[trigger] entries[i]).relative_path@,
                )
            &&& end < entries.len() ==> !is_ancestor(
                entries[at].relative_path@,
                entries[end].relative_path@,
            )
            &&& forall|i: int|
                #[trigger] child_directories(entries, at).contains(i) <==> (at < i < end
                    && entries[i].is_directory && entries[i].depth == entries[at].depth + 1)
        }),
{
    lemma_run(entries, entries[at].relative_path@, at + 1);
    let end = run_end(entries, entries[at].relative_path@, at + 1);
    lemma_directories(entries, entries[at].depth as int, at + 1, end);
}

proof fn lemma_run(entries: Seq<DiffEntry>, path: Seq<char>, from: int)
    requires
        0 <= from <= entries.len(),
    ensures
        from <= run_end(entries, path, from) <= entries.len(),
        forall|i: int|
            from <= i < run_end(entries, path, from) ==> is_ancestor(
                path,
                (#[trigger] entries[i]).relative_path@,
            ),
        run_end(entries, path, from) < entries.len() ==> !is_ancestor(
            path,
            entries[run_end(entries, path, from)].relative_path@,
        ),
    decreases entries.len() - from,
{
    if from < entries.len() && is_ancestor(path, entries[from].relative_path@) {
        lemma_run(entries, path, from + 1);
    }
}

proof fn lemma_directories(entries: Seq<DiffEntry>, depth: int, from: int, to: int)
    ensures
        forall|i: int|
            #[trigger] directories_at(entries, depth, from, to).contains(i) <==> (from <= i < to
                && entries[i].is_directory && entries[i].depth == depth + 1),
    decreases to - from,
{
    if from < to {
        lemma_directories(entries, depth, from, to - 1);
        let before = directories_at(entries, depth, from, to - 1);
        let now = directories_at(entries, depth, from, to);
        assert forall|i: int|
            #[trigger] now.contains(i) <==> (from <= i < to && entries[i].is_directory
                && entries[i].depth == depth + 1) by {
            assert(before.contains(i) <==> (from <= i < to - 1 && entries[i].is_directory
                && entries[i].depth == depth + 1));
            if before.contains(i) {
                let k = choose|k: int| 0 <= k < before.len() && before[k] == i;
                assert(now[k] == i);
            }
            if i == to - 1 && entries[i].is_directory && entries[i].depth == depth + 1 {
                assert(now[now.len() - 1] == i);
            }
            if now.contains(i) {
                let k = choose|k: int| 0 <= k < now.len() && now[k] == i;
                if k < before.len() {
                    assert(before[k] == i);
                }
            }
        }
    }
}

} // verus!
