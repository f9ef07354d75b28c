//! What the status of a row of the comparison says of its two sides, however the row
//! came about.

use crate::diff_ancestors::{
    after_ancestor, after_ancestors, first_row, lemma_first_row, looked_again, pair_status,
    refreshed_row, PairFacts,
};
use crate::diff_build::BuildFrame;
use crate::diff_build_run::{
    after_closing, frames_after_close, is_finished, is_row_of, rows_after_close, takes_in,
    BuildRequest, BuildRun, Examined,
};
use crate::diff_compare::{counts_as_same, CompareEvidence};
use crate::diff_fold::{is_child_row, rows_loaded, rows_read, sorted_children, LoadedChild};
use crate::diff_types::{CompareMethod, DiffEntry, DiffFileInfo, DiffStatus};
use vstd::prelude::*;

verus! {

/// Whether what the status says of the sides is so: what is on the left only has nothing
/// on the right, and what is on the right only has nothing on the left.
pub open spec fn tells_sides(row: DiffEntry) -> bool {
    &&& row.status == DiffStatus::LeftOnly ==> row.right is None
    &&& row.status == DiffStatus::RightOnly ==> row.left is None
}

/// Whether the status of every row tells its sides.
pub open spec fn all_tell_sides(rows: Seq<DiffEntry>) -> bool {
    forall|i: int| 0 <= i < rows.len() ==> tells_sides(#[trigger] rows[i])
}

/// What is read in below a directory of one side has that directory's status, stands on
/// that side only, one step deeper, under the directory's path.
pub proof fn law_children_are_on_the_side_of_their_directory(
    parent: DiffEntry,
    child: LoadedChild,
    row: DiffEntry,
)
    requires
        parent.status == DiffStatus::LeftOnly || parent.status == DiffStatus::RightOnly,
        is_child_row(parent, child, row),
    ensures
        row.status == parent.status,
        parent.status == DiffStatus::LeftOnly ==> row.left == child.info && row.right is None
            && row.right_missing == child.right_missing,
        parent.status == DiffStatus::RightOnly ==> row.right == child.info && row.left is None
            && row.left_missing == child.left_missing,
        tells_sides(row),
        row.depth == parent.depth + 1,
        row.relative_path@ == parent.relative_path@ + "/"@ + child.name@,
        row.is_directory == (child.info is Some && child.info->0.is_directory),
        row.is_directory ==> row.children_not_loaded,
        row.left is Some ==> row.left_missing is None,
        row.right is Some ==> row.right_missing is None,
{
    reveal_strlit("/");
    assert("/"@ =~= seq!['/']);
}

/// Reading in what is below a directory of one side leaves every other row as it is,
/// puts the new rows right behind the directory, all with its status, and keeps that
/// the status of every row tells its sides.
pub proof fn law_reading_in_keeps_the_sides(
    was: Seq<DiffEntry>,
    now: Seq<DiffEntry>,
    at: int,
    children: Seq<LoadedChild>,
)
    requires
        0 <= at < was.len(),
        was[at].status == DiffStatus::LeftOnly || was[at].status == DiffStatus::RightOnly,
        rows_loaded(was, now, at, children),
        all_tell_sides(was),
    ensures
        all_tell_sides(now),
        forall|i: int| 0 <= i < at ==> (#[trigger] now[i]) == was[i],
        !now[at].children_not_loaded,
        now[at].status == was[at].status,
        now[at].relative_path == was[at].relative_path,
        forall|i: int|
            at < i <= at + now.len() - was.len() ==> {
                &&& (#[trigger] now[i]).status == was[at].status
                &&& now[i].depth == was[at].depth + 1
            },
        forall|i: int|
            at < i < was.len() ==> (#[trigger] was[i]) == now[i + now.len() - was.len()],
{
    let rows = rows_read(now, at, children);
    let count = sorted_children(children).len() as int;
    assert forall|i: int| at < i <= at + now.len() - was.len() implies {
        &&& (#[trigger] now[i]).status == was[at].status
        &&& now[i].depth == was[at].depth + 1
        &&& tells_sides(now[i])
    } by {
        let k = i - at - 1;
        assert(rows[k] == now[i]);
        law_children_are_on_the_side_of_their_directory(
            was[at],
            children[sorted_children(children)[k]],
            rows[k],
        );
    }
    assert forall|i: int| 0 <= i < now.len() implies tells_sides(#[trigger] now[i]) by {
        if i < at {
            assert(now[i] == was[i]);
        } else if i == at {
            assert(tells_sides(was[at]));
        } else if i > at + count {
            assert(now[i] == was[i - count]);
        }
    }
}

/// A name that was listed on one side only is on that side only; one that was listed on
/// both is on neither alone. Two directories are told from two files, and a directory
/// is never the same as a file.
pub proof fn law_row_tells_where_its_name_was_listed(
    row: DiffEntry,
    request: BuildRequest,
    found: Examined,
    depth: usize,
    method: CompareMethod,
)
    requires
        is_row_of(row, request, found, depth, method),
        request.on_left || request.on_right,
    ensures
        tells_sides(row),
        row.status == DiffStatus::LeftOnly <==> request.on_left && !request.on_right,
        row.status == DiffStatus::RightOnly <==> request.on_right && !request.on_left,
        row.relative_path@ == request.relative_path@,
        row.depth == depth,
        request.on_left ==> row.left == found.left,
        request.on_right ==> row.right == found.right,
        !request.on_left ==> row.left is None,
        !request.on_right ==> row.right is None,
        row.children_not_loaded ==> row.is_directory && (row.status == DiffStatus::LeftOnly
            || row.status == DiffStatus::RightOnly),
        row.status == DiffStatus::LeftOnly || row.status == DiffStatus::RightOnly ==> (
        row.is_directory ==> row.children_not_loaded),
        request.on_left && request.on_right ==> match (row.left, row.right) {
            (Some(l), Some(r)) => if l.is_directory && r.is_directory {
                row.status == DiffStatus::DirSame && row.is_directory
            } else if l.is_directory || r.is_directory {
                row.status == DiffStatus::Modified && row.is_directory
            } else {
                &&& !row.is_directory
                &&& counts_as_same(l, r, method, found.evidence) <==> row.status
                    == DiffStatus::Same
                &&& !counts_as_same(l, r, method, found.evidence) <==> row.status
                    == DiffStatus::Modified
            },
            _ => row.status == DiffStatus::Modified,
        },
{
}

/// Taking in a name keeps the rows there are and adds the one of the name.
pub proof fn law_taking_in_keeps_the_sides(
    before: BuildRun,
    request: BuildRequest,
    found: Examined,
    after: BuildRun,
)
    requires
        takes_in(before, request, found, after),
        request.on_left || request.on_right,
        all_tell_sides(before.entries@),
    ensures
        after.entries@.len() == before.entries@.len() + 1,
        forall|i: int|
            0 <= i < before.entries@.len() ==> (#[trigger] after.entries@[i]) == before.entries@[i],
        all_tell_sides(after.entries@),
{
    let row = after.entries@.last();
    law_row_tells_where_its_name_was_listed(
        row,
        request,
        found,
        before.frames@.last().depth,
        before.compare_method,
    );
}

/// Closing the directories of a comparison tells of none that it is on one side, and
/// changes nothing of a row but its status.
pub proof fn law_closing_keeps_the_sides(frames: Seq<BuildFrame>, entries: Seq<DiffEntry>)
    requires
        all_tell_sides(entries),
        forall|k: int|
            0 <= k < frames.len() && (#[trigger] frames[k]).owner_index is Some
                ==> frames[k].owner_index->0 < entries.len(),
    ensures
        all_tell_sides(after_closing(frames, entries).1),
        after_closing(frames, entries).1.len() == entries.len(),
        forall|i: int|
            0 <= i < entries.len() ==> (#[trigger] after_closing(frames, entries).1[i])
                == (DiffEntry { status: after_closing(frames, entries).1[i].status, ..entries[i] }),
    decreases frames.len(),
{
    if frames.len() > 0 && is_finished(frames.last()) {
        let rows = rows_after_close(frames, entries);
        assert(frames.last() == frames[frames.len() - 1]);
        assert(rows.len() == entries.len());
        let rest = frames_after_close(frames);
        assert forall|k: int|
            0 <= k < rest.len() && (#[trigger] rest[k]).owner_index is Some implies
            rest[k].owner_index->0 < rows.len() by {
            assert(frames[k].owner_index == rest[k].owner_index);
        }
        assert forall|i: int| 0 <= i < rows.len() implies tells_sides(#[trigger] rows[i]) by {
            assert(tells_sides(entries[i]));
        }
        law_closing_keeps_the_sides(rest, rows);
        assert forall|i: int| 0 <= i < entries.len() implies (#[trigger] after_closing(
            frames,
            entries,
        ).1[i]) == (DiffEntry {
            status: after_closing(frames, entries).1[i].status,
            ..entries[i]
        }) by {
            assert(rows[i] == (DiffEntry { status: rows[i].status, ..entries[i] }));
        }
    }
}

/// A path that was looked at again has a row exactly where something is there on one of
/// the sides, and the status says on which.
pub proof fn law_looking_again_tells_the_sides(
    path: Seq<char>,
    depth: usize,
    facts: PairFacts,
    method: CompareMethod,
    r: Result<Option<DiffEntry>, String>,
)
    requires
        looked_again(path, depth, facts, method, r),
    ensures
        r is Err <==> facts.left is Err || facts.right is Err,
        facts.left is Ok && facts.right is Ok ==> {
            let left = facts.left->Ok_0.info;
            let right = facts.right->Ok_0.info;
            &&& r == Ok::<Option<DiffEntry>, String>(None) <==> left is None && right is None
            &&& r matches Ok(Some(row)) ==> {
                &&& tells_sides(row)
                &&& row.left == left
                &&& row.right == right
                &&& row.left_missing == facts.left->Ok_0.missing
                &&& row.right_missing == facts.right->Ok_0.missing
                &&& row.relative_path@ == path
                &&& row.depth == depth
                &&& row.status == DiffStatus::LeftOnly <==> right is None
                &&& row.status == DiffStatus::RightOnly <==> left is None
                &&& row.children_not_loaded <==> row.is_directory && (left is None || right is None)
            }
        },
{
}

/// A pair of sides looked at the other way round has the status the other way round: what
/// was on the left only is on the right only, and every other status stays.
pub proof fn law_status_of_swapped_sides(
    left: Option<DiffFileInfo>,
    right: Option<DiffFileInfo>,
    directories: DiffStatus,
    method: CompareMethod,
    evidence: CompareEvidence,
)
    requires
        left is Some || right is Some,
        directories == DiffStatus::DirSame || directories == DiffStatus::DirModified,
    ensures
        ({
            let status = pair_status(left, right, directories, method, evidence);
            let swapped = pair_status(right, left, directories, method, evidence);
            &&& status == DiffStatus::LeftOnly <==> swapped == DiffStatus::RightOnly
            &&& status == DiffStatus::RightOnly <==> swapped == DiffStatus::LeftOnly
            &&& status == DiffStatus::LeftOnly <==> right is None
            &&& status == DiffStatus::RightOnly <==> left is None
            &&& left is Some && right is Some ==> {
                let l = left->0;
                let r = right->0;
                &&& status == directories <==> l.is_directory && r.is_directory
                &&& l.is_directory != r.is_directory ==> status == DiffStatus::Modified
                &&& !l.is_directory && !r.is_directory ==> {
                    &&& status == DiffStatus::Same <==> counts_as_same(l, r, method, evidence)
                    &&& status == DiffStatus::Modified <==> !counts_as_same(l, r, method, evidence)
                }
            }
        }),
{
}

/// Looking again at the directories above a row keeps that the status of every row tells
/// its sides.
pub proof fn law_refreshing_ancestors_keeps_the_sides(
    entries: Seq<DiffEntry>,
    keys: Seq<Seq<char>>,
    facts: Seq<PairFacts>,
    method: CompareMethod,
    n: int,
)
    requires
        all_tell_sides(entries),
        0 <= n,
        forall|k: int|
            0 <= k < n ==> {
                let seen = #[trigger] facts[k];
                seen.left->Ok_0.info is Some || seen.right->Ok_0.info is Some
            },
    ensures
        all_tell_sides(after_ancestors(entries, keys, facts, method, n)),
    decreases n,
{
    if n > 0 {
        law_refreshing_ancestors_keeps_the_sides(entries, keys, facts, method, n - 1);
        let before = after_ancestors(entries, keys, facts, method, n - 1);
        let after = after_ancestor(before, keys[n - 1], facts[n - 1], method);
        let seen = facts[n - 1];
        assert(seen.left->Ok_0.info is Some || seen.right->Ok_0.info is Some);
        lemma_first_row(before, keys[n - 1], 0);
        assert forall|i: int| 0 <= i < after.len() implies tells_sides(#[trigger] after[i]) by {
            assert(tells_sides(before[i]));
            if let Some(at) = first_row(before, keys[n - 1], 0) {
                if at == i {
                    assert(after[i] == refreshed_row(before, at, seen, method));
                }
            }
        }
    }
}

} // verus!
