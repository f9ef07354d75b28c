//! The run of a comparison over its open frames, and what holds at its end: a
//! directory counts as modified exactly where something below it differs.

use crate::authorization::MissingPathAuthorization;
use crate::diff_build::{
    is_fresh_frame, law_new_frame_knows_the_sides, make_build_frame, BuildFrame, SideName,
};
use crate::diff_compare::{compare_files, counts_as_same, CompareEvidence};
use crate::diff_shape::{
    fits, has_place, lemma_push_shaped, lemma_same_shape, same_shape, tree_shaped_from,
};
use crate::diff_state::subtree_end;
use crate::diff_types::{differs, CompareMethod, DiffEntry, DiffFileInfo, DiffStatus};
use crate::sorting::{SortBy, SortOrder};
use crate::text::{concat3, concat4};
use vstd::prelude::*;

verus! {

/// A comparison under way.
#[derive(Debug)]
pub struct BuildRun {
    pub frames: Vec<BuildFrame>,
    pub entries: Vec<DiffEntry>,
    pub compare_method: CompareMethod,
    pub sort_by: SortBy,
    pub sort_order: SortOrder,
    /// Whether a name that vanished while it was looked at is an error.
    pub strict_reads: bool,
}

/// A name that has to be looked at next.
#[derive(Debug)]
pub struct BuildRequest {
    pub relative_path: String,
    pub name: String,
    pub on_left: bool,
    pub on_right: bool,
}

/// What was found under a name.
#[derive(Debug)]
pub struct Examined {
    pub left: Option<DiffFileInfo>,
    pub right: Option<DiffFileInfo>,
    pub left_missing: Option<MissingPathAuthorization>,
    pub right_missing: Option<MissingPathAuthorization>,
    /// What the two files showed, where both are there and no directories.
    pub evidence: CompareEvidence,
    /// The names below, where both are directories.
    pub left_names: Vec<SideName>,
    pub right_names: Vec<SideName>,
}

pub open spec fn is_dir(info: Option<DiffFileInfo>) -> bool {
    info is Some && info->0.is_directory
}

/// Whether the name is a directory to go into: listed and found as one on both
/// sides.
pub open spec fn goes_deeper(on_left: bool, on_right: bool, found: Examined) -> bool {
    on_left && on_right && is_dir(found.left) && is_dir(found.right)
}

/// The status of the row of a name.
pub open spec fn status_of(
    on_left: bool,
    on_right: bool,
    found: Examined,
    method: CompareMethod,
) -> DiffStatus {
    if on_left && on_right {
        if is_dir(found.left) && is_dir(found.right) {
            DiffStatus::DirSame
        } else if !is_dir(found.left) && !is_dir(found.right) && found.left is Some
            && found.right is Some && counts_as_same(
            found.left->0,
            found.right->0,
            method,
            found.evidence,
        ) {
            DiffStatus::Same
        } else {
            DiffStatus::Modified
        }
    } else if on_left {
        DiffStatus::LeftOnly
    } else {
        DiffStatus::RightOnly
    }
}

/// Whether `row` is the row of what was found at the path, at the given depth and with
/// the given status.
pub open spec fn is_row_at(
    row: DiffEntry,
    path: Seq<char>,
    on_left: bool,
    on_right: bool,
    found: Examined,
    depth: int,
    status: DiffStatus,
) -> bool {
    let both = on_left && on_right;
    let directory = is_dir(found.left) || is_dir(found.right);
    &&& row.relative_path@ == path
    &&& row.left == if on_left { found.left } else { None }
    &&& row.right == if on_right { found.right } else { None }
    &&& row.status == status
    &&& row.is_directory == directory
    &&& row.depth == depth
    &&& row.children_not_loaded == (!both && directory)
    &&& row.left_missing == if found.left is None { found.left_missing } else { None }
    &&& row.right_missing == if found.right is None { found.right_missing } else { None }
}

/// Whether `row` is the row of the name, at the given depth.
pub open spec fn is_row_of(
    row: DiffEntry,
    request: BuildRequest,
    found: Examined,
    depth: usize,
    method: CompareMethod,
) -> bool {
    is_row_at(
        row,
        request.relative_path@,
        request.on_left,
        request.on_right,
        found,
        depth as int,
        status_of(request.on_left, request.on_right, found, method),
    )
}

/// Whether all names of the frame were taken.
pub open spec fn is_finished(frame: BuildFrame) -> bool {
    frame.next_name >= frame.names@.len()
}

/// The rows after the last frame was closed.
pub open spec fn rows_after_close(frames: Seq<BuildFrame>, entries: Seq<DiffEntry>) -> Seq<DiffEntry> {
    let top = frames.last();
    match top.owner_index {
        Some(o) => entries.update(
            o as int,
            DiffEntry {
                status: if top.has_difference {
                    DiffStatus::DirModified
                } else {
                    DiffStatus::DirSame
                },
                ..entries[o as int]
            },
        ),
        None => entries,
    }
}

/// The frames after the last one was closed: a difference in it is one in the
/// frame that holds it.
pub open spec fn frames_after_close(frames: Seq<BuildFrame>) -> Seq<BuildFrame> {
    let top = frames.last();
    let rest = frames.drop_last();
    if rest.len() > 0 && top.owner_index is Some && top.has_difference {
        rest.drop_last().push(BuildFrame { has_difference: true, ..rest.last() })
    } else {
        rest
    }
}

/// The frames and rows after all finished frames at the end were closed.
pub open spec fn after_closing(frames: Seq<BuildFrame>, entries: Seq<DiffEntry>) -> (
    Seq<BuildFrame>,
    Seq<DiffEntry>,
)
    decreases frames.len(),
{
    if frames.len() == 0 || !is_finished(frames.last()) {
        (frames, entries)
    } else {
        after_closing(frames_after_close(frames), rows_after_close(frames, entries))
    }
}

/// Whether the row is a directory of both sides.
pub open spec fn is_two_sided_directory(e: DiffEntry) -> bool {
    e.status == DiffStatus::DirModified || e.status == DiffStatus::DirSame
}

/// Whether some row from `from` to `to` differs.
pub open spec fn some_differs(entries: Seq<DiffEntry>, from: int, to: int) -> bool {
    exists|j: int| from <= j < to && differs((#[trigger] entries[j]).status)
}

/// Whether a directory row says of the rows below it what they say.
pub open spec fn is_settled(entries: Seq<DiffEntry>, i: int) -> bool {
    (entries[i].status == DiffStatus::DirModified) == some_differs(
        entries,
        i + 1,
        subtree_end(entries, i, i + 1),
    )
}

/// The first row of the frame.
pub open spec fn frame_start(frames: Seq<BuildFrame>, k: int) -> int {
    match frames[k].owner_index {
        Some(o) => o + 1,
        None => 0,
    }
}

/// The end of the rows that belong to the frame and to no open frame in it.
pub open spec fn frame_end(frames: Seq<BuildFrame>, entries: Seq<DiffEntry>, k: int) -> int {
    if k + 1 < frames.len() {
        frames[k + 1].owner_index->0 as int
    } else {
        entries.len() as int
    }
}

pub open spec fn is_owner(frames: Seq<BuildFrame>, i: int) -> bool {
    exists|k: int| 0 <= k < frames.len() && (#[trigger] frames[k]).owner_index == Some(i as usize)
}

/// What holds of one frame of a run.
pub open spec fn frame_ok(frames: Seq<BuildFrame>, entries: Seq<DiffEntry>, k: int) -> bool {
    let f = frames[k];
    &&& k > 0 ==> f.owner_index is Some && f.depth == frames[k - 1].depth + 1
    &&& k == 0 ==> f.owner_index is None || f.owner_index == Some(0usize)
    &&& f.owner_index matches Some(o) ==> o < entries.len() && entries[o as int].depth + 1
        == f.depth
    &&& f.next_name <= f.names@.len()
    &&& frame_start(frames, k) <= frame_end(frames, entries, k)
    &&& forall|j: int|
        frame_start(frames, k) <= j < frame_end(frames, entries, k) ==> (
        #[trigger] entries[j]).depth >= f.depth
    &&& f.has_difference == some_differs(
        entries,
        frame_start(frames, k),
        frame_end(frames, entries, k),
    )
}

/// What holds of a run at every moment.
pub open spec fn run_ok(frames: Seq<BuildFrame>, entries: Seq<DiffEntry>) -> bool {
    &&& entries.len() <= usize::MAX
    &&& forall|k: int| 0 <= k < frames.len() ==> #[trigger] frame_ok(frames, entries, k)
    &&& forall|i: int|
        0 <= i < entries.len() && is_two_sided_directory(#[trigger] entries[i]) && !is_owner(
            frames,
            i,
        ) ==> is_settled(entries, i)
}

/// Whether a frame knows the path of its directory, and stands below it.
pub open spec fn frame_shaped(
    frames: Seq<BuildFrame>,
    entries: Seq<DiffEntry>,
    strict: bool,
    k: int,
) -> bool {
    let f = frames[k];
    &&& match f.owner_index {
        Some(o) => {
            &&& o < entries.len()
            &&& entries[o as int].is_directory
            &&& entries[o as int].relative_path@ == f.relative_path@
        },
        None => entries.len() > 0 ==> entries[0].depth == f.depth,
    }
    &&& strict ==> f.depth > entries[0].depth
}

/// Whether the rows of a run form a tree; those of a strict run one below its first
/// row.
pub open spec fn shape_ok(frames: Seq<BuildFrame>, entries: Seq<DiffEntry>, strict: bool) -> bool {
    &&& entries.len() > 0 ==> tree_shaped_from(entries, entries[0].depth as nat)
    &&& forall|k: int|
        0 <= k < frames.len() ==> #[trigger] frame_shaped(frames, entries, strict, k)
    &&& strict ==> entries.len() > 0 && forall|j: int|
        0 < j < entries.len() ==> (#[trigger] entries[j]).depth > entries[0].depth
}

/// The path of a name in a directory of the comparison.
pub open spec fn path_below(dir: Seq<char>, name: Seq<char>) -> Seq<char> {
    if dir.len() == 0 {
        name
    } else {
        dir + seq!['/'] + name
    }
}

/// Whether the request is the one that was made last.
pub open spec fn is_asked(frames: Seq<BuildFrame>, request: BuildRequest) -> bool {
    &&& frames.len() > 0
    &&& 0 < frames.last().next_name <= frames.last().names@.len()
    &&& {
        let name = frames.last().names@[frames.last().next_name - 1];
        &&& request.name@ == name.name@
        &&& request.on_left == name.on_left
        &&& request.on_right == name.on_right
        &&& request.relative_path@ == path_below(frames.last().relative_path@, name.name@)
    }
}

/// What asking for the next name does to a run, and what is asked. None when the
/// comparison is done.
pub open spec fn asks(before: BuildRun, after: BuildRun, r: Option<BuildRequest>) -> bool {
    let (frames, entries) = after_closing(before.frames@, before.entries@);
    &&& after.entries@ == entries
    &&& after == (BuildRun { frames: after.frames, entries: after.entries, ..before })
    &&& match r {
        None => frames.len() == 0 && after.frames@ == frames,
        Some(request) => {
            let top = frames.last();
            let name = top.names@[top.next_name as int];
            &&& frames.len() > 0
            &&& !is_finished(top)
            &&& request.name@ == name.name@
            &&& request.on_left == name.on_left
            &&& request.on_right == name.on_right
            &&& request.relative_path@ == path_below(top.relative_path@, name.name@)
            &&& is_asked(after.frames@, request)
            &&& after.frames@ == frames.drop_last().push(
                (BuildFrame { next_name: (top.next_name + 1) as usize, ..top }),
            )
        },
    }
}

/// What a run takes in of a name that was looked at.
pub open spec fn takes_in(
    before: BuildRun,
    request: BuildRequest,
    found: Examined,
    after: BuildRun,
) -> bool {
    let top = before.frames@.last();
    let row = after.entries@.last();
    &&& after == (BuildRun { frames: after.frames, entries: after.entries, ..before })
    &&& after.entries@ == before.entries@.push(row)
    &&& is_row_of(row, request, found, top.depth, before.compare_method)
    &&& if goes_deeper(request.on_left, request.on_right, found) {
        &&& after.frames@ == before.frames@.push(after.frames@.last())
        &&& is_fresh_frame(
            after.frames@.last(),
            request.relative_path@,
            top.depth + 1,
            Some(before.entries@.len() as usize),
            found.left_names@,
            found.right_names@,
            before.sort_by,
            before.sort_order,
        )
    } else {
        after.frames@ == before.frames@.drop_last().push(
            (BuildFrame { has_difference: top.has_difference || differs(row.status), ..top }),
        )
    }
}

/// Whether the run is a fresh one over two whole trees, with the names at their top.
pub open spec fn is_start(
    run: BuildRun,
    left: Seq<SideName>,
    right: Seq<SideName>,
    compare_method: CompareMethod,
    sort_by: SortBy,
    sort_order: SortOrder,
) -> bool {
    &&& run.entries@ == Seq::<DiffEntry>::empty()
    &&& run.frames@.len() == 1
    &&& is_fresh_frame(run.frames@[0], Seq::empty(), 0, None, left, right, sort_by, sort_order)
    &&& run.compare_method == compare_method
    &&& run.sort_by == sort_by
    &&& run.sort_order == sort_order
    &&& !run.strict_reads
}

/// Whether the run is a fresh strict one below a directory of both sides, with its row
/// and its names.
pub open spec fn is_start_below(
    run: BuildRun,
    row: DiffEntry,
    left: Seq<SideName>,
    right: Seq<SideName>,
    compare_method: CompareMethod,
    sort_by: SortBy,
    sort_order: SortOrder,
) -> bool {
    &&& run.entries@ == seq![row]
    &&& run.frames@.len() == 1
    &&& is_fresh_frame(
        run.frames@[0],
        row.relative_path@,
        row.depth + 1,
        Some(0),
        left,
        right,
        sort_by,
        sort_order,
    )
    &&& run.compare_method == compare_method
    &&& run.sort_by == sort_by
    &&& run.sort_order == sort_order
    &&& run.strict_reads
}

proof fn lemma_close_keeps_shape(frames: Seq<BuildFrame>, entries: Seq<DiffEntry>, strict: bool)
    requires
        frames.len() > 0,
        shape_ok(frames, entries, strict),
    ensures
        shape_ok(frames_after_close(frames), rows_after_close(frames, entries), strict),
{
    let now = frames_after_close(frames);
    let rows = rows_after_close(frames, entries);
    assert(frame_shaped(frames, entries, strict, frames.len() - 1));
    assert(same_shape(entries, rows));
    if entries.len() > 0 {
        assert(rows[0].depth == entries[0].depth);
        lemma_same_shape(entries, rows, entries[0].depth as nat);
    }
    assert forall|k: int| 0 <= k < now.len() implies #[trigger] frame_shaped(now, rows, strict, k) by {
        assert(frame_shaped(frames, entries, strict, k));
        assert(now[k].owner_index == frames[k].owner_index);
    }
    assert forall|j: int| strict && 0 < j < rows.len() implies (#[trigger] rows[j]).depth
        > rows[0].depth by {
        assert(entries[j].depth > entries[0].depth);
    }
}

/// The row of the name that was asked for keeps the tree, and so does a frame that
/// is opened below it.
proof fn lemma_row_keeps_shape(
    frames: Seq<BuildFrame>,
    entries: Seq<DiffEntry>,
    strict: bool,
    request: BuildRequest,
    row: DiffEntry,
    now: Seq<BuildFrame>,
)
    requires
        run_ok(frames, entries),
        shape_ok(frames, entries, strict),
        is_asked(frames, request),
        row.relative_path@ == request.relative_path@,
        row.depth == frames.last().depth,
        ({
            ||| now.len() == frames.len() && forall|k: int|
                0 <= k < now.len() ==> now[k].owner_index == (#[trigger] frames[k]).owner_index
                    && now[k].relative_path == frames[k].relative_path && now[k].depth
                    == frames[k].depth
            ||| {
                &&& now == frames.push(now.last())
                &&& now.len() == frames.len() + 1
                &&& row.is_directory
                &&& now.last().owner_index == Some(entries.len() as usize)
                &&& now.last().relative_path@ == row.relative_path@
                &&& now.last().depth == row.depth + 1
            }
        }),
    ensures
        shape_ok(now, entries.push(row), strict),
{
    let rows = entries.push(row);
    let last = frames.len() - 1;
    let top = frames[last];
    assert(frame_ok(frames, entries, last));
    assert(frame_shaped(frames, entries, strict, last));
    if entries.len() > 0 {
        let base = entries[0].depth as nat;
        match top.owner_index {
            Some(o) => {
                let dir = top.relative_path@;
                if dir.len() > 0 {
                    let path = row.relative_path@;
                    assert(path.take(dir.len() as int) =~= dir);
                }
                assert(has_place(entries, base, o as int));
                lemma_push_shaped(entries, row, base, Some(o as int));
            },
            None => {
                lemma_push_shaped(entries, row, base, None);
            },
        }
        assert(rows[0] == entries[0]);
    } else {
        assert(rows[0] == row);
        assert(has_place(rows, row.depth as nat, 0));
    }
    assert forall|k: int| 0 <= k < now.len() implies #[trigger] frame_shaped(now, rows, strict, k) by {
        if k < frames.len() {
            assert(frame_shaped(frames, entries, strict, k));
            assert(frame_ok(frames, entries, k));
            assert(now[k].owner_index == frames[k].owner_index);
        } else {
            assert(rows[entries.len() as int] == row);
        }
    }
    assert forall|j: int| strict && 0 < j < rows.len() implies (#[trigger] rows[j]).depth
        > rows[0].depth by {
        if j < entries.len() {
            assert(entries[j].depth > entries[0].depth);
        }
    }
}

pub proof fn lemma_subtree_end_bounds(entries: Seq<DiffEntry>, i: int, from: int)
    requires
        0 <= i < from <= entries.len(),
    ensures
        from <= subtree_end(entries, i, from) <= entries.len(),
    decreases entries.len() - from,
{
    if from < entries.len() && entries[from].depth > entries[i].depth {
        lemma_subtree_end_bounds(entries, i, from + 1);
    }
}

/// A later row that is not deeper ends the subtree.
proof fn lemma_subtree_stops(entries: Seq<DiffEntry>, i: int, from: int, m: int)
    requires
        0 <= i < from <= m < entries.len(),
        entries[m].depth <= entries[i].depth,
    ensures
        subtree_end(entries, i, from) <= m,
    decreases m - from,
{
    if from < m && entries[from].depth > entries[i].depth {
        lemma_subtree_stops(entries, i, from + 1, m);
    }
}

/// Rows that are all deeper belong to the subtree.
pub proof fn lemma_subtree_reaches(entries: Seq<DiffEntry>, i: int, from: int)
    requires
        0 <= i < from <= entries.len(),
        forall|j: int| from <= j < entries.len() ==> (#[trigger] entries[j]).depth > entries[i].depth,
    ensures
        subtree_end(entries, i, from) == entries.len(),
    decreases entries.len() - from,
{
    if from < entries.len() {
        assert(entries[from].depth > entries[i].depth);
        lemma_subtree_reaches(entries, i, from + 1);
    }
}

proof fn lemma_subtree_end_push(entries: Seq<DiffEntry>, e: DiffEntry, i: int, from: int)
    requires
        0 <= i < from <= entries.len(),
        subtree_end(entries, i, from) < entries.len() || e.depth <= entries[i].depth,
    ensures
        subtree_end(entries.push(e), i, from) == subtree_end(entries, i, from),
    decreases entries.len() - from,
{
    let more = entries.push(e);
    assert(more[i] == entries[i]);
    if from < entries.len() {
        assert(more[from] == entries[from]);
        if entries[from].depth > entries[i].depth {
            lemma_subtree_end_push(entries, e, i, from + 1);
        }
    } else {
        assert(more[from] == e);
    }
}

proof fn lemma_subtree_end_same_depths(a: Seq<DiffEntry>, b: Seq<DiffEntry>, i: int, from: int)
    requires
        a.len() == b.len(),
        0 <= i < from <= a.len(),
        forall|j: int| 0 <= j < a.len() ==> (#[trigger] a[j]).depth == b[j].depth,
    ensures
        subtree_end(a, i, from) == subtree_end(b, i, from),
    decreases a.len() - from,
{
    assert(a[i].depth == b[i].depth);
    if from < a.len() {
        assert(a[from].depth == b[from].depth);
        if a[from].depth > a[i].depth {
            lemma_subtree_end_same_depths(a, b, i, from + 1);
        }
    }
}

/// Every row stands in the rows of some frame up to `k`, or is an owner, or
/// stands behind frame `k`.
proof fn lemma_row_has_frame(frames: Seq<BuildFrame>, entries: Seq<DiffEntry>, i: int, k: int) -> (f:
    int)
    requires
        0 <= k < frames.len(),
        forall|m: int| 0 <= m < frames.len() ==> #[trigger] frame_ok(frames, entries, m),
        0 <= i < frame_end(frames, entries, k),
        !is_owner(frames, i),
        entries.len() <= usize::MAX,
        i < entries.len(),
    ensures
        0 <= f <= k,
        frame_start(frames, f) <= i < frame_end(frames, entries, f),
    decreases k,
{
    assert(frame_ok(frames, entries, k));
    if frame_start(frames, k) <= i {
        k
    } else {
        let o = frames[k].owner_index->0;
        assert(i != o) by {
            if i == o {
                assert(frames[k].owner_index == Some(i as usize));
            }
        }
        if k == 0 {
            assert(i < 0);
            0
        } else {
            assert(frame_end(frames, entries, k - 1) == o);
            lemma_row_has_frame(frames, entries, i, k - 1)
        }
    }
}

/// The rows below a row that no frame owns end before the next open frame.
proof fn lemma_closed_rows_end(frames: Seq<BuildFrame>, entries: Seq<DiffEntry>, i: int)
    requires
        frames.len() > 0,
        run_ok(frames, entries),
        0 <= i < entries.len(),
        !is_owner(frames, i),
    ensures
        subtree_end(entries, i, i + 1) < entries.len() || entries[i].depth >= frames.last().depth,
        frames.last().owner_index matches Some(o) ==> i < o ==> subtree_end(entries, i, i + 1) <= o,
{
    let top = frames.len() - 1;
    let f = lemma_row_has_frame(frames, entries, i, top);
    assert(frame_ok(frames, entries, f));
    assert(entries[i].depth >= frames[f].depth);
    if f < top {
        assert(frame_ok(frames, entries, f + 1));
        let o = frames[f + 1].owner_index->0 as int;
        lemma_subtree_stops(entries, i, i + 1, o);
        lemma_owner_order(frames, entries, f + 1, top);
    } else {
        assert(frame_start(frames, top) <= i);
    }
}

pub proof fn lemma_owner_order(frames: Seq<BuildFrame>, entries: Seq<DiffEntry>, a: int, b: int)
    requires
        0 < a <= b < frames.len(),
        forall|m: int| 0 <= m < frames.len() ==> #[trigger] frame_ok(frames, entries, m),
    ensures
        frames[a].owner_index->0 <= frames[b].owner_index->0,
    decreases b - a,
{
    assert(frame_ok(frames, entries, a));
    if a < b {
        assert(frame_ok(frames, entries, a + 1));
        assert(frame_start(frames, a) <= frame_end(frames, entries, a));
        lemma_owner_order(frames, entries, a + 1, b);
    }
}

/// Adding a row of the last frame keeps the run in order.
proof fn lemma_push_keeps_run(
    frames: Seq<BuildFrame>,
    entries: Seq<DiffEntry>,
    e: DiffEntry,
    top: BuildFrame,
)
    requires
        frames.len() > 0,
        run_ok(frames, entries),
        entries.len() < usize::MAX,
        e.depth == frames.last().depth,
        !is_two_sided_directory(e),
        top == (BuildFrame {
            has_difference: frames.last().has_difference || differs(e.status),
            ..frames.last()
        }),
    ensures
        run_ok(frames.drop_last().push(top), entries.push(e)),
{
    let now = frames.drop_last().push(top);
    let rows = entries.push(e);
    let last = frames.len() - 1;
    assert forall|k: int| 0 <= k < now.len() implies #[trigger] frame_ok(now, rows, k) by {
        assert(frame_ok(frames, entries, k));
        let from = frame_start(frames, k);
        let to = frame_end(frames, entries, k);
        if k > 0 {
            assert(frame_ok(frames, entries, k - 1));
        }
        if k < last {
            assert(frame_ok(frames, entries, k + 1));
            assert(now[k] == frames[k]);
            assert(now[k + 1].owner_index == frames[k + 1].owner_index);
            assert(frame_end(now, rows, k) == to);
            assert(to <= entries.len());
            lemma_same_rows(entries, rows, from, to);
        } else {
            assert(frame_end(now, rows, k) == to + 1);
            assert(rows[to] == e);
            lemma_some_differs_push(entries, e, from);
        }
        assert forall|j: int| frame_start(now, k) <= j < frame_end(now, rows, k) implies (
        #[trigger] rows[j]).depth >= now[k].depth by {
            if j < entries.len() {
                assert(rows[j] == entries[j]);
            }
        }
    }
    assert forall|i: int|
        0 <= i < rows.len() && is_two_sided_directory(#[trigger] rows[i]) && !is_owner(now, i) implies is_settled(
        rows,
        i,
    ) by {
        assert(i < entries.len());
        assert(rows[i] == entries[i]);
        if is_owner(frames, i) {
            let k = choose|k: int|
                0 <= k < frames.len() && (#[trigger] frames[k]).owner_index == Some(i as usize);
            assert(now[k].owner_index == Some(i as usize));
        }
        assert(is_settled(entries, i));
        lemma_closed_rows_end(frames, entries, i);
        lemma_subtree_end_push(entries, e, i, i + 1);
        lemma_subtree_end_bounds(entries, i, i + 1);
        lemma_same_rows(entries, rows, i + 1, subtree_end(entries, i, i + 1));
    }
}

proof fn lemma_same_rows(a: Seq<DiffEntry>, b: Seq<DiffEntry>, from: int, to: int)
    requires
        0 <= from,
        to <= a.len(),
        to <= b.len(),
        forall|j: int| from <= j < to ==> (#[trigger] a[j]).status == b[j].status,
    ensures
        some_differs(a, from, to) == some_differs(b, from, to),
{
    if some_differs(a, from, to) {
        let j = choose|j: int| from <= j < to && differs((#[trigger] a[j]).status);
        assert(differs(b[j].status));
    }
    if some_differs(b, from, to) {
        let j = choose|j: int| from <= j < to && differs((#[trigger] b[j]).status);
        assert(differs(a[j].status));
    }
}

proof fn lemma_some_differs_push(entries: Seq<DiffEntry>, e: DiffEntry, from: int)
    requires
        0 <= from <= entries.len(),
    ensures
        some_differs(entries.push(e), from, entries.len() as int + 1) == (some_differs(
            entries,
            from,
            entries.len() as int,
        ) || differs(e.status)),
{
    let rows = entries.push(e);
    let n = entries.len() as int;
    if some_differs(rows, from, n + 1) {
        let j = choose|j: int| from <= j < n + 1 && differs((#[trigger] rows[j]).status);
        if j < n {
            assert(entries[j] == rows[j]);
        }
    }
    if some_differs(entries, from, n) {
        let j = choose|j: int| from <= j < n && differs((#[trigger] entries[j]).status);
        assert(rows[j] == entries[j]);
    }
    if differs(e.status) {
        assert(rows[n] == e);
    }
}

/// Opening a directory keeps the run in order.
proof fn lemma_open_keeps_run(
    frames: Seq<BuildFrame>,
    entries: Seq<DiffEntry>,
    e: DiffEntry,
    fresh: BuildFrame,
)
    requires
        frames.len() > 0,
        run_ok(frames, entries),
        entries.len() < usize::MAX,
        e.depth == frames.last().depth,
        e.status == DiffStatus::DirSame,
        fresh.owner_index == Some(entries.len() as usize),
        fresh.depth == e.depth + 1,
        fresh.next_name == 0,
        !fresh.has_difference,
    ensures
        run_ok(frames.push(fresh), entries.push(e)),
{
    let now = frames.push(fresh);
    let rows = entries.push(e);
    let last = frames.len() as int;
    assert forall|k: int| 0 <= k < now.len() implies #[trigger] frame_ok(now, rows, k) by {
        if k < last {
            assert(frame_ok(frames, entries, k));
            if k > 0 {
                assert(frame_ok(frames, entries, k - 1));
            }
            if k + 1 < last {
                assert(frame_ok(frames, entries, k + 1));
            }
            let from = frame_start(frames, k);
            let to = frame_end(frames, entries, k);
            assert(frame_end(now, rows, k) == to);
            assert(to <= entries.len());
            lemma_same_rows(entries, rows, from, to);
            assert forall|j: int| frame_start(now, k) <= j < frame_end(now, rows, k) implies (
            #[trigger] rows[j]).depth >= now[k].depth by {
                assert(rows[j] == entries[j]);
            }
        } else {
            assert(frame_start(now, k) == frame_end(now, rows, k));
            assert(rows[entries.len() as int] == e);
        }
    }
    assert forall|i: int|
        0 <= i < rows.len() && is_two_sided_directory(#[trigger] rows[i]) && !is_owner(now, i) implies is_settled(
        rows,
        i,
    ) by {
        if i == entries.len() {
            assert(now[last].owner_index == Some(i as usize));
        }
        assert(rows[i] == entries[i]);
        if is_owner(frames, i) {
            let k = choose|k: int|
                0 <= k < frames.len() && (#[trigger] frames[k]).owner_index == Some(i as usize);
            assert(now[k].owner_index == Some(i as usize));
        }
        assert(is_settled(entries, i));
        lemma_closed_rows_end(frames, entries, i);
        lemma_subtree_end_push(entries, e, i, i + 1);
        lemma_subtree_end_bounds(entries, i, i + 1);
        lemma_same_rows(entries, rows, i + 1, subtree_end(entries, i, i + 1));
    }
}

/// Closing the last frame keeps the run in order, and settles its directory.
pub proof fn lemma_close_keeps_run(frames: Seq<BuildFrame>, entries: Seq<DiffEntry>)
    requires
        frames.len() > 0,
        run_ok(frames, entries),
    ensures
        run_ok(frames_after_close(frames), rows_after_close(frames, entries)),
        rows_after_close(frames, entries).len() == entries.len(),
{
    let now = frames_after_close(frames);
    let rows = rows_after_close(frames, entries);
    let top = frames.last();
    let last = frames.len() - 1;
    assert(frame_ok(frames, entries, last));
    assert(rows.len() == entries.len());
    assert forall|j: int| 0 <= j < rows.len() implies (#[trigger] rows[j]).depth == entries[j].depth by {}
    assert forall|k: int| 0 <= k < now.len() implies #[trigger] frame_ok(now, rows, k) by {
        assert(frame_ok(frames, entries, k));
        if k > 0 {
            assert(frame_ok(frames, entries, k - 1));
        }
        let from = frame_start(frames, k);
        assert(frame_start(now, k) == from);
        let o = top.owner_index->0 as int;
        if k + 1 < now.len() {
            assert(frame_ok(frames, entries, k + 1));
            assert(now[k + 1].owner_index == frames[k + 1].owner_index);
            let to = frame_end(frames, entries, k);
            assert(frame_end(now, rows, k) == to);
            lemma_owner_order(frames, entries, k + 1, last);
            lemma_same_rows(entries, rows, from, to);
            assert(now[k] == frames[k]);
        } else {
            // The rows of the closed frame, and its directory, come back here.
            assert(frame_end(now, rows, k) == rows.len());
            assert(frame_end(frames, entries, k) == o);
            let mine = some_differs(entries, from, o);
            let its = some_differs(entries, o + 1, entries.len() as int);
            assert(top.has_difference == its);
            assert(some_differs(rows, from, rows.len() as int) == (mine || its)) by {
                if mine {
                    let j = choose|j: int| from <= j < o && differs((#[trigger] entries[j]).status);
                    assert(rows[j] == entries[j]);
                }
                if its {
                    assert(differs(rows[o].status));
                }
                if some_differs(rows, from, rows.len() as int) {
                    let j = choose|j: int|
                        from <= j < rows.len() && differs((#[trigger] rows[j]).status);
                    if j < o {
                        assert(entries[j] == rows[j]);
                    } else if j > o {
                        assert(entries[j] == rows[j]);
                    }
                }
            }
            assert forall|j: int| from <= j < rows.len() implies (#[trigger] rows[j]).depth
                >= now[k].depth by {
                assert(rows[j].depth == entries[j].depth);
                if j < o {
                    assert(entries[j].depth >= frames[k].depth);
                } else if j > o {
                    assert(entries[j].depth >= frames[last].depth);
                }
            }
        }
    }
    assert forall|i: int|
        0 <= i < rows.len() && is_two_sided_directory(#[trigger] rows[i]) && !is_owner(now, i) implies is_settled(
        rows,
        i,
    ) by {
        if top.owner_index == Some(i as usize) {
            assert forall|j: int| i + 1 <= j < rows.len() implies (#[trigger] rows[j]).depth
                > rows[i].depth by {
                assert(rows[j].depth == entries[j].depth);
                assert(entries[j].depth >= frames[last].depth);
            }
            lemma_subtree_reaches(rows, i, i + 1);
            lemma_same_rows(entries, rows, i + 1, rows.len() as int);
        } else {
            if is_owner(frames, i) {
                let k = choose|k: int|
                    0 <= k < frames.len() && (#[trigger] frames[k]).owner_index == Some(i as usize);
                assert(k < last);
                assert(now[k].owner_index == Some(i as usize));
            }
            assert(rows[i] == entries[i]);
            assert(is_settled(entries, i));
            lemma_closed_rows_end(frames, entries, i);
            lemma_subtree_end_same_depths(rows, entries, i, i + 1);
            lemma_subtree_end_bounds(entries, i, i + 1);
            let end = subtree_end(entries, i, i + 1);
            assert forall|j: int| i + 1 <= j < end implies (#[trigger] entries[j]).status
                == rows[j].status by {}
            lemma_same_rows(entries, rows, i + 1, end);
        }
    }
}

impl BuildRun {
    /// What holds of a run at every moment.
    pub open spec fn wf(self) -> bool {
        &&& run_ok(self.frames@, self.entries@)
        &&& shape_ok(self.frames@, self.entries@, self.strict_reads)
    }

    /// A run over two whole trees, given the names at their top.
    pub fn start(
        left_names: &Vec<SideName>,
        right_names: &Vec<SideName>,
        compare_method: CompareMethod,
        sort_by: SortBy,
        sort_order: SortOrder,
    ) -> (r: BuildRun)
        ensures
            r.wf(),
            is_start(r, left_names@, right_names@, compare_method, sort_by, sort_order),
    {
        let frame = make_build_frame(
            String::new(),
            0,
            None,
            left_names,
            right_names,
            sort_by,
            sort_order,
        );
        let mut frames: Vec<BuildFrame> = Vec::new();
        frames.push(frame);
        let entries: Vec<DiffEntry> = Vec::new();
        proof {
            assert(frames@.len() == 1);
            assert(frame_ok(frames@, entries@, 0));
            assert(frame_shaped(frames@, entries@, false, 0));
        }
        BuildRun { frames, entries, compare_method, sort_by, sort_order, strict_reads: false }
    }

    /// A strict run below a directory of both sides, given its row and its names.
    pub fn start_below(
        row: DiffEntry,
        left_names: &Vec<SideName>,
        right_names: &Vec<SideName>,
        compare_method: CompareMethod,
        sort_by: SortBy,
        sort_order: SortOrder,
    ) -> (r: BuildRun)
        requires
            row.depth < usize::MAX,
            row.status == DiffStatus::DirSame,
            row.is_directory,
        ensures
            r.wf(),
            is_start_below(
                r,
                row,
                left_names@,
                right_names@,
                compare_method,
                sort_by,
                sort_order,
            ),
    {
        let frame = make_build_frame(
            row.relative_path.clone(),
            row.depth + 1,
            Some(0),
            left_names,
            right_names,
            sort_by,
            sort_order,
        );
        let mut frames: Vec<BuildFrame> = Vec::new();
        frames.push(frame);
        let mut entries: Vec<DiffEntry> = Vec::new();
        entries.push(row);
        proof {
            assert(frames@.len() == 1);
            assert(frame_ok(frames@, entries@, 0));
            assert(frames@[0].owner_index == Some(0usize));
            assert(is_owner(frames@, 0));
            assert(entries@ =~= seq![row]);
            assert(has_place(entries@, row.depth as nat, 0));
            assert(frame_shaped(frames@, entries@, true, 0));
        }
        BuildRun { frames, entries, compare_method, sort_by, sort_order, strict_reads: true }
    }

    /// Closes the finished frames at the end.
    fn close_finished(&mut self)
        requires
            old(self).wf(),
        ensures
            final(self).wf(),
            *final(self) == (BuildRun {
                frames: final(self).frames,
                entries: final(self).entries,
                ..*old(self)
            }),
            (final(self).frames@, final(self).entries@) == after_closing(
                old(self).frames@,
                old(self).entries@,
            ),
            final(self).frames@.len() > 0 ==> !is_finished(final(self).frames@.last()),
    {
        while self.frames.len() > 0 && self.frames[self.frames.len() - 1].next_name
            >= self.frames[self.frames.len() - 1].names.len()
            invariant
                self.wf(),
                *self == (BuildRun { frames: self.frames, entries: self.entries, ..*old(self) }),
                after_closing(self.frames@, self.entries@) == after_closing(
                    old(self).frames@,
                    old(self).entries@,
                ),
            decreases self.frames@.len(),
        {
            let ghost frames = self.frames@;
            let ghost entries = self.entries@;
            proof {
                lemma_close_keeps_run(frames, entries);
                lemma_close_keeps_shape(frames, entries, self.strict_reads);
                assert(frame_ok(frames, entries, frames.len() - 1));
            }
            let top = self.frames.pop().unwrap();
            if let Some(owner) = top.owner_index {
                self.entries[owner].status = if top.has_difference {
                    DiffStatus::DirModified
                } else {
                    DiffStatus::DirSame
                };
                if top.has_difference && self.frames.len() > 0 {
                    let last: usize = self.frames.len() - 1;
                    self.frames[last].has_difference = true;
                }
            }
            assert(self.entries@ == rows_after_close(frames, entries));
            assert(self.frames@ == frames_after_close(frames));
        }
    }

    /// The name that has to be looked at next. None when the comparison is done.
    pub fn next_request(&mut self) -> (r: Option<BuildRequest>)
        requires
            old(self).wf(),
        ensures
            final(self).wf(),
            asks(*old(self), *final(self), r),
    {
        self.close_finished();
        let count: usize = self.frames.len();
        if count == 0 {
            return None;
        }
        let ghost frames = self.frames@;
        let top = &self.frames[count - 1];
        let at: usize = top.next_name;
        let total: usize = top.names.len();
        assert(at < total);
        let name = top.names[at].name.clone();
        let on_left = top.names[at].on_left;
        let on_right = top.names[at].on_right;
        proof {
            reveal_strlit("/");
            assert("/"@ == seq!['/']);
        }
        let relative_path = if top.relative_path.as_str().is_empty() {
            name.clone()
        } else {
            concat3(top.relative_path.as_str(), "/", name.as_str())
        };
        self.frames[count - 1].next_name = at + 1;
        proof {
            let now = self.frames@;
            let entries = self.entries@;
            assert(now == frames.drop_last().push(
                (BuildFrame { next_name: (at + 1) as usize, ..frames.last() }),
            ));
            lemma_next_name_keeps_run(frames, entries, now);
            assert forall|k: int| 0 <= k < now.len() implies #[trigger] frame_shaped(
                now,
                entries,
                self.strict_reads,
                k,
            ) by {
                assert(frame_shaped(frames, entries, self.strict_reads, k));
            }
        }
        Some(BuildRequest { relative_path, name, on_left, on_right })
    }

    /// Takes in what was found under the name asked for. In a strict run a name
    /// that was listed and is gone is an error.
    pub fn examined(&mut self, request: &BuildRequest, found: Examined) -> (r: Result<(), String>)
        requires
            old(self).wf(),
            is_asked(old(self).frames@, *request),
            old(self).entries@.len() < usize::MAX,
            old(self).frames@.last().depth < usize::MAX,
        ensures
            final(self).wf(),
            ({
                let gone_left = old(self).strict_reads && request.on_left && found.left is None;
                let gone_right = old(self).strict_reads && request.on_right && found.right is None;
                match r {
                    Err(e) => {
                        &&& gone_left || gone_right
                        &&& *final(self) == *old(self)
                        &&& e@ == (if gone_left { "DIFF left entry '"@ } else {
                            "DIFF right entry '"@
                        }) + request.relative_path@ + "' changed while it was refreshed"@
                    },
                    Ok(_) => {
                        &&& !gone_left && !gone_right
                        &&& takes_in(*old(self), *request, found, *final(self))
                    },
                }
            }),
    {
        if self.strict_reads && request.on_left && found.left.is_none() {
            return Err(
                concat3(
                    "DIFF left entry '",
                    request.relative_path.as_str(),
                    "' changed while it was refreshed",
                ),
            );
        }
        if self.strict_reads && request.on_right && found.right.is_none() {
            return Err(
                concat3(
                    "DIFF right entry '",
                    request.relative_path.as_str(),
                    "' changed while it was refreshed",
                ),
            );
        }
        let ghost frames = self.frames@;
        let ghost entries = self.entries@;
        let last: usize = self.frames.len() - 1;
        let depth: usize = self.frames[last].depth;
        let deeper = request.on_left && request.on_right && is_directory_info(&found.left)
            && is_directory_info(&found.right);
        if deeper {
            let fresh = make_build_frame(
                request.relative_path.clone(),
                depth + 1,
                Some(self.entries.len()),
                &found.left_names,
                &found.right_names,
                self.sort_by,
                self.sort_order,
            );
            let row = row_of(request, found, depth, self.compare_method);
            proof {
                lemma_open_keeps_run(frames, entries, row, fresh);
                lemma_row_keeps_shape(
                    frames,
                    entries,
                    self.strict_reads,
                    *request,
                    row,
                    frames.push(fresh),
                );
            }
            self.entries.push(row);
            self.frames.push(fresh);
            Ok(())
        } else {
            let row = row_of(request, found, depth, self.compare_method);
            let different = crate::diff_types::diff_status_has_difference(row.status);
            proof {
                let top = BuildFrame {
                    has_difference: frames.last().has_difference || different,
                    ..frames.last()
                };
                lemma_push_keeps_run(frames, entries, row, top);
                lemma_row_keeps_shape(
                    frames,
                    entries,
                    self.strict_reads,
                    *request,
                    row,
                    frames.drop_last().push(top),
                );
            }
            self.entries.push(row);
            if different {
                self.frames[last].has_difference = true;
            }
            assert(self.frames@ == frames.drop_last().push(
                (BuildFrame {
                    has_difference: frames.last().has_difference || different,
                    ..frames.last()
                }),
            ));
            Ok(())
        }
    }
}

proof fn lemma_next_name_keeps_run(
    frames: Seq<BuildFrame>,
    entries: Seq<DiffEntry>,
    now: Seq<BuildFrame>,
)
    requires
        frames.len() > 0,
        run_ok(frames, entries),
        !is_finished(frames.last()),
        now == frames.drop_last().push(
            (BuildFrame { next_name: (frames.last().next_name + 1) as usize, ..frames.last() }),
        ),
    ensures
        run_ok(now, entries),
{
    assert forall|k: int| 0 <= k < now.len() implies #[trigger] frame_ok(now, entries, k) by {
        assert(frame_ok(frames, entries, k));
        if k > 0 {
            assert(frame_ok(frames, entries, k - 1));
        }
        assert(frame_end(now, entries, k) == frame_end(frames, entries, k));
        assert(frame_start(now, k) == frame_start(frames, k));
    }
    assert forall|i: int|
        0 <= i < entries.len() && is_two_sided_directory(#[trigger] entries[i]) && !is_owner(now, i) implies is_settled(
        entries,
        i,
    ) by {
        if is_owner(frames, i) {
            let k = choose|k: int|
                0 <= k < frames.len() && (#[trigger] frames[k]).owner_index == Some(i as usize);
            assert(now[k].owner_index == Some(i as usize));
        }
    }
}

fn is_directory_info(info: &Option<DiffFileInfo>) -> (r: bool)
    ensures
        r == is_dir(*info),
{
    match info {
        Some(i) => i.is_directory,
        None => false,
    }
}

/// The row of the name, at the given depth.
fn row_of(request: &BuildRequest, found: Examined, depth: usize, method: CompareMethod) -> (r:
    DiffEntry)
    ensures
        is_row_of(r, *request, found, depth, method),
{
    let left_is_dir = is_directory_info(&found.left);
    let right_is_dir = is_directory_info(&found.right);
    let is_directory = left_is_dir || right_is_dir;
    let both = request.on_left && request.on_right;
    let status = if both {
        if left_is_dir && right_is_dir {
            DiffStatus::DirSame
        } else if !left_is_dir && !right_is_dir {
            let same = match (&found.left, &found.right) {
                (Some(left), Some(right)) => compare_files(left, right, method, found.evidence),
                _ => false,
            };
            if same {
                DiffStatus::Same
            } else {
                DiffStatus::Modified
            }
        } else {
            DiffStatus::Modified
        }
    } else if request.on_left {
        DiffStatus::LeftOnly
    } else {
        DiffStatus::RightOnly
    };
    let left_missing = if found.left.is_none() {
        found.left_missing
    } else {
        None
    };
    let right_missing = if found.right.is_none() {
        found.right_missing
    } else {
        None
    };
    DiffEntry {
        relative_path: request.relative_path.clone(),
        left: if request.on_left {
            found.left
        } else {
            None
        },
        right: if request.on_right {
            found.right
        } else {
            None
        },
        status,
        is_directory,
        depth,
        children_not_loaded: !both && is_directory,
        left_missing,
        right_missing,
    }
}

/// Why a strict run ends where a directory cannot be read.
pub fn unreadable_directory(dir: &str, error: &str) -> (r: String)
    ensures
        r@ == "Cannot refresh DIFF directory '"@ + dir@ + "': "@ + error@,
{
    concat4("Cannot refresh DIFF directory '", dir, "': ", error)
}

/// At the end of a comparison every directory of both sides counts as modified
/// exactly where some row below it differs.
pub proof fn law_directory_is_modified_where_something_below_differs(run: BuildRun, i: int)
    requires
        run.wf(),
        run.frames@.len() == 0,
        0 <= i < run.entries@.len(),
        is_two_sided_directory(run.entries@[i]),
    ensures
        run.entries@[i].status == DiffStatus::DirModified <==> some_differs(
            run.entries@,
            i + 1,
            subtree_end(run.entries@, i, i + 1),
        ),
{
    assert(!is_owner(run.frames@, i));
    assert(is_settled(run.entries@, i));
}

/// The rows of a comparison form a tree at every moment, with its top where the
/// first row stands.
pub proof fn law_comparison_builds_a_tree(run: BuildRun)
    requires
        run.wf(),
        run.entries@.len() > 0,
    ensures
        tree_shaped_from(run.entries@, run.entries@[0].depth as nat),
{
}

/// The rows that were compared anew below a directory can stand in the place of its
/// old ones.
pub proof fn law_new_rows_fit(run: BuildRun, entries: Seq<DiffEntry>, i: int)
    requires
        run.wf(),
        run.strict_reads,
        run.entries@[0].depth == entries[i].depth,
        run.entries@[0].relative_path@ == entries[i].relative_path@,
    ensures
        fits(entries, i, run.entries@),
{
}

/// A comparison begins at the roots, with no rows, and goes by what was chosen.
pub proof fn law_comparison_begins_at_the_roots(
    run: BuildRun,
    left: Seq<SideName>,
    right: Seq<SideName>,
    compare_method: CompareMethod,
    sort_by: SortBy,
    sort_order: SortOrder,
    k: int,
)
    requires
        is_start(run, left, right, compare_method, sort_by, sort_order),
        0 <= k < run.frames@[0].names@.len(),
    ensures
        run.entries@.len() == 0,
        run.frames@.len() == 1,
        run.frames@[0].depth == 0,
        run.frames@[0].relative_path@.len() == 0,
        run.frames@[0].owner_index is None,
        run.compare_method == compare_method,
        run.sort_by == sort_by,
        run.sort_order == sort_order,
        !run.strict_reads,
        ({
            let n = run.frames@[0].names@[k];
            &&& n.on_left <==> exists|i: int|
                0 <= i < left.len() && (#[trigger] left[i]).name@ == n.name@
            &&& n.on_right <==> exists|i: int|
                0 <= i < right.len() && (#[trigger] right[i]).name@ == n.name@
        }),
{
    law_new_frame_knows_the_sides(
        run.frames@[0],
        Seq::empty(),
        0,
        None,
        left,
        right,
        sort_by,
        sort_order,
        k,
    );
}

/// The next name asked for is the next one of the directory gone into last, below its path
/// and on the sides that list it.
pub proof fn law_next_name_is_asked_for(before: BuildRun, after: BuildRun, r: Option<BuildRequest>)
    requires
        asks(before, after, r),
    ensures
        after.compare_method == before.compare_method,
        r is None <==> after.frames@.len() == 0,
        r matches Some(request) ==> {
            let top = after.frames@.last();
            let n = top.names@[top.next_name - 1];
            &&& request.name@ == n.name@
            &&& request.on_left == n.on_left
            &&& request.on_right == n.on_right
            &&& top.relative_path@.len() == 0 ==> request.relative_path@ == n.name@
            &&& top.relative_path@.len() > 0 ==> request.relative_path@ == top.relative_path@
                + seq!['/'] + n.name@
        },
{
}

/// A directory whose names are all done is marked by whether a difference was found in it,
/// and one that differs makes the directory above it differ too.
pub proof fn law_difference_goes_upwards(frames: Seq<BuildFrame>, entries: Seq<DiffEntry>, o: int)
    requires
        frames.len() > 1,
        frames.last().owner_index == Some(o as usize),
        0 <= o < entries.len() <= usize::MAX,
    ensures
        ({
            let rows = rows_after_close(frames, entries);
            let rest = frames_after_close(frames);
            &&& rows.len() == entries.len()
            &&& rows[o].status == if frames.last().has_difference {
                DiffStatus::DirModified
            } else {
                DiffStatus::DirSame
            }
            &&& forall|i: int| 0 <= i < rows.len() && i != o ==> rows[i] == entries[i]
            &&& rest.len() == frames.len() - 1
            &&& rest.last().has_difference == (frames[frames.len() - 2].has_difference
                || frames.last().has_difference)
            &&& rest.last().names == frames[frames.len() - 2].names
            &&& rest.last().next_name == frames[frames.len() - 2].next_name
        }),
{
}

/// Only two directories of one name are gone into. A name on one side only has the status of
/// that side; of two files the comparison decides, and a file and a directory differ.
pub proof fn law_status_of_a_name(
    on_left: bool,
    on_right: bool,
    found: Examined,
    method: CompareMethod,
)
    requires
        on_left || on_right,
    ensures
        ({
            let status = status_of(on_left, on_right, found, method);
            &&& status == DiffStatus::LeftOnly <==> on_left && !on_right
            &&& status == DiffStatus::RightOnly <==> on_right && !on_left
            &&& status == DiffStatus::DirSame <==> goes_deeper(on_left, on_right, found)
            &&& status == DiffStatus::Same ==> found.left is Some && found.right is Some
                && !found.left->0.is_directory && !found.right->0.is_directory && counts_as_same(
                found.left->0,
                found.right->0,
                method,
                found.evidence,
            )
            &&& on_left && on_right && found.left is Some && found.right is Some
                && found.left->0.is_directory != found.right->0.is_directory ==> status
                == DiffStatus::Modified
            &&& goes_deeper(on_left, on_right, found) ==> on_left && on_right && found.left is Some
                && found.right is Some && found.left->0.is_directory
                && found.right->0.is_directory
        }),
{
}

/// A comparison of one directory begins with its row, one step below it, and asks for each
/// name on the sides that list it.
pub proof fn law_comparison_begins_below_its_row(
    run: BuildRun,
    row: DiffEntry,
    left: Seq<SideName>,
    right: Seq<SideName>,
    compare_method: CompareMethod,
    sort_by: SortBy,
    sort_order: SortOrder,
    k: int,
)
    requires
        is_start_below(run, row, left, right, compare_method, sort_by, sort_order),
        0 <= k < run.frames@[0].names@.len(),
    ensures
        run.entries@.len() == 1,
        run.entries@[0] == row,
        run.frames@[0].depth == row.depth + 1,
        run.frames@[0].relative_path@ == row.relative_path@,
        run.frames@[0].owner_index == Some(0usize),
        run.compare_method == compare_method,
        run.strict_reads,
        ({
            let n = run.frames@[0].names@[k];
            &&& n.on_left <==> exists|i: int|
                0 <= i < left.len() && (#[trigger] left[i]).name@ == n.name@
            &&& n.on_right <==> exists|i: int|
                0 <= i < right.len() && (#[trigger] right[i]).name@ == n.name@
        }),
{
    law_new_frame_knows_the_sides(
        run.frames@[0],
        row.relative_path@,
        row.depth + 1,
        Some(0),
        left,
        right,
        sort_by,
        sort_order,
        k,
    );
}

} // verus!
