//! The comparison as a whole: over two trees that stay as they are it lists every name
//! of both in order, each directory of both sides before what is in it.

use crate::diff_build::{lists, sorted_names, BuildFrame};
use crate::diff_build_run::{
    after_closing, asks, frame_end, frame_ok, frame_start, frames_after_close, goes_deeper,
    is_asked, is_finished, is_row_at, is_start, is_start_below, lemma_close_keeps_run,
    lemma_owner_order, lemma_subtree_end_bounds, lemma_subtree_reaches, path_below,
    rows_after_close, run_ok, some_differs, status_of, takes_in, BuildRequest, BuildRun, Examined,
};
use crate::diff_state::subtree_end;
use crate::diff_types::{differs, CompareMethod, DiffEntry, DiffStatus};
use crate::sorting::{SortBy, SortOrder};
use vstd::prelude::*;

verus! {

/// Two trees that stay as they are, and how they are compared.
pub struct Trees {
    /// What there is at each path. At the empty path stand the names at the top.
    pub found: spec_fn(Seq<char>) -> Examined,
    pub method: CompareMethod,
    pub sort_by: SortBy,
    pub sort_order: SortOrder,
}

/// A name, with the sides that list it.
pub struct Listed {
    pub name: Seq<char>,
    pub on_left: bool,
    pub on_right: bool,
}

/// The names in a directory of both sides, in the order in which they are compared.
pub open spec fn names_at(t: Trees, dir: Seq<char>) -> Seq<Listed> {
    let found = (t.found)(dir);
    let names = sorted_names(found.left_names@, found.right_names@, t.sort_by, t.sort_order);
    Seq::new(
        names.len(),
        |k: int|
            Listed {
                name: names[k],
                on_left: lists(found.left_names@, names[k]),
                on_right: lists(found.right_names@, names[k]),
            },
    )
}

/// Whether the comparison goes into the directory at the path.
pub open spec fn opens(t: Trees, name: Listed, path: Seq<char>) -> bool {
    goes_deeper(name.on_left, name.on_right, (t.found)(path))
}

/// Whether `row` is the row of the name; a directory of both sides counts as modified
/// where something below it differs.
pub open spec fn is_row_in(
    t: Trees,
    row: DiffEntry,
    name: Listed,
    dir: Seq<char>,
    depth: int,
    below_differs: bool,
) -> bool {
    let path = path_below(dir, name.name);
    let status = if !opens(t, name, path) {
        status_of(name.on_left, name.on_right, (t.found)(path), t.method)
    } else if below_differs {
        DiffStatus::DirModified
    } else {
        DiffStatus::DirSame
    };
    is_row_at(row, path, name.on_left, name.on_right, (t.found)(path), depth, status)
}

/// Whether the rows are those of the names of a directory: a row for each name in
/// order, followed by the rows of what is in it where it is a directory of both sides.
pub open spec fn is_list_of(
    t: Trees,
    rows: Seq<DiffEntry>,
    names: Seq<Listed>,
    dir: Seq<char>,
    depth: int,
) -> bool
    decreases rows.len(),
{
    if names.len() == 0 || rows.len() == 0 {
        names.len() == 0 && rows.len() == 0
    } else {
        let end = subtree_end(rows, 0, 1);
        let path = path_below(dir, names[0].name);
        proof {
            lemma_subtree_end_bounds(rows, 0, 1);
        }
        &&& is_row_in(t, rows[0], names[0], dir, depth, some_differs(rows, 1, end))
        &&& if opens(t, names[0], path) {
            is_list_of(t, rows.subrange(1, end), names_at(t, path), path, depth + 1)
        } else {
            end == 1
        }
        &&& is_list_of(t, rows.skip(end), names.drop_first(), dir, depth)
    }
}

/// Whether the rows are all those of a comparison that began at `root`: of a strict
/// one, those behind its first row.
pub open spec fn is_whole(t: Trees, root: Seq<char>, strict: bool, entries: Seq<DiffEntry>) -> bool {
    if strict {
        &&& entries.len() > 0
        &&& entries[0].relative_path@ == root
        &&& is_list_of(t, entries.skip(1), names_at(t, root), root, entries[0].depth + 1)
    } else {
        is_list_of(t, entries, names_at(t, root), root, 0)
    }
}

/// How many names of a frame have all their rows. `asked` tells whether the last frame
/// waits for what is found under its last name.
pub open spec fn names_done(frames: Seq<BuildFrame>, k: int, asked: bool) -> int {
    if k + 1 < frames.len() || asked {
        frames[k].next_name - 1
    } else {
        frames[k].next_name as int
    }
}

/// Whether a frame holds the names of its directory, and the rows of those that are
/// done.
pub open spec fn frame_follows(
    t: Trees,
    frames: Seq<BuildFrame>,
    entries: Seq<DiffEntry>,
    k: int,
    asked: bool,
) -> bool {
    let f = frames[k];
    let dir = f.relative_path@;
    let names = names_at(t, dir);
    let done = names_done(frames, k, asked);
    &&& f.names@.len() == names.len()
    &&& forall|m: int|
        0 <= m < names.len() ==> {
            let n = #[trigger] f.names@[m];
            &&& n.name@ == names[m].name
            &&& n.on_left == names[m].on_left
            &&& n.on_right == names[m].on_right
        }
    &&& 0 <= done <= names.len()
    &&& is_list_of(
        t,
        entries.subrange(frame_start(frames, k), frame_end(frames, entries, k)),
        names.take(done),
        dir,
        f.depth as int,
    )
    &&& k + 1 < frames.len() ==> {
        let path = path_below(dir, names[done].name);
        &&& done < names.len()
        &&& opens(t, names[done], path)
        &&& frames[k + 1].relative_path@ == path
        &&& is_row_in(
            t,
            entries[frames[k + 1].owner_index->0 as int],
            names[done],
            dir,
            f.depth as int,
            false,
        )
    }
}

/// Whether the rows so far are those of the trees.
pub open spec fn follows(
    t: Trees,
    root: Seq<char>,
    strict: bool,
    frames: Seq<BuildFrame>,
    entries: Seq<DiffEntry>,
    asked: bool,
) -> bool {
    if frames.len() == 0 {
        !asked && is_whole(t, root, strict, entries)
    } else {
        &&& frames[0].relative_path@ == root
        &&& if strict {
            &&& frames[0].owner_index == Some(0usize)
            &&& entries.len() > 0
            &&& entries[0].relative_path@ == root
            &&& frames[0].depth == entries[0].depth + 1
        } else {
            frames[0].owner_index is None && frames[0].depth == 0
        }
        &&& forall|k: int|
            0 <= k < frames.len() ==> #[trigger] frame_follows(t, frames, entries, k, asked)
    }
}

impl BuildRun {
    /// Whether the run has listed the trees from `root` as far as it has come. `asked`
    /// tells whether it waits for what is found under a name.
    pub open spec fn follows(self, t: Trees, root: Seq<char>, asked: bool) -> bool {
        &&& self.compare_method == t.method
        &&& self.sort_by == t.sort_by
        &&& self.sort_order == t.sort_order
        &&& follows(t, root, self.strict_reads, self.frames@, self.entries@, asked)
    }
}

/// The rows of one more name, behind those of the names before it.
proof fn lemma_append(
    t: Trees,
    rows: Seq<DiffEntry>,
    names: Seq<Listed>,
    dir: Seq<char>,
    depth: int,
    item: Seq<DiffEntry>,
    name: Listed,
)
    requires
        is_list_of(t, rows, names, dir, depth),
        item.len() > 0,
        is_row_in(t, item[0], name, dir, depth, some_differs(item, 1, item.len() as int)),
        subtree_end(item, 0, 1) == item.len(),
        opens(t, name, path_below(dir, name.name)) ==> is_list_of(
            t,
            item.skip(1),
            names_at(t, path_below(dir, name.name)),
            path_below(dir, name.name),
            depth + 1,
        ),
        !opens(t, name, path_below(dir, name.name)) ==> item.len() == 1,
    ensures
        is_list_of(t, rows + item, names.push(name), dir, depth),
    decreases rows.len(),
{
    let all = rows + item;
    let more = names.push(name);
    if names.len() == 0 {
        assert(all =~= item);
        assert(more[0] == name);
        assert(item.subrange(1, item.len() as int) =~= item.skip(1));
        assert(is_list_of(t, item.skip(item.len() as int), more.drop_first(), dir, depth));
        assert(is_list_of(t, item, more, dir, depth));
    } else {
        let end = subtree_end(rows, 0, 1);
        lemma_subtree_end_bounds(rows, 0, 1);
        assert(rows[0].depth == depth);
        lemma_subtree_end_prefix(rows, all, 1);
        assert(all.subrange(1, end) =~= rows.subrange(1, end));
        assert(all.skip(end) =~= rows.skip(end) + item);
        assert(more.drop_first() =~= names.drop_first().push(name));
        assert(more[0] == names[0]);
        assert(some_differs(all, 1, end) == some_differs(rows, 1, end)) by {
            if some_differs(all, 1, end) {
                let j = choose|j: int|
                    1 <= j < end && differs((#[trigger] all[j]).status);
                assert(rows[j] == all[j]);
            }
            if some_differs(rows, 1, end) {
                let j = choose|j: int|
                    1 <= j < end && differs((#[trigger] rows[j]).status);
                assert(all[j] == rows[j]);
            }
        }
        lemma_append(t, rows.skip(end), names.drop_first(), dir, depth, item, name);
    }
}

/// The rows below the first row end where they did, when a row that is not deeper
/// comes behind them all.
proof fn lemma_subtree_end_prefix(rows: Seq<DiffEntry>, all: Seq<DiffEntry>, from: int)
    requires
        0 < from <= rows.len() < all.len(),
        forall|j: int| 0 <= j < rows.len() ==> #[trigger] all[j] == rows[j],
        all[rows.len() as int].depth <= rows[0].depth,
    ensures
        subtree_end(all, 0, from) == subtree_end(rows, 0, from),
    decreases rows.len() - from,
{
    assert(all[0] == rows[0]);
    if from < rows.len() {
        assert(all[from] == rows[from]);
        if rows[from].depth > rows[0].depth {
            lemma_subtree_end_prefix(rows, all, from + 1);
        }
    }
}

/// Closing a frame whose names are all done hands its rows to the frame that holds it.
proof fn lemma_close_follows(
    t: Trees,
    root: Seq<char>,
    strict: bool,
    frames: Seq<BuildFrame>,
    entries: Seq<DiffEntry>,
)
    requires
        frames.len() > 0,
        is_finished(frames.last()),
        run_ok(frames, entries),
        follows(t, root, strict, frames, entries, false),
    ensures
        follows(
            t,
            root,
            strict,
            frames_after_close(frames),
            rows_after_close(frames, entries),
            false,
        ),
{
    let last = frames.len() - 1;
    let top = frames[last];
    let now = frames_after_close(frames);
    let rows = rows_after_close(frames, entries);
    let names = names_at(t, top.relative_path@);
    assert(frame_ok(frames, entries, last));
    assert(frame_follows(t, frames, entries, last, false));
    assert(names.take(names.len() as int) =~= names);
    if last == 0 {
        if strict {
            assert(rows.skip(1) =~= entries.subrange(1, entries.len() as int));
        } else {
            assert(entries.subrange(0, entries.len() as int) =~= entries);
        }
    } else {
        lemma_owner_order(frames, entries, 1, last);
        assert forall|k: int| 0 <= k < now.len() implies #[trigger] frame_follows(
            t,
            now,
            rows,
            k,
            false,
        ) by {
            if k + 1 == last {
                lemma_item_closed(t, frames, entries);
            } else {
                lemma_outer_frame_follows(t, frames, entries, k);
            }
        }
    }
}

/// The frame that held the closed one has the rows of one more name.
proof fn lemma_item_closed(t: Trees, frames: Seq<BuildFrame>, entries: Seq<DiffEntry>)
    requires
        frames.len() > 1,
        is_finished(frames.last()),
        run_ok(frames, entries),
        frame_follows(t, frames, entries, frames.len() - 1, false),
        frame_follows(t, frames, entries, frames.len() - 2, false),
    ensures
        frame_follows(
            t,
            frames_after_close(frames),
            rows_after_close(frames, entries),
            frames.len() - 2,
            false,
        ),
{
    let last = frames.len() - 1;
    let k = last - 1;
    let top = frames[last];
    let now = frames_after_close(frames);
    let rows = rows_after_close(frames, entries);
    assert(frame_ok(frames, entries, last));
    assert(frame_ok(frames, entries, k));
    let o = top.owner_index->0 as int;
    let end = entries.len() as int;
    let start = frame_start(frames, k);
    let before = entries.subrange(start, o);
    let item = rows.subrange(o, end);
    let f = frames[k];
    let names = names_at(t, f.relative_path@);
    let done = names_done(frames, k, false);
    assert(rows.subrange(start, end) =~= before + item);
    assert(item.skip(1) =~= entries.subrange(o + 1, end));
    let below = names_at(t, top.relative_path@);
    assert(below.take(below.len() as int) =~= below);
    assert forall|j: int| 1 <= j < item.len() implies (#[trigger] item[j]).depth > item[0].depth by {
        assert(item[j] == entries[o + j]);
        assert(entries[o + j].depth >= top.depth);
    }
    lemma_subtree_reaches(item, 0, 1);
    assert(some_differs(item, 1, item.len() as int) == top.has_difference) by {
        if some_differs(item, 1, item.len() as int) {
            let j = choose|j: int|
                1 <= j < item.len() && differs((#[trigger] item[j]).status);
            assert(entries[o + j] == item[j]);
        }
        if some_differs(entries, o + 1, end) {
            let j = choose|j: int| o + 1 <= j < end && differs((#[trigger] entries[j]).status);
            assert(item[j - o] == entries[j]);
        }
    }
    lemma_append(t, before, names.take(done), f.relative_path@, f.depth as int, item, names[done]);
    assert(names.take(done).push(names[done]) =~= names.take(done + 1));
    assert(frame_start(now, k) == start);
    assert(frame_end(now, rows, k) == end);
    assert(now[k].names == f.names);
}

/// A frame further out is as it was.
proof fn lemma_outer_frame_follows(
    t: Trees,
    frames: Seq<BuildFrame>,
    entries: Seq<DiffEntry>,
    k: int,
)
    requires
        0 <= k < frames.len() - 2,
        run_ok(frames, entries),
        frame_follows(t, frames, entries, k, false),
    ensures
        frame_follows(t, frames_after_close(frames), rows_after_close(frames, entries), k, false),
{
    let last = frames.len() - 1;
    let now = frames_after_close(frames);
    let rows = rows_after_close(frames, entries);
    assert(frame_ok(frames, entries, last));
    assert(frame_ok(frames, entries, k));
    assert(frame_ok(frames, entries, k + 1));
    assert(frame_ok(frames, entries, k + 2));
    lemma_owner_order(frames, entries, k + 2, last);
    assert(now[k] == frames[k]);
    assert(now[k + 1].owner_index == frames[k + 1].owner_index);
    assert(now[k + 1].relative_path == frames[k + 1].relative_path);
    let start = frame_start(frames, k);
    let end = frame_end(frames, entries, k);
    assert(frame_start(now, k) == start);
    assert(frame_end(now, rows, k) == end);
    assert(rows.subrange(start, end) =~= entries.subrange(start, end));
    assert(rows[end] == entries[end]);
}

proof fn lemma_closing_follows(
    t: Trees,
    root: Seq<char>,
    strict: bool,
    frames: Seq<BuildFrame>,
    entries: Seq<DiffEntry>,
)
    requires
        run_ok(frames, entries),
        follows(t, root, strict, frames, entries, false),
    ensures
        ({
            let (now, rows) = after_closing(frames, entries);
            follows(t, root, strict, now, rows, false) && run_ok(now, rows)
        }),
    decreases frames.len(),
{
    if frames.len() > 0 && is_finished(frames.last()) {
        lemma_close_follows(t, root, strict, frames, entries);
        lemma_close_keeps_run(frames, entries);
        lemma_closing_follows(
            t,
            root,
            strict,
            frames_after_close(frames),
            rows_after_close(frames, entries),
        );
    }
}

/// A comparison of whole trees begins with nothing listed.
pub proof fn law_start_follows(run: BuildRun, t: Trees)
    requires
        is_start(
            run,
            (t.found)(Seq::empty()).left_names@,
            (t.found)(Seq::empty()).right_names@,
            t.method,
            t.sort_by,
            t.sort_order,
        ),
    ensures
        run.follows(t, Seq::empty(), false),
{
    let frames = run.frames@;
    assert(frame_follows(t, frames, run.entries@, 0, false));
}

/// A comparison below a directory begins with the row of that directory alone.
pub proof fn law_start_below_follows(run: BuildRun, row: DiffEntry, t: Trees)
    requires
        is_start_below(
            run,
            row,
            (t.found)(row.relative_path@).left_names@,
            (t.found)(row.relative_path@).right_names@,
            t.method,
            t.sort_by,
            t.sort_order,
        ),
    ensures
        run.follows(t, row.relative_path@, false),
{
    let frames = run.frames@;
    assert(frame_follows(t, frames, run.entries@, 0, false));
}

/// Asking for the next name keeps to the trees.
pub proof fn law_asking_follows(
    before: BuildRun,
    after: BuildRun,
    request: Option<BuildRequest>,
    t: Trees,
    root: Seq<char>,
)
    requires
        before.wf(),
        before.follows(t, root, false),
        asks(before, after, request),
    ensures
        after.follows(t, root, request is Some),
{
    lemma_closing_follows(t, root, before.strict_reads, before.frames@, before.entries@);
    let (frames, entries) = after_closing(before.frames@, before.entries@);
    if request is Some {
        let now = after.frames@;
        let count = frames.last().names.len();
        assert(frames.last().next_name < count);
        assert forall|k: int| 0 <= k < now.len() implies #[trigger] frame_follows(
            t,
            now,
            entries,
            k,
            true,
        ) by {
            assert(frame_follows(t, frames, entries, k, false));
            assert(frame_start(now, k) == frame_start(frames, k));
            assert(frame_end(now, entries, k) == frame_end(frames, entries, k));
        }
    }
}

/// Taking in what stands in the trees under the name asked for keeps to the trees.
pub proof fn law_taking_in_follows(
    before: BuildRun,
    request: BuildRequest,
    after: BuildRun,
    t: Trees,
    root: Seq<char>,
)
    requires
        before.wf(),
        before.follows(t, root, true),
        is_asked(before.frames@, request),
        takes_in(before, request, (t.found)(request.relative_path@), after),
        before.entries@.len() < usize::MAX,
    ensures
        after.follows(t, root, false),
{
    let frames = before.frames@;
    let entries = before.entries@;
    let now = after.frames@;
    let rows = after.entries@;
    let last = frames.len() - 1;
    let row = rows.last();
    assert(frame_ok(frames, entries, last));
    assert(frame_follows(t, frames, entries, last, true));
    let f = frames[last];
    let dir = f.relative_path@;
    let names = names_at(t, dir);
    let done = names_done(frames, last, true);
    let path = request.relative_path@;
    let start = frame_start(frames, last);
    let end = entries.len() as int;
    assert(f.names@[done].name@ == names[done].name);
    assert forall|k: int| 0 <= k < now.len() implies #[trigger] frame_follows(t, now, rows, k, false) by {
        if k < last {
            assert(frame_follows(t, frames, entries, k, true));
            assert(frame_ok(frames, entries, k));
            assert(frame_ok(frames, entries, k + 1));
            let from = frame_start(frames, k);
            let to = frame_end(frames, entries, k);
            assert(frame_start(now, k) == from);
            assert(frame_end(now, rows, k) == to);
            assert(rows.subrange(from, to) =~= entries.subrange(from, to));
            assert(rows[to] == entries[to]);
        } else if k == last {
            assert(frame_start(now, k) == start);
            if opens(t, names[done], path) {
                assert(frame_end(now, rows, k) == end);
                assert(rows.subrange(start, end) =~= entries.subrange(start, end));
                assert(rows[end] == row);
            } else {
                let item = seq![row];
                assert(frame_end(now, rows, k) == end + 1);
                assert(rows.subrange(start, end + 1) =~= entries.subrange(start, end) + item);
                lemma_append(
                    t,
                    entries.subrange(start, end),
                    names.take(done),
                    dir,
                    f.depth as int,
                    item,
                    names[done],
                );
                assert(names.take(done).push(names[done]) =~= names.take(done + 1));
            }
        } else {
            let fresh = now[k];
            let below = names_at(t, path);
            assert(frame_start(now, k) == frame_end(now, rows, k));
            assert(rows.subrange(end + 1, end + 1).len() == 0);
            assert(below.take(0).len() == 0);
        }
    }
    assert(now[0].relative_path@ == root);
}

/// A comparison that is done has listed the two trees: a row for each name of every
/// directory that is one on both sides, once and in order, with its status.
pub proof fn law_finished_comparison_lists_the_trees(run: BuildRun, t: Trees, root: Seq<char>)
    requires
        run.follows(t, root, false),
        run.frames@.len() == 0,
    ensures
        is_whole(t, root, run.strict_reads, run.entries@),
{
}

/// Every name of a directory that was listed has its row.
pub proof fn law_every_name_has_its_row(
    t: Trees,
    rows: Seq<DiffEntry>,
    names: Seq<Listed>,
    dir: Seq<char>,
    depth: int,
    k: int,
) -> (j: int)
    requires
        is_list_of(t, rows, names, dir, depth),
        0 <= k < names.len(),
    ensures
        0 <= j < rows.len(),
        is_row_in(
            t,
            rows[j],
            names[k],
            dir,
            depth,
            some_differs(rows, j + 1, subtree_end(rows, j, j + 1)),
        ),
    decreases k,
{
    let end = subtree_end(rows, 0, 1);
    lemma_subtree_end_bounds(rows, 0, 1);
    if k == 0 {
        0
    } else {
        let rest = rows.skip(end);
        let j = law_every_name_has_its_row(t, rest, names.drop_first(), dir, depth, k - 1);
        lemma_subtree_end_skipped(rows, end, j, j + 1);
        lemma_subtree_end_bounds(rest, j, j + 1);
        let stop = subtree_end(rest, j, j + 1);
        assert(rest[j] == rows[end + j]);
        assert(some_differs(rest, j + 1, stop) == some_differs(rows, end + j + 1, end + stop)) by {
            if some_differs(rest, j + 1, stop) {
                let m = choose|m: int| j + 1 <= m < stop && differs((#[trigger] rest[m]).status);
                assert(rows[end + m] == rest[m]);
            }
            if some_differs(rows, end + j + 1, end + stop) {
                let m = choose|m: int|
                    end + j + 1 <= m < end + stop && differs((#[trigger] rows[m]).status);
                assert(rest[m - end] == rows[m]);
            }
        }
        end + j
    }
}

proof fn lemma_subtree_end_skipped(rows: Seq<DiffEntry>, skipped: int, i: int, from: int)
    requires
        0 <= skipped,
        0 <= i < from <= rows.len() - skipped,
    ensures
        subtree_end(rows, skipped + i, skipped + from) == skipped + subtree_end(
            rows.skip(skipped),
            i,
            from,
        ),
    decreases rows.len() - skipped - from,
{
    if from < rows.len() - skipped {
        lemma_subtree_end_skipped(rows, skipped, i, from + 1);
    }
}

} // verus!
