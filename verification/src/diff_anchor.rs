//! Keeping the cursor where the user left it while the rows around it change.

use crate::diff_state::DiffState;
use crate::paths::{parent_key, parent_of_key};
use crate::remote_connect::optional_text;
use crate::text::views;
use vstd::prelude::*;

verus! {

/// Where the cursor stood, by path.
#[derive(Debug)]
pub struct DiffCursorAnchor {
    pub focused_path: Option<String>,
    /// The rows behind the cursor, the nearest first.
    pub following_paths: Vec<String>,
    /// The rows before the cursor, the nearest first.
    pub preceding_paths: Vec<String>,
    pub parent_path: Option<String>,
    /// The row of the view that the cursor stood in.
    pub visual_row: usize,
    pub previous_index: usize,
    pub previous_scroll: usize,
}

/// The paths of the rows shown.
pub open spec fn shown_paths(state: DiffState) -> Seq<Seq<char>> {
    Seq::new(
        state.filtered_indices@.len(),
        |k: int| state.all_entries@[state.filtered_indices@[k] as int].relative_path@,
    )
}

/// The last position of the path in the list, or -1.
pub open spec fn last_row(paths: Seq<Seq<char>>, path: Seq<char>) -> int
    decreases paths.len(),
{
    if paths.len() == 0 {
        -1
    } else if paths.last() == path {
        paths.len() - 1
    } else {
        last_row(paths.drop_last(), path)
    }
}

/// The position of the first of the candidates that is shown, or -1.
pub open spec fn first_shown(paths: Seq<Seq<char>>, candidates: Seq<Seq<char>>) -> int
    decreases candidates.len(),
{
    if candidates.len() == 0 {
        -1
    } else {
        let before = first_shown(paths, candidates.drop_last());
        if before >= 0 {
            before
        } else {
            last_row(paths, candidates.last())
        }
    }
}

/// What the anchor remembers of a screen.
pub open spec fn is_anchor_of(anchor: DiffCursorAnchor, state: DiffState) -> bool {
    let paths = shown_paths(state);
    let at = state.selected_index as int;
    &&& optional_text(anchor.focused_path) == if at < paths.len() {
        Some(paths[at])
    } else {
        None
    }
    &&& views(anchor.following_paths@) == if at < paths.len() {
        paths.skip(at + 1)
    } else {
        Seq::empty()
    }
    &&& views(anchor.preceding_paths@) == if at < paths.len() {
        paths.take(at).reverse()
    } else {
        paths.reverse()
    }
    &&& optional_text(anchor.parent_path) == if at < paths.len() {
        parent_key(paths[at])
    } else {
        None
    }
    &&& anchor.visual_row == if state.selected_index >= state.scroll_offset {
        state.selected_index - state.scroll_offset
    } else {
        0
    }
    &&& anchor.previous_index == state.selected_index
    &&& anchor.previous_scroll == state.scroll_offset
}

/// Where the cursor goes: to the row it was on, else to the nearest row behind
/// it, else to the nearest before it, else to its directory, else to where it
/// stood.
pub open spec fn anchored_cursor(anchor: DiffCursorAnchor, paths: Seq<Seq<char>>) -> int {
    let focused = match optional_text(anchor.focused_path) {
        Some(p) => last_row(paths, p),
        None => -1,
    };
    let following = first_shown(paths, views(anchor.following_paths@));
    let preceding = first_shown(paths, views(anchor.preceding_paths@));
    let parent = match optional_text(anchor.parent_path) {
        Some(p) => last_row(paths, p),
        None => -1,
    };
    if focused >= 0 {
        focused
    } else if following >= 0 {
        following
    } else if preceding >= 0 {
        preceding
    } else if parent >= 0 {
        parent
    } else if anchor.previous_index < paths.len() {
        anchor.previous_index as int
    } else {
        paths.len() - 1
    }
}

pub open spec fn at_least(a: int, b: int) -> int {
    if a < b {
        b
    } else {
        a
    }
}

pub open spec fn at_most(a: int, b: int) -> int {
    if a > b {
        b
    } else {
        a
    }
}

/// How far the view is scrolled: so that the cursor keeps its row of the view,
/// as far as the list allows, and stays inside the view.
pub open spec fn anchored_scroll(anchor: DiffCursorAnchor, cursor: int, count: int, height: int) -> int {
    let view = at_least(height, 1);
    let limit = at_least(count - view, 0);
    let wanted = if anchor.focused_path is Some {
        at_least(cursor - at_most(anchor.visual_row as int, view - 1), 0)
    } else {
        anchor.previous_scroll as int
    };
    let scroll = at_most(wanted, limit);
    if cursor < scroll {
        cursor
    } else if cursor >= scroll + view {
        at_least(cursor - (view - 1), 0)
    } else {
        scroll
    }
}

proof fn lemma_last_row(paths: Seq<Seq<char>>, path: Seq<char>)
    ensures
        -1 <= last_row(paths, path) < paths.len(),
        last_row(paths, path) >= 0 ==> paths[last_row(paths, path)] == path,
    decreases paths.len(),
{
    if paths.len() > 0 && paths.last() != path {
        lemma_last_row(paths.drop_last(), path);
    }
}

proof fn lemma_first_shown(paths: Seq<Seq<char>>, candidates: Seq<Seq<char>>)
    ensures
        -1 <= first_shown(paths, candidates) < paths.len(),
    decreases candidates.len(),
{
    if candidates.len() > 0 {
        lemma_first_shown(paths, candidates.drop_last());
        lemma_last_row(paths, candidates.last());
    }
}

fn find_path(paths: &Vec<String>, path: &String) -> (r: Option<usize>)
    ensures
        match r {
            Some(i) => i == last_row(views(paths@), path@) && i < paths@.len(),
            None => last_row(views(paths@), path@) == -1,
        },
{
    let ghost all = views(paths@);
    let mut n: usize = paths.len();
    assert(all.take(n as int) == all);
    while n > 0
        invariant
            n <= paths@.len(),
            all == views(paths@),
            last_row(all, path@) == last_row(all.take(n as int), path@),
        decreases n,
    {
        assert(all.take(n as int).drop_last() == all.take(n - 1));
        assert(all.take(n as int).last() == paths@[n - 1]@);
        if paths[n - 1] == *path {
            return Some(n - 1);
        }
        n -= 1;
    }
    None
}

fn find_first(paths: &Vec<String>, candidates: &Vec<String>) -> (r: Option<usize>)
    ensures
        match r {
            Some(i) => i == first_shown(views(paths@), views(candidates@)) && i < paths@.len(),
            None => first_shown(views(paths@), views(candidates@)) == -1,
        },
{
    let ghost all = views(candidates@);
    let mut i: usize = 0;
    assert(all.take(0) == Seq::<Seq<char>>::empty());
    while i < candidates.len()
        invariant
            i <= candidates@.len(),
            all == views(candidates@),
            first_shown(views(paths@), all.take(i as int)) == -1,
        decreases candidates@.len() - i,
    {
        assert(all.take(i + 1).drop_last() == all.take(i as int));
        assert(all.take(i + 1).last() == candidates@[i as int]@);
        let found = find_path(paths, &candidates[i]);
        if found.is_some() {
            proof {
                assert(first_shown(views(paths@), all.take(i + 1)) >= 0);
                lemma_first_shown_stays(views(paths@), all, i + 1);
            }
            return found;
        }
        i += 1;
    }
    assert(all.take(i as int) == all);
    None
}

proof fn lemma_first_shown_stays(paths: Seq<Seq<char>>, candidates: Seq<Seq<char>>, n: int)
    requires
        0 <= n <= candidates.len(),
        first_shown(paths, candidates.take(n)) >= 0,
    ensures
        first_shown(paths, candidates) == first_shown(paths, candidates.take(n)),
    decreases candidates.len() - n,
{
    if n < candidates.len() {
        assert(candidates.take(n + 1).drop_last() == candidates.take(n));
        lemma_first_shown_stays(paths, candidates, n + 1);
    } else {
        assert(candidates.take(n) == candidates);
    }
}

/// Where the anchor puts the cursor among the paths.
fn cursor_from_anchor(paths: &Vec<String>, anchor: &DiffCursorAnchor) -> (r: usize)
    requires
        paths@.len() > 0,
    ensures
        r == anchored_cursor(*anchor, views(paths@)),
        r < paths@.len(),
{
    if let Some(path) = &anchor.focused_path {
        if let Some(i) = find_path(paths, path) {
            return i;
        }
    }
    if let Some(i) = find_first(paths, &anchor.following_paths) {
        return i;
    }
    if let Some(i) = find_first(paths, &anchor.preceding_paths) {
        return i;
    }
    if let Some(path) = &anchor.parent_path {
        if let Some(i) = find_path(paths, path) {
            return i;
        }
    }
    if anchor.previous_index < paths.len() {
        anchor.previous_index
    } else {
        paths.len() - 1
    }
}

/// How far the anchor wants the view scrolled.
fn scroll_from_anchor(anchor: &DiffCursorAnchor, selected: usize, count: usize, height: usize) -> (r:
    usize)
    requires
        selected < count,
    ensures
        r == anchored_scroll(*anchor, selected as int, count as int, height as int),
{
    let view: usize = if height > 1 { height } else { 1 };
    let limit: usize = if count > view { count - view } else { 0 };
    let row: usize = if anchor.visual_row < view - 1 { anchor.visual_row } else { view - 1 };
    let wanted: usize = if anchor.focused_path.is_some() {
        if selected > row {
            selected - row
        } else {
            0
        }
    } else {
        anchor.previous_scroll
    };
    let scroll: usize = if wanted < limit { wanted } else { limit };
    if selected < scroll {
        selected
    } else if selected - scroll >= view {
        selected - (view - 1)
    } else {
        scroll
    }
}

impl DiffState {
    /// The paths of the rows shown.
    fn visible_paths(&self) -> (r: Vec<String>)
        requires
            self.wf(),
        ensures
            views(r@) == shown_paths(*self),
    {
        let mut r: Vec<String> = Vec::new();
        let mut i: usize = 0;
        while i < self.filtered_indices.len()
            invariant
                i <= self.filtered_indices@.len(),
                self.wf(),
                views(r@) == shown_paths(*self).take(i as int),
            decreases self.filtered_indices@.len() - i,
        {
            assert(self.filtered_indices@[i as int] < self.all_entries@.len());
            let ghost before = r@;
            let path = self.all_entries[self.filtered_indices[i]].relative_path.clone();
            r.push(path);
            assert(views(r@) == views(before).push(path@));
            assert(shown_paths(*self).take(i + 1) == shown_paths(*self).take(i as int).push(
                shown_paths(*self)[i as int],
            ));
            i += 1;
        }
        assert(shown_paths(*self).take(i as int) == shown_paths(*self));
        r
    }

    /// Remembers where the cursor stands.
    pub fn capture_cursor_anchor(&self) -> (r: DiffCursorAnchor)
        requires
            self.wf(),
        ensures
            is_anchor_of(r, *self),
    {
        let paths = self.visible_paths();
        let ghost all = shown_paths(*self);
        let count: usize = paths.len();
        assert(count == all.len());
        let at: usize = self.selected_index;
        let focused_path: Option<String> = if at < count {
            Some(paths[at].clone())
        } else {
            None
        };
        let parent_path = match &focused_path {
            Some(path) => parent_of_key(path.as_str()),
            None => None,
        };
        let mut following_paths: Vec<String> = Vec::new();
        let mut preceding_paths: Vec<String> = Vec::new();
        let mut i: usize = if at < count { at + 1 } else { count };
        let first: usize = i;
        while i < count
            invariant
                first <= i <= count,
                count == paths@.len(),
                views(paths@) == all,
                views(following_paths@) == all.subrange(first as int, i as int),
            decreases count - i,
        {
            let ghost before = following_paths@;
            following_paths.push(paths[i].clone());
            assert(views(following_paths@) == views(before).push(all[i as int]));
            assert(all.subrange(first as int, i + 1) == all.subrange(first as int, i as int).push(
                all[i as int],
            ));
            i += 1;
        }
        let head: usize = if at < count { at } else { count };
        let mut k: usize = head;
        assert(views(preceding_paths@) == all.subrange(k as int, head as int).reverse());
        while k > 0
            invariant
                k <= head <= count,
                count == paths@.len(),
                views(paths@) == all,
                views(preceding_paths@) == all.subrange(k as int, head as int).reverse(),
            decreases k,
        {
            k -= 1;
            let ghost before = preceding_paths@;
            preceding_paths.push(paths[k].clone());
            assert(views(preceding_paths@) == views(before).push(all[k as int]));
            assert(all.subrange(k as int, head as int).reverse() == all.subrange(
                k + 1,
                head as int,
            ).reverse().push(all[k as int]));
        }
        proof {
            assert(all.subrange(first as int, count as int) == if at < count {
                all.skip(at + 1)
            } else {
                Seq::empty()
            });
            assert(all.subrange(0, head as int) == all.take(head as int));
            if at >= count {
                assert(all.take(head as int) == all);
            }
        }
        DiffCursorAnchor {
            focused_path,
            following_paths,
            preceding_paths,
            parent_path,
            visual_row: if at >= self.scroll_offset {
                at - self.scroll_offset
            } else {
                0
            },
            previous_index: at,
            previous_scroll: self.scroll_offset,
        }
    }

    /// Puts the cursor back where the anchor says.
    pub fn restore_cursor_anchor(&mut self, anchor: &DiffCursorAnchor)
        requires
            old(self).wf(),
        ensures
            *final(self) == (DiffState {
                selected_index: final(self).selected_index,
                scroll_offset: final(self).scroll_offset,
                ..*old(self)
            }),
            old(self).filtered_indices@.len() == 0 ==> final(self).selected_index == 0 && final(
                self).scroll_offset == 0,
            old(self).filtered_indices@.len() > 0 ==> {
                &&& final(self).selected_index == anchored_cursor(*anchor, shown_paths(*old(self)))
                &&& final(self).selected_index < old(self).filtered_indices@.len()
                &&& final(self).scroll_offset == anchored_scroll(
                    *anchor,
                    final(self).selected_index as int,
                    old(self).filtered_indices@.len() as int,
                    old(self).visible_height as int,
                )
            },
    {
        let count: usize = self.filtered_indices.len();
        if count == 0 {
            self.selected_index = 0;
            self.scroll_offset = 0;
            return;
        }
        let paths = self.visible_paths();
        assert(views(paths@).len() == shown_paths(*self).len());
        let selected = cursor_from_anchor(&paths, anchor);
        self.selected_index = selected;
        self.scroll_offset = scroll_from_anchor(anchor, selected, count, self.visible_height);
    }
}

/// After the cursor was put back it stands inside the view.
pub proof fn law_anchored_cursor_is_in_view(
    anchor: DiffCursorAnchor,
    cursor: int,
    count: int,
    height: int,
)
    requires
        0 <= cursor < count,
        height >= 0,
    ensures
        ({
            let scroll = anchored_scroll(anchor, cursor, count, height);
            scroll <= cursor < scroll + at_least(height, 1)
        }),
{
}

/// A row that is still shown, once, keeps the cursor.
pub proof fn law_surviving_row_keeps_the_cursor(
    anchor: DiffCursorAnchor,
    before: DiffState,
    paths: Seq<Seq<char>>,
    at: int,
)
    requires
        is_anchor_of(anchor, before),
        before.selected_index < before.filtered_indices@.len(),
        0 <= at < paths.len(),
        paths[at] == shown_paths(before)[before.selected_index as int],
        paths.no_duplicates(),
    ensures
        anchored_cursor(anchor, paths) == at,
{
    let path = shown_paths(before)[before.selected_index as int];
    lemma_last_row_found(paths, path, at);
}

proof fn lemma_last_row_found(paths: Seq<Seq<char>>, path: Seq<char>, at: int)
    requires
        0 <= at < paths.len(),
        paths[at] == path,
        paths.no_duplicates(),
    ensures
        last_row(paths, path) == at,
    decreases paths.len(),
{
    if at < paths.len() - 1 {
        assert(paths.last() != path);
        let rest = paths.drop_last();
        assert(rest[at] == path);
        lemma_last_row_found(rest, path, at);
    }
}

/// The cursor falls on the nearest row behind that is still shown, where its own row is
/// gone; and where none behind is left, on the nearest row before.
pub proof fn law_lost_row_gives_way_to_its_neighbour(
    anchor: DiffCursorAnchor,
    before: DiffState,
    paths: Seq<Seq<char>>,
    j: int,
    at: int,
)
    requires
        is_anchor_of(anchor, before),
        before.selected_index < before.filtered_indices@.len(),
        !paths.contains(shown_paths(before)[before.selected_index as int]),
        0 <= j < shown_paths(before).len(),
        0 <= at < paths.len(),
        paths[at] == shown_paths(before)[j],
        paths.no_duplicates(),
    ensures
        j > before.selected_index && (forall|k: int|
            before.selected_index < k < j ==> !paths.contains(#[trigger] shown_paths(before)[k]))
            ==> anchored_cursor(anchor, paths) == at,
        j < before.selected_index && (forall|k: int|
            before.selected_index < k < shown_paths(before).len() ==> !paths.contains(
                #[trigger] shown_paths(before)[k],
            )) && (forall|k: int|
            j < k < before.selected_index ==> !paths.contains(#[trigger] shown_paths(before)[k]))
            ==> anchored_cursor(anchor, paths) == at,
{
    let shown = shown_paths(before);
    let sel = before.selected_index as int;
    lemma_no_row(paths, shown[sel]);
    let following = shown.skip(sel + 1);
    let preceding = shown.take(sel).reverse();
    if j > sel && (forall|k: int| sel < k < j ==> !paths.contains(#[trigger] shown[k])) {
        assert forall|k: int| 0 <= k < j - sel - 1 implies !paths.contains(
            #[trigger] following[k],
        ) by {
            assert(following[k] == shown[sel + 1 + k]);
        }
        assert(following[j - sel - 1] == shown[j]);
        lemma_first_found(paths, following, j - sel - 1, at);
    }
    if j < sel && (forall|k: int| sel < k < shown.len() ==> !paths.contains(#[trigger] shown[k]))
        && (forall|k: int| j < k < sel ==> !paths.contains(#[trigger] shown[k])) {
        assert forall|k: int| 0 <= k < following.len() implies !paths.contains(
            #[trigger] following[k],
        ) by {
            assert(following[k] == shown[sel + 1 + k]);
        }
        lemma_none_shown(paths, following);
        assert forall|k: int| 0 <= k < sel - 1 - j implies !paths.contains(
            #[trigger] preceding[k],
        ) by {
            assert(preceding[k] == shown[sel - 1 - k]);
        }
        assert(preceding[sel - 1 - j] == shown[j]);
        lemma_first_found(paths, preceding, sel - 1 - j, at);
    }
}

proof fn lemma_no_row(paths: Seq<Seq<char>>, path: Seq<char>)
    requires
        !paths.contains(path),
    ensures
        last_row(paths, path) == -1,
    decreases paths.len(),
{
    if paths.len() > 0 {
        assert(paths[paths.len() - 1] != path);
        assert forall|i: int| 0 <= i < paths.drop_last().len() implies paths.drop_last()[i]
            != path by {
            assert(paths[i] == paths.drop_last()[i]);
        }
        lemma_no_row(paths.drop_last(), path);
    }
}

proof fn lemma_none_shown(paths: Seq<Seq<char>>, candidates: Seq<Seq<char>>)
    requires
        forall|k: int| 0 <= k < candidates.len() ==> !paths.contains(#[trigger] candidates[k]),
    ensures
        first_shown(paths, candidates) == -1,
    decreases candidates.len(),
{
    if candidates.len() > 0 {
        let rest = candidates.drop_last();
        assert forall|k: int| 0 <= k < rest.len() implies !paths.contains(#[trigger] rest[k]) by {
            assert(rest[k] == candidates[k]);
        }
        lemma_none_shown(paths, rest);
        assert(candidates.last() == candidates[candidates.len() - 1]);
        lemma_no_row(paths, candidates.last());
    }
}

proof fn lemma_first_found(paths: Seq<Seq<char>>, candidates: Seq<Seq<char>>, i: int, at: int)
    requires
        0 <= i < candidates.len(),
        0 <= at < paths.len(),
        paths[at] == candidates[i],
        paths.no_duplicates(),
        forall|k: int| 0 <= k < i ==> !paths.contains(#[trigger] candidates[k]),
    ensures
        first_shown(paths, candidates) == at,
    decreases candidates.len(),
{
    let rest = candidates.drop_last();
    assert forall|k: int| 0 <= k < i implies !paths.contains(#[trigger] rest[k]) by {
        assert(rest[k] == candidates[k]);
    }
    if i == candidates.len() - 1 {
        lemma_none_shown(paths, rest);
        lemma_last_row_found(paths, candidates.last(), at);
    } else {
        assert(rest[i] == candidates[i]);
        lemma_first_found(paths, rest, i, at);
    }
}

/// A row that is still there keeps its place on the screen, as far as the list allows.
pub proof fn law_row_keeps_its_place_on_the_screen(
    anchor: DiffCursorAnchor,
    before: DiffState,
    cursor: int,
    count: int,
    height: int,
)
    requires
        is_anchor_of(anchor, before),
        before.selected_index < before.filtered_indices@.len(),
        before.scroll_offset <= before.selected_index < before.scroll_offset + height,
        0 <= cursor < count,
        ({
            let row = before.selected_index - before.scroll_offset;
            row <= cursor && cursor - row + height <= count
        }),
    ensures
        cursor - anchored_scroll(anchor, cursor, count, height) == before.selected_index
            - before.scroll_offset,
{
    assert(optional_text(anchor.focused_path) is Some);
}

/// Where neither the row nor any neighbour is left the cursor goes to the row's directory,
/// and without that to where it stood, or to the last row.
pub proof fn law_lost_rows_give_way_to_their_directory(
    anchor: DiffCursorAnchor,
    paths: Seq<Seq<char>>,
    at: int,
)
    requires
        paths.len() > 0,
        paths.no_duplicates(),
        optional_text(anchor.focused_path) matches Some(p) ==> !paths.contains(p),
        forall|k: int|
            0 <= k < views(anchor.following_paths@).len() ==> !paths.contains(
                #[trigger] views(anchor.following_paths@)[k],
            ),
        forall|k: int|
            0 <= k < views(anchor.preceding_paths@).len() ==> !paths.contains(
                #[trigger] views(anchor.preceding_paths@)[k],
            ),
    ensures
        0 <= at < paths.len() && optional_text(anchor.parent_path) == Some(paths[at])
            ==> anchored_cursor(anchor, paths) == at,
        optional_text(anchor.parent_path) is None && anchor.previous_index < paths.len()
            ==> anchored_cursor(anchor, paths) == anchor.previous_index,
        optional_text(anchor.parent_path) is None && anchor.previous_index >= paths.len()
            ==> anchored_cursor(anchor, paths) == paths.len() - 1,
{
    if let Some(p) = optional_text(anchor.focused_path) {
        lemma_row_of(paths, p);
    }
    if let Some(p) = optional_text(anchor.parent_path) {
        lemma_row_of(paths, p);
    }
    lemma_none_shown(paths, views(anchor.following_paths@));
    lemma_none_shown(paths, views(anchor.preceding_paths@));
}

proof fn lemma_row_of(paths: Seq<Seq<char>>, p: Seq<char>)
    ensures
        !paths.contains(p) ==> last_row(paths, p) == -1,
        paths.contains(p) ==> 0 <= last_row(paths, p) < paths.len() && paths[last_row(paths, p)] == p,
    decreases paths.len(),
{
    if paths.len() > 0 {
        let rest = paths.drop_last();
        lemma_row_of(rest, p);
        assert(paths.last() == paths[paths.len() - 1]);
        if rest.contains(p) {
            let k = choose|k: int| 0 <= k < rest.len() && rest[k] == p;
            assert(paths[k] == p);
        }
        if paths.contains(p) && paths.last() != p {
            let k = choose|k: int| 0 <= k < paths.len() && paths[k] == p;
            assert(rest[k] == p);
        }
    }
}

} // verus!
