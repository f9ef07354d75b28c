//! The comparison as a tree: rows in depth-first order, each below the nearest
//! open directory one level up. Re-sorting arranges every sibling list and
//! keeps every row below its parent.

use crate::diff_shape::{has_place, is_parent_row, tree_shaped};
use crate::diff_types::{entry_key, key_of_entry, DiffEntry};
use crate::ranking::{
    arrange, arranged, key_views, law_arranged_is_ordered_rearrangement, positions, ItemKey, Key,
};
use crate::sorting::{SortBy, SortOrder};
use vstd::prelude::*;

verus! {

pub open spec fn smaller(a: nat, b: nat) -> int {
    if a < b {
        a as int
    } else {
        b as int
    }
}

/// The directories that stand open when row `i` is reached, outermost first.
pub open spec fn open_directories(entries: Seq<DiffEntry>, i: int) -> Seq<int>
    decreases i,
{
    if i <= 0 {
        Seq::empty()
    } else {
        let row = entries[i - 1];
        let before = open_directories(entries, i - 1);
        let kept = before.take(smaller(before.len(), row.depth as nat));
        if row.is_directory {
            kept.push(i - 1)
        } else {
            kept
        }
    }
}

/// The row that holds row `i`: the open directory one level up. A row without
/// one stands at the top.
pub open spec fn parent_row(entries: Seq<DiffEntry>, i: int) -> Option<int> {
    let depth = entries[i].depth as int;
    let open = open_directories(entries, i);
    if 0 < depth <= open.len() {
        Some(open[depth - 1])
    } else {
        None
    }
}

/// The rows below `parent` among the first `n`, in their present order.
pub open spec fn rows_below(entries: Seq<DiffEntry>, parent: Option<int>, n: int) -> Seq<int>
    decreases n,
{
    if n <= 0 {
        Seq::empty()
    } else {
        let before = rows_below(entries, parent, n - 1);
        if parent_row(entries, n - 1) == parent {
            before.push(n - 1)
        } else {
            before
        }
    }
}

/// The rows below `parent`, arranged.
pub open spec fn siblings(
    entries: Seq<DiffEntry>,
    keys: Seq<Key>,
    descending: bool,
    parent: Option<int>,
) -> Seq<int> {
    arranged(keys, descending, rows_below(entries, parent, entries.len() as int))
}

/// The rows of `list`, each followed by all that is below it. Rows not above
/// `low` are not visited; every row is above its parent.
pub open spec fn forest(
    entries: Seq<DiffEntry>,
    keys: Seq<Key>,
    descending: bool,
    low: int,
    list: Seq<int>,
) -> Seq<int>
    decreases entries.len() - low, list.len(),
{
    if list.len() == 0 {
        Seq::empty()
    } else if !(low < list[0] < entries.len()) {
        Seq::empty()
    } else {
        seq![list[0]] + forest(
            entries,
            keys,
            descending,
            list[0],
            siblings(entries, keys, descending, Some(list[0])),
        ) + forest(entries, keys, descending, low, list.skip(1))
    }
}

/// The order of all rows once every sibling list is arranged.
pub open spec fn tree_order(entries: Seq<DiffEntry>, keys: Seq<Key>, descending: bool) -> Seq<int> {
    forest(entries, keys, descending, -1, siblings(entries, keys, descending, None))
}

/// The keys of all rows.
pub open spec fn entry_keys(entries: Seq<DiffEntry>, sort_by: SortBy) -> Seq<Key> {
    Seq::new(entries.len(), |i: int| entry_key(entries[i], sort_by))
}

/// The rows in the order of the arranged tree.
pub open spec fn resorted(
    entries: Seq<DiffEntry>,
    sort_by: SortBy,
    sort_order: SortOrder,
) -> Seq<DiffEntry> {
    let order = tree_order(entries, entry_keys(entries, sort_by), sort_order == SortOrder::Desc);
    Seq::new(order.len(), |k: int| entries[order[k]])
}

proof fn lemma_open_directories(entries: Seq<DiffEntry>, i: int)
    requires
        0 <= i <= entries.len(),
    ensures
        forall|k: int|
            0 <= k < open_directories(entries, i).len() ==> 0 <= #[trigger] open_directories(
                entries,
                i,
            )[k] < i,
    decreases i,
{
    if i > 0 {
        lemma_open_directories(entries, i - 1);
        let row = entries[i - 1];
        let before = open_directories(entries, i - 1);
        let kept = before.take(smaller(before.len(), row.depth as nat));
        assert forall|k: int| 0 <= k < open_directories(entries, i).len() implies 0
            <= #[trigger] open_directories(entries, i)[k] < i by {
            if k < kept.len() {
                assert(open_directories(entries, i)[k] == before[k]);
            }
        }
    }
}

/// A parent stands before its child.
pub proof fn lemma_parent_is_earlier(entries: Seq<DiffEntry>, i: int)
    requires
        0 <= i < entries.len(),
    ensures
        parent_row(entries, i) matches Some(p) ==> 0 <= p < i,
{
    lemma_open_directories(entries, i);
}

pub proof fn lemma_rows_below(entries: Seq<DiffEntry>, parent: Option<int>, n: int)
    requires
        0 <= n <= entries.len(),
    ensures
        rows_below(entries, parent, n).no_duplicates(),
        forall|k: int|
            0 <= k < rows_below(entries, parent, n).len() ==> 0 <= #[trigger] rows_below(
                entries,
                parent,
                n,
            )[k] < n && parent_row(entries, rows_below(entries, parent, n)[k]) == parent,
        forall|j: int|
            0 <= j < n && parent_row(entries, j) == parent ==> #[trigger] rows_below(
                entries,
                parent,
                n,
            ).contains(j),
    decreases n,
{
    if n > 0 {
        lemma_rows_below(entries, parent, n - 1);
        let before = rows_below(entries, parent, n - 1);
        let all = rows_below(entries, parent, n);
        assert forall|j: int| 0 <= j < n && parent_row(entries, j) == parent implies #[trigger] all.contains(
            j,
        ) by {
            if j < n - 1 {
                assert(before.contains(j));
                let k = choose|k: int| 0 <= k < before.len() && before[k] == j;
                assert(all[k] == j);
            } else {
                assert(all[all.len() - 1] == j);
            }
        }
        assert forall|k: int| 0 <= k < all.len() implies 0 <= #[trigger] all[k] < n && parent_row(
            entries,
            all[k],
        ) == parent by {
            if k < before.len() {
                assert(all[k] == before[k]);
            }
        }
    }
}

pub proof fn lemma_siblings(
    entries: Seq<DiffEntry>,
    keys: Seq<Key>,
    descending: bool,
    parent: Option<int>,
)
    ensures
        siblings(entries, keys, descending, parent).no_duplicates(),
        forall|k: int|
            0 <= k < siblings(entries, keys, descending, parent).len() ==> {
                let x = #[trigger] siblings(entries, keys, descending, parent)[k];
                0 <= x < entries.len() && parent_row(entries, x) == parent
            },
        forall|j: int|
            0 <= j < entries.len() && parent_row(entries, j) == parent ==> #[trigger] siblings(
                entries,
                keys,
                descending,
                parent,
            ).contains(j),
{
    broadcast use vstd::seq_lib::group_to_multiset_ensures;

    let rows = rows_below(entries, parent, entries.len() as int);
    let list = siblings(entries, keys, descending, parent);
    lemma_rows_below(entries, parent, entries.len() as int);
    law_arranged_is_ordered_rearrangement(keys, descending, rows);
    rows.lemma_multiset_has_no_duplicates();
    list.lemma_multiset_has_no_duplicates_conv();
    assert forall|k: int| 0 <= k < list.len() implies {
        let x = #[trigger] list[k];
        0 <= x < entries.len() && parent_row(entries, x) == parent
    } by {
        assert(list.to_multiset().count(list[k]) > 0);
        assert(rows.contains(list[k]));
        let m = choose|m: int| 0 <= m < rows.len() && rows[m] == list[k];
        assert(0 <= rows[m] < entries.len());
    }
    assert forall|j: int| 0 <= j < entries.len() && parent_row(entries, j) == parent implies #[trigger] list.contains(
        j,
    ) by {
        assert(rows.contains(j));
        assert(rows.to_multiset().count(j) > 0);
    }
}

/// Where the visit starts does not matter as long as every row is above it.
proof fn lemma_forest_low(
    entries: Seq<DiffEntry>,
    keys: Seq<Key>,
    descending: bool,
    low: int,
    list: Seq<int>,
)
    requires
        -1 <= low,
        forall|k: int| 0 <= k < list.len() ==> low < #[trigger] list[k] < entries.len(),
    ensures
        forest(entries, keys, descending, low, list) == forest(entries, keys, descending, -1, list),
    decreases list.len(),
{
    if list.len() > 0 {
        let rest = list.skip(1);
        assert forall|k: int| 0 <= k < rest.len() implies low < #[trigger] rest[k] < entries.len() by {
            assert(rest[k] == list[k + 1]);
        }
        lemma_forest_low(entries, keys, descending, low, rest);
        assert(low < list[0] < entries.len());
    }
}

proof fn lemma_forest_append(
    entries: Seq<DiffEntry>,
    keys: Seq<Key>,
    descending: bool,
    a: Seq<int>,
    b: Seq<int>,
)
    requires
        forall|k: int| 0 <= k < a.len() ==> 0 <= #[trigger] a[k] < entries.len(),
    ensures
        forest(entries, keys, descending, -1, a + b) == forest(entries, keys, descending, -1, a)
            + forest(entries, keys, descending, -1, b),
    decreases a.len(),
{
    let f = |l: Seq<int>| forest(entries, keys, descending, -1, l);
    if a.len() == 0 {
        assert(a + b == b);
        assert(f(a) == Seq::<int>::empty());
    } else {
        let rest = a.skip(1);
        assert forall|k: int| 0 <= k < rest.len() implies 0 <= #[trigger] rest[k] < entries.len() by {
            assert(rest[k] == a[k + 1]);
        }
        lemma_forest_append(entries, keys, descending, rest, b);
        assert((a + b).skip(1) == rest + b);
        assert((a + b)[0] == a[0]);
        assert(0 <= a[0] < entries.len());
    }
}

/// Visiting a row: it comes out, and what is below it takes its place.
proof fn lemma_forest_step(
    entries: Seq<DiffEntry>,
    keys: Seq<Key>,
    descending: bool,
    x: int,
    rest: Seq<int>,
)
    requires
        0 <= x < entries.len(),
    ensures
        forest(entries, keys, descending, -1, seq![x] + rest) == seq![x] + forest(
            entries,
            keys,
            descending,
            -1,
            siblings(entries, keys, descending, Some(x)) + rest,
        ),
{
    let kids = siblings(entries, keys, descending, Some(x));
    lemma_siblings(entries, keys, descending, Some(x));
    assert forall|k: int| 0 <= k < kids.len() implies x < #[trigger] kids[k] < entries.len() by {
        lemma_parent_is_earlier(entries, kids[k]);
    }
    lemma_forest_low(entries, keys, descending, x, kids);
    lemma_forest_append(entries, keys, descending, kids, rest);
    assert((seq![x] + rest).skip(1) == rest);
}

/// The order of the arranged tree, over keys that were computed before.
pub fn arrange_tree(entries: &Vec<DiffEntry>, keys: &Vec<ItemKey>, descending: bool) -> (r: Vec<
    usize,
>)
    requires
        keys@.len() == entries@.len(),
    ensures
        positions(r@) == tree_order(entries@, key_views(keys@), descending),
        forall|k: int| 0 <= k < r@.len() ==> #[trigger] r@[k] < entries@.len(),
{
    let n: usize = entries.len();
    let ghost kv = key_views(keys@);
    let mut roots: Vec<usize> = Vec::new();
    let mut children: Vec<Vec<usize>> = Vec::new();
    let mut i: usize = 0;
    while i < n
        invariant
            i <= n,
            children@.len() == i,
            forall|p: int| 0 <= p < i ==> (#[trigger] children@[p])@ == Seq::<usize>::empty(),
        decreases n - i,
    {
        children.push(Vec::new());
        i += 1;
    }
    let mut open: Vec<usize> = Vec::new();
    i = 0;
    assert(positions(open@) == Seq::<int>::empty());
    assert(positions(roots@) == Seq::<int>::empty());
    while i < n
        invariant
            i <= n,
            n == entries@.len(),
            children@.len() == n,
            positions(open@) == open_directories(entries@, i as int),
            positions(roots@) == rows_below(entries@, None, i as int),
            forall|p: int|
                0 <= p < n ==> positions((#[trigger] children@[p])@) == rows_below(
                    entries@,
                    Some(p),
                    i as int,
                ),
        decreases n - i,
    {
        proof {
            lemma_open_directories(entries@, i as int);
            lemma_parent_is_earlier(entries@, i as int);
        }
        let depth: usize = entries[i].depth;
        let ghost before = open@;
        if depth > 0 && depth <= open.len() {
            let parent: usize = open[depth - 1];
            assert(positions(before)[depth - 1] == parent);
            let ghost old_children = children@;
            let ghost kids = children@[parent as int]@;
            children[parent].push(i);
            assert(positions(kids.push(i)) == positions(kids).push(i as int));
            assert forall|p: int| 0 <= p < n implies positions((#[trigger] children@[p])@)
                == rows_below(entries@, Some(p), i + 1) by {
                assert(positions(old_children[p]@) == rows_below(entries@, Some(p), i as int));
            }
        } else {
            let ghost old_roots = roots@;
            roots.push(i);
            assert(positions(roots@) == positions(old_roots).push(i as int));
        }
        open.truncate(depth);
        assert(positions(open@) == positions(before).take(
            smaller(positions(before).len(), depth as nat),
        ));
        if entries[i].is_directory {
            let ghost kept = open@;
            open.push(i);
            assert(positions(open@) == positions(kept).push(i as int));
        }
        i += 1;
    }
    proof {
        lemma_rows_below(entries@, None, n as int);
    }
    assert forall|k: int| 0 <= k < roots@.len() implies #[trigger] roots@[k] < keys@.len() by {
        assert(positions(roots@)[k] == roots@[k]);
    }
    let top = arrange(keys, descending, &roots);
    let mut below: Vec<Vec<usize>> = Vec::new();
    i = 0;
    while i < n
        invariant
            i <= n,
            n == entries@.len(),
            n == keys@.len(),
            kv == key_views(keys@),
            children@.len() == n,
            below@.len() == i,
            forall|p: int|
                0 <= p < n ==> positions((#[trigger] children@[p])@) == rows_below(
                    entries@,
                    Some(p),
                    n as int,
                ),
            forall|p: int|
                0 <= p < i ==> positions((#[trigger] below@[p])@) == siblings(
                    entries@,
                    kv,
                    descending,
                    Some(p),
                ),
        decreases n - i,
    {
        proof {
            lemma_rows_below(entries@, Some(i as int), n as int);
        }
        assert(positions(children@[i as int]@) == rows_below(entries@, Some(i as int), n as int));
        assert forall|k: int| 0 <= k < children@[i as int]@.len() implies #[trigger] children@[i as int]@[k]
            < keys@.len() by {
            assert(positions(children@[i as int]@)[k] == children@[i as int]@[k]);
        }
        let sorted = arrange(keys, descending, &children[i]);
        below.push(sorted);
        i += 1;
    }
    proof {
        lemma_siblings(entries@, kv, descending, None);
        assert forall|m: int| 0 <= m < top@.len() implies #[trigger] top@[m] < n by {
            let x = positions(top@)[m];
            assert(0 <= x < entries@.len());
        }
        assert forall|p: int| 0 <= p < n implies below_row(below@, p, n as int) by {
            lemma_siblings(entries@, kv, descending, Some(p));
            assert(positions(below@[p]@) == siblings(entries@, kv, descending, Some(p)));
            assert forall|m: int| 0 <= m < below@[p]@.len() implies #[trigger] below@[p]@[m] < n by {
                let x = positions(below@[p]@)[m];
                assert(0 <= x < entries@.len());
            }
        }
    }
    visit_order(entries, keys, descending, &top, &below)
}

/// Whether all rows listed below row `p` are rows.
spec fn below_row(below: Seq<Vec<usize>>, p: int, n: int) -> bool {
    forall|m: int| 0 <= m < below[p]@.len() ==> #[trigger] below[p]@[m] < n
}

/// Puts a list on the stack so that its first item is taken first.
fn push_reversed(pending: &mut Vec<usize>, list: &Vec<usize>)
    ensures
        final(pending)@ == old(pending)@ + list@.reverse(),
{
    let ghost base = pending@;
    let mut j: usize = list.len();
    while j > 0
        invariant
            j <= list@.len(),
            pending@.len() == base.len() + list@.len() - j,
            forall|m: int| 0 <= m < base.len() ==> pending@[m] == base[m],
            forall|m: int|
                base.len() <= m < pending@.len() ==> pending@[m] == list@[list@.len() - 1 - (m
                    - base.len())],
        decreases j,
    {
        j -= 1;
        pending.push(list[j]);
    }
    assert(pending@ == base + list@.reverse());
}

proof fn lemma_stack(base: Seq<usize>, list: Seq<usize>)
    ensures
        positions(base + list.reverse()).reverse() == positions(list) + positions(base).reverse(),
{
}

/// One visit: the top of the stack comes out, and what is below it goes in.
proof fn lemma_visit(
    entries: Seq<DiffEntry>,
    keys: Seq<Key>,
    descending: bool,
    goal: Seq<int>,
    done: Seq<usize>,
    before: Seq<usize>,
    kids: Seq<usize>,
)
    requires
        before.len() > 0,
        before.last() < entries.len(),
        positions(kids) == siblings(entries, keys, descending, Some(before.last() as int)),
        goal == positions(done) + forest(
            entries,
            keys,
            descending,
            -1,
            positions(before).reverse(),
        ),
    ensures
        goal == positions(done.push(before.last())) + forest(
            entries,
            keys,
            descending,
            -1,
            positions(before.drop_last() + kids.reverse()).reverse(),
        ),
        goal.len() > done.len(),
{
    let x = before.last() as int;
    let rest = positions(before.drop_last()).reverse();
    assert(positions(before).reverse() == seq![x] + rest);
    lemma_forest_step(entries, keys, descending, x, rest);
    lemma_stack(before.drop_last(), kids);
    assert(positions(done.push(before.last())) == positions(done).push(x));
    let tail = forest(entries, keys, descending, -1, positions(kids) + rest);
    assert(positions(done) + (seq![x] + tail) == positions(done).push(x) + tail);
}

/// The rows of `top`, each followed by all that is below it.
fn visit_order(
    entries: &Vec<DiffEntry>,
    keys: &Vec<ItemKey>,
    descending: bool,
    top: &Vec<usize>,
    below: &Vec<Vec<usize>>,
) -> (out: Vec<usize>)
    requires
        keys@.len() == entries@.len(),
        below@.len() == entries@.len(),
        positions(top@) == siblings(entries@, key_views(keys@), descending, None),
        forall|m: int| 0 <= m < top@.len() ==> #[trigger] top@[m] < entries@.len(),
        forall|p: int|
            0 <= p < entries@.len() ==> positions((#[trigger] below@[p])@) == siblings(
                entries@,
                key_views(keys@),
                descending,
                Some(p),
            ),
        forall|p: int| 0 <= p < entries@.len() ==> below_row(below@, p, entries@.len() as int),
    ensures
        positions(out@) == tree_order(entries@, key_views(keys@), descending),
        forall|k: int| 0 <= k < out@.len() ==> #[trigger] out@[k] < entries@.len(),
{
    let ghost kv = key_views(keys@);
    let ghost goal = tree_order(entries@, kv, descending);
    let ghost n = entries@.len();
    let mut pending: Vec<usize> = Vec::new();
    push_reversed(&mut pending, top);
    let mut out: Vec<usize> = Vec::new();
    proof {
        lemma_stack(Seq::<usize>::empty(), top@);
        assert(positions(Seq::<usize>::empty()).reverse() == Seq::<int>::empty());
        assert(positions(top@) + Seq::<int>::empty() == positions(top@));
        assert(positions(out@) + goal == goal);
        assert forall|m: int| 0 <= m < pending@.len() implies #[trigger] pending@[m] < n by {
            assert(pending@[m] == top@[top@.len() - 1 - m]);
        }
    }
    while pending.len() > 0
        invariant
            n == entries@.len(),
            kv == key_views(keys@),
            below@.len() == n,
            forall|p: int|
                0 <= p < n ==> positions((#[trigger] below@[p])@) == siblings(
                    entries@,
                    kv,
                    descending,
                    Some(p),
                ),
            forall|p: int| 0 <= p < n ==> below_row(below@, p, n as int),
            forall|m: int| 0 <= m < pending@.len() ==> #[trigger] pending@[m] < n,
            forall|m: int| 0 <= m < out@.len() ==> #[trigger] out@[m] < n,
            goal == positions(out@) + forest(
                entries@,
                kv,
                descending,
                -1,
                positions(pending@).reverse(),
            ),
        decreases goal.len() - out@.len(),
    {
        let ghost before = pending@;
        let ghost done = out@;
        assert(before[before.len() - 1] < n);
        let x: usize = pending.pop().unwrap();
        assert(pending@ == before.drop_last());
        assert(x == before.last());
        out.push(x);
        let kids = &below[x];
        proof {
            assert(positions(below@[x as int]@) == siblings(entries@, kv, descending, Some(x as int)));
            lemma_visit(entries@, kv, descending, goal, done, before, kids@);
        }
        push_reversed(&mut pending, kids);
        proof {
            assert(below_row(below@, x as int, n as int));
            assert forall|m: int| 0 <= m < pending@.len() implies #[trigger] pending@[m] < n by {
                if m < before.len() - 1 {
                    assert(pending@[m] == before[m]);
                } else {
                    assert(pending@[m] == below@[x as int]@[kids@.len() - 1 - (m - (before.len()
                        - 1))]);
                }
            }
        }
    }
    proof {
        assert(positions(pending@).reverse() == Seq::<int>::empty());
        assert(forest(entries@, kv, descending, -1, Seq::<int>::empty()) == Seq::<int>::empty());
        assert(goal == positions(out@));
    }
    out
}

/// The rows with every sibling list arranged, each row below its parent.
pub fn resort_flat_tree(entries: &Vec<DiffEntry>, sort_by: SortBy, sort_order: SortOrder) -> (r: Vec<
    DiffEntry,
>)
    ensures
        r@ == resorted(entries@, sort_by, sort_order),
{
    let mut keys: Vec<ItemKey> = Vec::new();
    let mut i: usize = 0;
    while i < entries.len()
        invariant
            i <= entries@.len(),
            keys@.len() == i,
            forall|k: int| 0 <= k < i ==> (#[trigger] keys@[k])@ == entry_key(entries@[k], sort_by),
        decreases entries@.len() - i,
    {
        keys.push(key_of_entry(&entries[i], sort_by));
        i += 1;
    }
    assert(key_views(keys@) == entry_keys(entries@, sort_by));
    let order = arrange_tree(entries, &keys, sort_order == SortOrder::Desc);
    let ghost whole = resorted(entries@, sort_by, sort_order);
    let mut r: Vec<DiffEntry> = Vec::new();
    let mut k: usize = 0;
    while k < order.len()
        invariant
            k <= order@.len(),
            forall|m: int| 0 <= m < order@.len() ==> #[trigger] order@[m] < entries@.len(),
            whole.len() == order@.len(),
            forall|m: int| 0 <= m < order@.len() ==> whole[m] == entries@[#[trigger] order@[m] as int],
            r@ == whole.take(k as int),
        decreases order@.len() - k,
    {
        assert(order@[k as int] < entries@.len());
        r.push(entries[order[k]].clone());
        assert(whole.take(k + 1) == whole.take(k as int).push(whole[k as int]));
        k += 1;
    }
    assert(whole.take(k as int) == whole);
    r
}

/// How often `x` occurs in `s`.
spec fn occurrences(s: Seq<int>, x: int) -> nat {
    s.to_multiset().count(x)
}

proof fn lemma_occurrences_append(a: Seq<int>, b: Seq<int>, x: int)
    ensures
        occurrences(a + b, x) == occurrences(a, x) + occurrences(b, x),
{
    vstd::seq_lib::lemma_multiset_commutative(a, b);
}

proof fn lemma_occurrences_one(y: int, x: int)
    ensures
        occurrences(seq![y], x) == if x == y { 1nat } else { 0nat },
{
    broadcast use vstd::seq_lib::group_to_multiset_ensures;

    assert(seq![y] == Seq::<int>::empty().push(y));
    assert(Seq::<int>::empty().to_multiset().count(x) == 0);
}

proof fn lemma_occurrences_distinct(s: Seq<int>, x: int)
    requires
        s.no_duplicates(),
    ensures
        occurrences(s, x) == if s.contains(x) { 1nat } else { 0nat },
{
    broadcast use vstd::seq_lib::group_to_multiset_ensures;

    s.lemma_multiset_has_no_duplicates();
    if s.contains(x) {
        assert(s.to_multiset().contains(x));
    }
}

/// A row comes out once for each time that it is listed, and once for each time
/// that its parent comes out.
proof fn lemma_forest_occurrences(
    entries: Seq<DiffEntry>,
    keys: Seq<Key>,
    descending: bool,
    low: int,
    list: Seq<int>,
    x: int,
)
    requires
        0 <= x < entries.len(),
        -1 <= low,
        forall|k: int| 0 <= k < list.len() ==> low < #[trigger] list[k] < entries.len(),
    ensures
        occurrences(forest(entries, keys, descending, low, list), x) == occurrences(list, x) + (
        match parent_row(entries, x) {
            Some(p) => occurrences(forest(entries, keys, descending, low, list), p),
            None => 0nat,
        }),
    decreases entries.len() - low, list.len(),
{
    broadcast use vstd::seq_lib::group_to_multiset_ensures;

    let whole = forest(entries, keys, descending, low, list);
    if list.len() == 0 {
        assert(whole == Seq::<int>::empty());
        assert(list == Seq::<int>::empty());
    } else {
        let y = list[0];
        let rest = list.skip(1);
        let kids = siblings(entries, keys, descending, Some(y));
        lemma_siblings(entries, keys, descending, Some(y));
        assert forall|k: int| 0 <= k < kids.len() implies y < #[trigger] kids[k] < entries.len() by {
            lemma_parent_is_earlier(entries, kids[k]);
        }
        assert forall|k: int| 0 <= k < rest.len() implies low < #[trigger] rest[k] < entries.len() by {
            assert(rest[k] == list[k + 1]);
        }
        assert(low < list[0] < entries.len());
        lemma_forest_occurrences(entries, keys, descending, y, kids, x);
        lemma_forest_occurrences(entries, keys, descending, low, rest, x);
        let below = forest(entries, keys, descending, y, kids);
        let after = forest(entries, keys, descending, low, rest);
        assert(whole == seq![y] + below + after);
        assert(list == seq![y] + rest);
        lemma_occurrences_append(seq![y] + below, after, x);
        lemma_occurrences_append(seq![y], below, x);
        lemma_occurrences_append(seq![y], rest, x);
        lemma_occurrences_one(y, x);
        lemma_occurrences_distinct(kids, x);
        match parent_row(entries, x) {
            Some(p) => {
                lemma_occurrences_append(seq![y] + below, after, p);
                lemma_occurrences_append(seq![y], below, p);
                lemma_occurrences_one(y, p);
                if p == y {
                    assert(kids.contains(x));
                } else if kids.contains(x) {
                    let k = choose|k: int| 0 <= k < kids.len() && kids[k] == x;
                    assert(parent_row(entries, kids[k]) == Some(y));
                }
            },
            None => {
                if kids.contains(x) {
                    let k = choose|k: int| 0 <= k < kids.len() && kids[k] == x;
                    assert(parent_row(entries, kids[k]) == Some(y));
                }
            },
        }
    }
}

proof fn lemma_each_row_once(entries: Seq<DiffEntry>, keys: Seq<Key>, descending: bool, x: int)
    requires
        0 <= x < entries.len(),
    ensures
        occurrences(tree_order(entries, keys, descending), x) == 1,
    decreases x,
{
    let top = siblings(entries, keys, descending, None);
    lemma_siblings(entries, keys, descending, None);
    lemma_forest_occurrences(entries, keys, descending, -1, top, x);
    lemma_occurrences_distinct(top, x);
    match parent_row(entries, x) {
        Some(p) => {
            lemma_parent_is_earlier(entries, x);
            lemma_each_row_once(entries, keys, descending, p);
            if top.contains(x) {
                let k = choose|k: int| 0 <= k < top.len() && top[k] == x;
                assert(parent_row(entries, top[k]) is None);
            }
        },
        None => {
            assert(top.contains(x));
        },
    }
}

proof fn lemma_forest_rows(
    entries: Seq<DiffEntry>,
    keys: Seq<Key>,
    descending: bool,
    low: int,
    list: Seq<int>,
)
    requires
        -1 <= low,
    ensures
        forall|k: int|
            0 <= k < forest(entries, keys, descending, low, list).len() ==> 0 <= #[trigger] forest(
                entries,
                keys,
                descending,
                low,
                list,
            )[k] < entries.len(),
    decreases entries.len() - low, list.len(),
{
    if list.len() > 0 && low < list[0] < entries.len() {
        let kids = siblings(entries, keys, descending, Some(list[0]));
        lemma_forest_rows(entries, keys, descending, list[0], kids);
        lemma_forest_rows(entries, keys, descending, low, list.skip(1));
        let below = forest(entries, keys, descending, list[0], kids);
        let after = forest(entries, keys, descending, low, list.skip(1));
        let whole = forest(entries, keys, descending, low, list);
        assert forall|k: int| 0 <= k < whole.len() implies 0 <= #[trigger] whole[k] < entries.len() by {
            if k == 0 {
            } else if k < 1 + below.len() {
                assert(whole[k] == below[k - 1]);
            } else {
                assert(whole[k] == after[k - 1 - below.len()]);
            }
        }
    }
}

/// Re-sorting rearranges the rows: each comes out exactly once and none is
/// added, whatever their depths say.
pub proof fn law_tree_order_is_a_rearrangement(
    entries: Seq<DiffEntry>,
    keys: Seq<Key>,
    descending: bool,
)
    ensures
        tree_order(entries, keys, descending).len() == entries.len(),
        tree_order(entries, keys, descending).no_duplicates(),
        forall|k: int|
            0 <= k < entries.len() ==> 0 <= #[trigger] tree_order(entries, keys, descending)[k]
                < entries.len(),
        forall|x: int|
            0 <= x < entries.len() ==> #[trigger] tree_order(entries, keys, descending).contains(x),
{
    broadcast use vstd::seq_lib::group_to_multiset_ensures;

    let order = tree_order(entries, keys, descending);
    let top = siblings(entries, keys, descending, None);
    lemma_forest_rows(entries, keys, descending, -1, top);
    assert forall|x: int| 0 <= x < entries.len() implies #[trigger] order.contains(x) by {
        lemma_each_row_once(entries, keys, descending, x);
        assert(order.to_multiset().count(x) > 0);
    }
    assert forall|x: int| #![trigger order.to_multiset().count(x)] order.to_multiset().contains(x) implies
        order.to_multiset().count(x) == 1 by {
        assert(order.contains(x));
        let k = choose|k: int| 0 <= k < order.len() && order[k] == x;
        lemma_each_row_once(entries, keys, descending, x);
    }
    order.lemma_multiset_has_no_duplicates_conv();
    order.unique_seq_to_set();
    let rows = vstd::set_lib::set_int_range(0, entries.len() as int);
    vstd::set_lib::lemma_int_range(0, entries.len() as int);
    assert(order.to_set() == rows) by {
        assert forall|x: int| order.to_set().contains(x) == rows.contains(x) by {
            if rows.contains(x) {
                assert(order.contains(x));
            }
            if order.contains(x) {
                let k = choose|k: int| 0 <= k < order.len() && order[k] == x;
                assert(0 <= order[k] < entries.len());
            }
        }
    }
}

/// In a tree, a directory that nothing closed yet stands open in its place.
proof fn lemma_stands_open(entries: Seq<DiffEntry>, p: int, i: int)
    requires
        tree_shaped(entries),
        0 <= p < i <= entries.len(),
        entries[p].is_directory,
        forall|m: int| p < m < i ==> (#[trigger] entries[m]).depth > entries[p].depth,
    ensures
        open_directories(entries, i).len() > entries[p].depth,
        open_directories(entries, i)[entries[p].depth as int] == p,
    decreases i,
{
    let depth = entries[p].depth as int;
    let before = open_directories(entries, i - 1);
    if i == p + 1 {
        if depth > 0 {
            assert(has_place(entries, 0, p));
            let above = choose|a: int| is_parent_row(entries, a, p);
            lemma_stands_open(entries, above, p);
        }
    } else {
        lemma_stands_open(entries, p, i - 1);
        assert(entries[i - 1].depth > depth);
        let kept = before.take(smaller(before.len(), entries[i - 1].depth as nat));
        assert(kept[depth] == before[depth]);
    }
}

/// In a tree, the row that holds a row is its directory.
pub proof fn lemma_parent_in_tree(entries: Seq<DiffEntry>, j: int)
    requires
        tree_shaped(entries),
        0 <= j < entries.len(),
    ensures
        entries[j].depth == 0 ==> parent_row(entries, j) is None,
        entries[j].depth > 0 ==> {
            &&& parent_row(entries, j) matches Some(p)
            &&& is_parent_row(entries, p, j)
        },
{
    if entries[j].depth > 0 {
        assert(has_place(entries, 0, j));
        let p = choose|p: int| is_parent_row(entries, p, j);
        lemma_stands_open(entries, p, j);
    }
}

/// Whether row `w[k]` comes behind its directory, with nothing between them but
/// rows that it holds.
pub open spec fn comes_behind(entries: Seq<DiffEntry>, w: Seq<int>, q: int, k: int) -> bool {
    &&& 0 <= q < k < w.len()
    &&& parent_row(entries, w[k]) == Some(w[q])
    &&& forall|m: int| q < m < k ==> entries[#[trigger] w[m]].depth >= entries[w[k]].depth
}

/// Whether row `w[k]` is one of the list, or comes behind its directory.
pub open spec fn is_placed(entries: Seq<DiffEntry>, list: Seq<int>, depth: int, w: Seq<int>, k: int) -> bool {
    &&& 0 <= w[k] < entries.len()
    &&& entries[w[k]].depth >= depth
    &&& entries[w[k]].depth == depth ==> list.contains(w[k])
    &&& entries[w[k]].depth > depth ==> exists|q: int| comes_behind(entries, w, q, k)
}

pub proof fn lemma_forest_is_placed(
    entries: Seq<DiffEntry>,
    keys: Seq<Key>,
    descending: bool,
    low: int,
    list: Seq<int>,
    depth: int,
)
    requires
        tree_shaped(entries),
        -1 <= low,
        forall|k: int|
            0 <= k < list.len() ==> low < #[trigger] list[k] < entries.len()
                && entries[list[k]].depth == depth,
    ensures
        forall|k: int|
            0 <= k < forest(entries, keys, descending, low, list).len() ==> #[trigger] is_placed(
                entries,
                list,
                depth,
                forest(entries, keys, descending, low, list),
                k,
            ),
    decreases entries.len() - low, list.len(),
{
    let w = forest(entries, keys, descending, low, list);
    if list.len() > 0 {
        let y = list[0];
        let rest = list.skip(1);
        let kids = siblings(entries, keys, descending, Some(y));
        assert(low < list[0] < entries.len());
        lemma_siblings(entries, keys, descending, Some(y));
        assert forall|k: int| 0 <= k < kids.len() implies y < #[trigger] kids[k] < entries.len()
            && entries[kids[k]].depth == depth + 1 by {
            lemma_parent_is_earlier(entries, kids[k]);
            lemma_parent_in_tree(entries, kids[k]);
        }
        assert forall|k: int| 0 <= k < rest.len() implies low < #[trigger] rest[k] < entries.len()
            && entries[rest[k]].depth == depth by {
            assert(rest[k] == list[k + 1]);
        }
        lemma_forest_is_placed(entries, keys, descending, y, kids, depth + 1);
        lemma_forest_is_placed(entries, keys, descending, low, rest, depth);
        let below = forest(entries, keys, descending, y, kids);
        let after = forest(entries, keys, descending, low, rest);
        assert(w == seq![y] + below + after);
        assert(list.contains(list[0]));
        assert forall|k: int| 0 <= k < w.len() implies #[trigger] is_placed(
            entries,
            list,
            depth,
            w,
            k,
        ) by {
            if k == 0 {
                assert(w[0] == y);
            } else if k <= below.len() {
                let b = k - 1;
                assert(w[k] == below[b]);
                assert(is_placed(entries, kids, depth + 1, below, b));
                if entries[below[b]].depth == depth + 1 {
                    let c = choose|c: int| 0 <= c < kids.len() && kids[c] == below[b];
                    assert(parent_row(entries, kids[c]) == Some(y));
                    assert forall|m: int| 0 < m < k implies entries[#[trigger] w[m]].depth
                        >= entries[w[k]].depth by {
                        assert(w[m] == below[m - 1]);
                        assert(is_placed(entries, kids, depth + 1, below, m - 1));
                    }
                    assert(comes_behind(entries, w, 0, k));
                } else {
                    let q = choose|q: int| comes_behind(entries, below, q, b);
                    assert forall|m: int| q + 1 < m < k implies entries[#[trigger] w[m]].depth
                        >= entries[w[k]].depth by {
                        assert(w[m] == below[m - 1]);
                    }
                    assert(w[q + 1] == below[q]);
                    assert(comes_behind(entries, w, q + 1, k));
                }
            } else {
                let a = k - 1 - below.len();
                let shift = 1 + below.len() as int;
                assert(w[k] == after[a]);
                assert(is_placed(entries, rest, depth, after, a));
                if entries[after[a]].depth == depth {
                    let c = choose|c: int| 0 <= c < rest.len() && rest[c] == after[a];
                    assert(list[c + 1] == rest[c]);
                } else {
                    let q = choose|q: int| comes_behind(entries, after, q, a);
                    assert forall|m: int| q + shift < m < k implies entries[#[trigger] w[m]].depth
                        >= entries[w[k]].depth by {
                        assert(w[m] == after[m - shift]);
                    }
                    assert(w[q + shift] == after[q]);
                    assert(comes_behind(entries, w, q + shift, k));
                }
            }
        }
    }
}

/// Re-sorting keeps every row below its directory: the row that holds a row holds it
/// still.
pub proof fn law_resorting_keeps_every_parent(
    entries: Seq<DiffEntry>,
    sort_by: SortBy,
    sort_order: SortOrder,
    j: int,
) -> (q: int)
    requires
        tree_shaped(entries),
        0 <= j < resorted(entries, sort_by, sort_order).len(),
        resorted(entries, sort_by, sort_order)[j].depth > 0,
    ensures
        ({
            let order = tree_order(
                entries,
                entry_keys(entries, sort_by),
                sort_order == SortOrder::Desc,
            );
            &&& is_parent_row(entries, order[q], order[j])
            &&& is_parent_row(resorted(entries, sort_by, sort_order), q, j)
        }),
{
    let keys = entry_keys(entries, sort_by);
    let descending = sort_order == SortOrder::Desc;
    let top = siblings(entries, keys, descending, None);
    let order = tree_order(entries, keys, descending);
    let now = resorted(entries, sort_by, sort_order);
    lemma_siblings(entries, keys, descending, None);
    assert forall|k: int| 0 <= k < top.len() implies -1 < #[trigger] top[k] < entries.len()
        && entries[top[k]].depth == 0 by {
        lemma_parent_in_tree(entries, top[k]);
    }
    lemma_forest_is_placed(entries, keys, descending, -1, top, 0);
    assert(is_placed(entries, top, 0, order, j));
    assert(now[j] == entries[order[j]]);
    let q = choose|q: int| comes_behind(entries, order, q, j);
    assert(is_placed(entries, top, 0, order, q));
    lemma_parent_in_tree(entries, order[j]);
    assert forall|m: int| q < m < j implies (#[trigger] now[m]).depth >= now[j].depth by {
        assert(now[m] == entries[order[m]]);
    }
    assert(now[q] == entries[order[q]]);
    q
}

/// Re-sorting keeps the tree.
pub proof fn law_resorting_keeps_the_tree(
    entries: Seq<DiffEntry>,
    sort_by: SortBy,
    sort_order: SortOrder,
)
    requires
        tree_shaped(entries),
    ensures
        tree_shaped(resorted(entries, sort_by, sort_order)),
{
    let now = resorted(entries, sort_by, sort_order);
    assert forall|j: int| 0 <= j < now.len() implies #[trigger] has_place(now, 0, j) by {
        if now[j].depth > 0 {
            let q = law_resorting_keeps_every_parent(entries, sort_by, sort_order, j);
            assert(is_parent_row(now, q, j));
        }
    }
}

} // verus!
