//! Stable arrangement of indexed items by a key: directories first, then a
//! major and a minor key in the chosen direction, then the path, then the
//! position itself.

use vstd::prelude::*;

verus! {

/// Lexicographic order: the first difference decides, and a proper beginning
/// comes first.
pub open spec fn lex_less(a: Seq<int>, b: Seq<int>) -> bool
    decreases a.len(),
{
    if b.len() == 0 {
        false
    } else if a.len() == 0 {
        true
    } else if a[0] != b[0] {
        a[0] < b[0]
    } else {
        lex_less(a.skip(1), b.skip(1))
    }
}

/// What an item is arranged by.
pub struct Key {
    pub directory: bool,
    pub major: Seq<int>,
    pub minor: Seq<int>,
    pub path: Seq<int>,
}

/// Whether the item at `i` comes before the item at `j`.
pub open spec fn comes_before(keys: Seq<Key>, descending: bool, i: int, j: int) -> bool {
    let a = keys[i];
    let b = keys[j];
    if a.directory != b.directory {
        a.directory
    } else if a.major != b.major {
        lex_less(a.major, b.major) != descending
    } else if a.minor != b.minor {
        lex_less(a.minor, b.minor) != descending
    } else if a.path != b.path {
        lex_less(a.path, b.path)
    } else {
        i < j
    }
}

/// `x` placed behind the items that come before it.
pub open spec fn placed(keys: Seq<Key>, descending: bool, list: Seq<int>, x: int) -> Seq<int>
    decreases list.len(),
{
    if list.len() == 0 || comes_before(keys, descending, list.last(), x) {
        list.push(x)
    } else {
        placed(keys, descending, list.drop_last(), x).push(list.last())
    }
}

/// The positions of `list`, each item before those that it comes before.
pub open spec fn arranged(keys: Seq<Key>, descending: bool, list: Seq<int>) -> Seq<int>
    decreases list.len(),
{
    if list.len() == 0 {
        list
    } else {
        placed(keys, descending, arranged(keys, descending, list.drop_last()), list.last())
    }
}

/// Whether each item of the list comes before all that follow it.
pub open spec fn in_order(keys: Seq<Key>, descending: bool, list: Seq<int>) -> bool {
    forall|i: int, j: int|
        0 <= i < j < list.len() ==> comes_before(keys, descending, #[trigger] list[i], #[trigger] list[j])
}

pub proof fn lemma_lex_total(a: Seq<int>, b: Seq<int>)
    requires
        a != b,
    ensures
        lex_less(a, b) != lex_less(b, a),
    decreases a.len(),
{
    if a.len() > 0 && b.len() > 0 && a[0] == b[0] {
        if a.skip(1) == b.skip(1) {
            assert(a == seq![a[0]] + a.skip(1));
            assert(b == seq![b[0]] + b.skip(1));
        }
        lemma_lex_total(a.skip(1), b.skip(1));
    } else if a.len() == 0 && b.len() == 0 {
        assert(a == b);
    }
}

proof fn lemma_lex_transitive(a: Seq<int>, b: Seq<int>, c: Seq<int>)
    requires
        lex_less(a, b),
        lex_less(b, c),
    ensures
        lex_less(a, c),
    decreases a.len(),
{
    if a.len() > 0 && b.len() > 0 && c.len() > 0 && a[0] == b[0] && b[0] == c[0] {
        lemma_lex_transitive(a.skip(1), b.skip(1), c.skip(1));
    }
}

pub proof fn lemma_lex_irreflexive(a: Seq<int>)
    ensures
        !lex_less(a, a),
    decreases a.len(),
{
    if a.len() > 0 {
        lemma_lex_irreflexive(a.skip(1));
    }
}

/// Of two different positions exactly one comes before the other.
pub proof fn law_order_is_total(keys: Seq<Key>, descending: bool, i: int, j: int)
    requires
        i != j,
    ensures
        comes_before(keys, descending, i, j) != comes_before(keys, descending, j, i),
{
    let a = keys[i];
    let b = keys[j];
    if a.major != b.major {
        lemma_lex_total(a.major, b.major);
    }
    if a.minor != b.minor {
        lemma_lex_total(a.minor, b.minor);
    }
    if a.path != b.path {
        lemma_lex_total(a.path, b.path);
    }
}

/// The order of positions is transitive.
pub proof fn law_order_is_transitive(keys: Seq<Key>, descending: bool, i: int, j: int, k: int)
    requires
        comes_before(keys, descending, i, j),
        comes_before(keys, descending, j, k),
    ensures
        comes_before(keys, descending, i, k),
{
    let a = keys[i];
    let b = keys[j];
    let c = keys[k];
    if a.directory == b.directory && b.directory == c.directory {
        if a.major != b.major || b.major != c.major {
            lemma_three(a.major, b.major, c.major, descending);
        } else if a.minor != b.minor || b.minor != c.minor {
            lemma_three(a.minor, b.minor, c.minor, descending);
        } else if a.path != b.path || b.path != c.path {
            lemma_three(a.path, b.path, c.path, false);
        }
    }
}

proof fn lemma_three(a: Seq<int>, b: Seq<int>, c: Seq<int>, descending: bool)
    requires
        a != b ==> lex_less(a, b) != descending,
        b != c ==> lex_less(b, c) != descending,
        a != b || b != c,
    ensures
        a != c,
        lex_less(a, c) != descending,
{
    if a != b {
        lemma_lex_total(a, b);
    }
    if b != c {
        lemma_lex_total(b, c);
    }
    if a != b && b != c {
        if descending {
            lemma_lex_transitive(c, b, a);
        } else {
            lemma_lex_transitive(a, b, c);
        }
        lemma_lex_irreflexive(a);
        if a == c {
            assert(false);
        }
        lemma_lex_total(a, c);
    }
}

proof fn lemma_placed(keys: Seq<Key>, descending: bool, list: Seq<int>, x: int)
    requires
        in_order(keys, descending, list),
        !list.contains(x),
    ensures
        placed(keys, descending, list, x).len() == list.len() + 1,
        placed(keys, descending, list, x).to_multiset() == list.to_multiset().insert(x),
        in_order(keys, descending, placed(keys, descending, list, x)),
    decreases list.len(),
{
    broadcast use vstd::seq_lib::group_to_multiset_ensures;

    let out = placed(keys, descending, list, x);
    if list.len() == 0 || comes_before(keys, descending, list.last(), x) {
        assert forall|i: int, j: int| 0 <= i < j < out.len() implies comes_before(
            keys,
            descending,
            #[trigger] out[i],
            #[trigger] out[j],
        ) by {
            if j == list.len() && i < list.len() - 1 {
                assert(comes_before(keys, descending, list[i], list[list.len() - 1]));
                law_order_is_transitive(keys, descending, list[i], list.last(), x);
            }
        }
    } else {
        let rest = list.drop_last();
        assert(in_order(keys, descending, rest)) by {
            assert forall|i: int, j: int| 0 <= i < j < rest.len() implies comes_before(
                keys,
                descending,
                #[trigger] rest[i],
                #[trigger] rest[j],
            ) by {
                assert(rest[i] == list[i] && rest[j] == list[j]);
            }
        }
        assert(!rest.contains(x)) by {
            if rest.contains(x) {
                let k = choose|k: int| 0 <= k < rest.len() && rest[k] == x;
                assert(list[k] == x);
            }
        }
        lemma_placed(keys, descending, rest, x);
        let inner = placed(keys, descending, rest, x);
        assert(list.contains(list.last()));
        law_order_is_total(keys, descending, x, list.last());
        assert(rest.push(list.last()) == list);
        assert(out.to_multiset() == inner.to_multiset().insert(list.last()));
        assert(list.to_multiset() == rest.to_multiset().insert(list.last()));
        assert(rest.to_multiset().insert(x).insert(list.last()) == rest.to_multiset().insert(
            list.last(),
        ).insert(x));
        assert forall|i: int, j: int| 0 <= i < j < out.len() implies comes_before(
            keys,
            descending,
            #[trigger] out[i],
            #[trigger] out[j],
        ) by {
            if j == inner.len() {
                assert(inner[i] == out[i]);
                assert(inner.contains(inner[i]));
                assert(inner.to_multiset().count(inner[i]) > 0);
                if inner[i] != x {
                    assert(rest.to_multiset().count(inner[i]) > 0);
                    assert(rest.contains(inner[i]));
                    let m = choose|m: int| 0 <= m < rest.len() && rest[m] == inner[i];
                    assert(comes_before(keys, descending, list[m], list[list.len() - 1]));
                }
            } else {
                assert(inner[i] == out[i] && inner[j] == out[j]);
            }
        }
    }
}

/// Arranging keeps the same positions, each once, and puts them in order.
pub proof fn law_arranged_is_ordered_rearrangement(keys: Seq<Key>, descending: bool, list: Seq<int>)
    requires
        list.no_duplicates(),
    ensures
        arranged(keys, descending, list).len() == list.len(),
        arranged(keys, descending, list).to_multiset() == list.to_multiset(),
        in_order(keys, descending, arranged(keys, descending, list)),
    decreases list.len(),
{
    broadcast use vstd::seq_lib::group_to_multiset_ensures;

    if list.len() > 0 {
        let rest = list.drop_last();
        law_arranged_is_ordered_rearrangement(keys, descending, rest);
        let sorted = arranged(keys, descending, rest);
        assert(!sorted.contains(list.last())) by {
            if sorted.contains(list.last()) {
                assert(sorted.to_multiset().count(list.last()) > 0);
                assert(rest.contains(list.last()));
                let k = choose|k: int| 0 <= k < rest.len() && rest[k] == list.last();
                assert(list[k] == list[list.len() - 1]);
            }
        }
        lemma_placed(keys, descending, sorted, list.last());
        assert(rest.push(list.last()) == list);
    }
}

/// The key of an item, held by the code.
pub struct ItemKey {
    pub directory: bool,
    pub major: Vec<i128>,
    pub minor: Vec<i128>,
    pub path: Vec<i128>,
}

/// A list of machine numbers as integers.
pub open spec fn ints(v: Seq<i128>) -> Seq<int> {
    Seq::new(v.len(), |i: int| v[i] as int)
}

/// A list of positions as integers.
pub open spec fn positions(v: Seq<usize>) -> Seq<int> {
    Seq::new(v.len(), |i: int| v[i] as int)
}

impl View for ItemKey {
    type V = Key;

    open spec fn view(&self) -> Key {
        Key {
            directory: self.directory,
            major: ints(self.major@),
            minor: ints(self.minor@),
            path: ints(self.path@),
        }
    }
}

/// The keys, item by item.
pub open spec fn key_views(keys: Seq<ItemKey>) -> Seq<Key> {
    Seq::new(keys.len(), |i: int| keys[i]@)
}

/// Which of two lists comes first.
#[derive(Debug, Clone, Copy, PartialEq, Eq, Structural)]
pub enum Rank {
    Less,
    Equal,
    Greater,
}

/// How two lists stand in lexicographic order.
pub open spec fn lex_rank(a: Seq<int>, b: Seq<int>) -> Rank {
    if a == b {
        Rank::Equal
    } else if lex_less(a, b) {
        Rank::Less
    } else {
        Rank::Greater
    }
}

fn rank_lists(a: &Vec<i128>, b: &Vec<i128>) -> (r: Rank)
    ensures
        r == lex_rank(ints(a@), ints(b@)),
{
    let ghost x = ints(a@);
    let ghost y = ints(b@);
    let mut i: usize = 0;
    assert(x.skip(0) == x);
    assert(y.skip(0) == y);
    while i < a.len() && i < b.len()
        invariant
            i <= a@.len(),
            i <= b@.len(),
            x == ints(a@),
            y == ints(b@),
            x.take(i as int) == y.take(i as int),
            lex_less(x, y) == lex_less(x.skip(i as int), y.skip(i as int)),
        decreases a@.len() - i,
    {
        assert(x.skip(i as int)[0] == a@[i as int]);
        assert(y.skip(i as int)[0] == b@[i as int]);
        if a[i] != b[i] {
            assert(x[i as int] != y[i as int]);
            return if a[i] < b[i] {
                Rank::Less
            } else {
                Rank::Greater
            };
        }
        assert(x.skip(i as int).skip(1) == x.skip(i + 1));
        assert(y.skip(i as int).skip(1) == y.skip(i + 1));
        assert(x.take(i + 1) == x.take(i as int).push(x[i as int]));
        assert(y.take(i + 1) == y.take(i as int).push(y[i as int]));
        i += 1;
    }
    if a.len() == b.len() {
        assert(x.take(i as int) == x);
        assert(y.take(i as int) == y);
        Rank::Equal
    } else {
        assert(x.len() != y.len());
        if a.len() < b.len() {
            Rank::Less
        } else {
            Rank::Greater
        }
    }
}

/// Whether the item at `i` comes before the item at `j`.
pub fn item_before(keys: &Vec<ItemKey>, descending: bool, i: usize, j: usize) -> (r: bool)
    requires
        i < keys@.len(),
        j < keys@.len(),
    ensures
        r == comes_before(key_views(keys@), descending, i as int, j as int),
{
    let a = &keys[i];
    let b = &keys[j];
    if a.directory != b.directory {
        return a.directory;
    }
    let major = rank_lists(&a.major, &b.major);
    if major != Rank::Equal {
        return (major == Rank::Less) != descending;
    }
    let minor = rank_lists(&a.minor, &b.minor);
    if minor != Rank::Equal {
        return (minor == Rank::Less) != descending;
    }
    let path = rank_lists(&a.path, &b.path);
    if path != Rank::Equal {
        return path == Rank::Less;
    }
    i < j
}

proof fn lemma_placed_at(keys: Seq<Key>, descending: bool, list: Seq<int>, x: int, at: int)
    requires
        0 <= at <= list.len(),
        forall|k: int| 0 <= k < at ==> comes_before(keys, descending, #[trigger] list[k], x),
        forall|k: int| at <= k < list.len() ==> !comes_before(keys, descending, #[trigger] list[k], x),
    ensures
        placed(keys, descending, list, x) == list.insert(at, x),
    decreases list.len(),
{
    if at == list.len() {
        if list.len() > 0 {
            assert(comes_before(keys, descending, list[list.len() - 1], x));
        }
        assert(list.insert(at, x) == list.push(x));
    } else {
        assert(!comes_before(keys, descending, list[list.len() - 1], x));
        let rest = list.drop_last();
        assert forall|k: int| 0 <= k < at implies comes_before(keys, descending, #[trigger] rest[k], x) by {
            assert(rest[k] == list[k]);
        }
        assert forall|k: int| at <= k < rest.len() implies !comes_before(
            keys,
            descending,
            #[trigger] rest[k],
            x,
        ) by {
            assert(rest[k] == list[k]);
        }
        lemma_placed_at(keys, descending, rest, x, at);
        assert(rest.insert(at, x).push(list.last()) == list.insert(at, x));
    }
}

/// Where `x` goes in an ordered list.
fn place_of(keys: &Vec<ItemKey>, descending: bool, list: &Vec<usize>, x: usize) -> (at: usize)
    requires
        x < keys@.len(),
        forall|k: int| 0 <= k < list@.len() ==> #[trigger] list@[k] < keys@.len(),
        in_order(key_views(keys@), descending, positions(list@)),
        !positions(list@).contains(x as int),
    ensures
        at <= list@.len(),
        placed(key_views(keys@), descending, positions(list@), x as int) == positions(list@).insert(
            at as int,
            x as int,
        ),
{
    let ghost kv = key_views(keys@);
    let ghost ps = positions(list@);
    let mut low: usize = 0;
    let mut high: usize = list.len();
    while low < high
        invariant
            low <= high <= list@.len(),
            kv == key_views(keys@),
            ps == positions(list@),
            x < keys@.len(),
            forall|k: int| 0 <= k < list@.len() ==> #[trigger] list@[k] < keys@.len(),
            in_order(kv, descending, ps),
            !ps.contains(x as int),
            forall|k: int| 0 <= k < low ==> comes_before(kv, descending, #[trigger] ps[k], x as int),
            forall|k: int| high <= k < ps.len() ==> !comes_before(kv, descending, #[trigger] ps[k], x as int),
        decreases high - low,
    {
        let mid: usize = low + (high - low) / 2;
        assert(list@[mid as int] < keys@.len());
        if item_before(keys, descending, list[mid], x) {
            proof {
                assert forall|k: int| 0 <= k < mid + 1 implies comes_before(
                    kv,
                    descending,
                    #[trigger] ps[k],
                    x as int,
                ) by {
                    if k < mid {
                        assert(comes_before(kv, descending, ps[k], ps[mid as int]));
                        law_order_is_transitive(kv, descending, ps[k], ps[mid as int], x as int);
                    }
                }
            }
            low = mid + 1;
        } else {
            proof {
                assert forall|k: int| mid <= k < ps.len() implies !comes_before(
                    kv,
                    descending,
                    #[trigger] ps[k],
                    x as int,
                ) by {
                    if k > mid && comes_before(kv, descending, ps[k], x as int) {
                        assert(comes_before(kv, descending, ps[mid as int], ps[k]));
                        law_order_is_transitive(kv, descending, ps[mid as int], ps[k], x as int);
                    }
                }
            }
            high = mid;
        }
    }
    proof {
        lemma_placed_at(kv, descending, ps, x as int, low as int);
    }
    low
}

/// The positions of `list`, arranged.
pub fn arrange(keys: &Vec<ItemKey>, descending: bool, list: &Vec<usize>) -> (r: Vec<usize>)
    requires
        forall|k: int| 0 <= k < list@.len() ==> #[trigger] list@[k] < keys@.len(),
        positions(list@).no_duplicates(),
    ensures
        positions(r@) == arranged(key_views(keys@), descending, positions(list@)),
        forall|k: int| 0 <= k < r@.len() ==> #[trigger] r@[k] < keys@.len(),
{
    let ghost kv = key_views(keys@);
    let ghost ps = positions(list@);
    let mut out: Vec<usize> = Vec::new();
    let mut i: usize = 0;
    assert(ps.take(0) == Seq::<int>::empty());
    assert(positions(out@) == Seq::<int>::empty());
    while i < list.len()
        invariant
            i <= list@.len(),
            kv == key_views(keys@),
            ps == positions(list@),
            ps.no_duplicates(),
            forall|k: int| 0 <= k < list@.len() ==> #[trigger] list@[k] < keys@.len(),
            positions(out@) == arranged(kv, descending, ps.take(i as int)),
            forall|k: int| 0 <= k < out@.len() ==> #[trigger] out@[k] < keys@.len(),
        decreases list@.len() - i,
    {
        let x = list[i];
        assert(list@[i as int] < keys@.len());
        let ghost head = ps.take(i as int);
        proof {
            broadcast use vstd::seq_lib::group_to_multiset_ensures;

            law_arranged_is_ordered_rearrangement(kv, descending, head);
            if positions(out@).contains(x as int) {
                assert(positions(out@).to_multiset().count(x as int) > 0);
                assert(head.contains(x as int));
                let k = choose|k: int| 0 <= k < head.len() && head[k] == x as int;
                assert(ps[k] == ps[i as int]);
            }
        }
        let at = place_of(keys, descending, &out, x);
        let ghost before = out@;
        out.insert(at, x);
        proof {
            assert(positions(out@) == positions(before).insert(at as int, x as int));
            assert(ps.take(i + 1).drop_last() == head);
            assert(ps.take(i + 1).last() == x as int);
            assert forall|k: int| 0 <= k < out@.len() implies #[trigger] out@[k] < keys@.len() by {
                if k < at {
                    assert(out@[k] == before[k]);
                } else if k > at {
                    assert(out@[k] == before[k - 1]);
                }
            }
        }
        i += 1;
    }
    assert(ps.take(i as int) == ps);
    out
}

} // verus!
