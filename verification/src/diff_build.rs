//! The comparison of two directory trees, one name at a time. The run keeps a
//! frame for every directory that is open on both sides; whoever drives it
//! reads directories and looks at files, and tells the run what was found.

use crate::diff_types::{codes, codes_of, get_extension, lower_extension, FileTime};
use crate::ranking::{
    arrange, arranged, key_views, law_arranged_is_ordered_rearrangement, positions, ItemKey, Key,
};
use crate::sorting::{lowercase_text, SortBy, SortOrder};
use crate::text::views;
use vstd::prelude::*;

verus! {

/// A name in one of the two directories, with what the sort needs of it.
#[derive(Debug)]
pub struct SideName {
    pub name: String,
    /// Whether the name leads to a directory, links followed.
    pub leads_to_directory: bool,
    pub size: Option<u64>,
    pub modified: Option<FileTime>,
}

/// A name of the merged listing.
#[derive(Debug)]
pub struct BuildName {
    pub name: String,
    pub on_left: bool,
    pub on_right: bool,
}

/// A directory that is open on both sides.
#[derive(Debug)]
pub struct BuildFrame {
    pub relative_path: String,
    pub names: Vec<BuildName>,
    pub next_name: usize,
    pub depth: usize,
    /// The row of the directory; the top of the comparison has none.
    pub owner_index: Option<usize>,
    pub has_difference: bool,
}

/// The position of the name in the listing, or -1.
pub open spec fn find_name(list: Seq<SideName>, name: Seq<char>) -> int
    decreases list.len(),
{
    if list.len() == 0 {
        -1
    } else {
        let before = find_name(list.drop_last(), name);
        if before >= 0 {
            before
        } else if list.last().name@ == name {
            list.len() - 1
        } else {
            -1
        }
    }
}

/// Whether the listing holds the name.
pub open spec fn lists(list: Seq<SideName>, name: Seq<char>) -> bool {
    find_name(list, name) >= 0
}

/// The names of both listings, each once: those of the left one, then those
/// that the right one adds.
pub open spec fn merged_names(left: Seq<SideName>, right: Seq<SideName>) -> Seq<Seq<char>>
    decreases left.len() + right.len(),
{
    if right.len() > 0 {
        let before = merged_names(left, right.drop_last());
        let name = right.last().name@;
        if before.contains(name) {
            before
        } else {
            before.push(name)
        }
    } else if left.len() > 0 {
        let before = merged_names(left.drop_last(), right);
        let name = left.last().name@;
        if before.contains(name) {
            before
        } else {
            before.push(name)
        }
    } else {
        Seq::empty()
    }
}

/// Whether the name leads to a directory on either side.
pub open spec fn leads_to_directory(left: Seq<SideName>, right: Seq<SideName>, name: Seq<char>) -> bool {
    (lists(left, name) && left[find_name(left, name)].leads_to_directory) || (lists(right, name)
        && right[find_name(right, name)].leads_to_directory)
}

/// The size by which the name is sorted: the left one where it is known.
pub open spec fn sorting_size(left: Seq<SideName>, right: Seq<SideName>, name: Seq<char>) -> u64 {
    if lists(left, name) && left[find_name(left, name)].size is Some {
        left[find_name(left, name)].size->0
    } else if lists(right, name) && right[find_name(right, name)].size is Some {
        right[find_name(right, name)].size->0
    } else {
        0
    }
}

/// The time by which the name is sorted: the left one where it is known.
pub open spec fn sorting_time(left: Seq<SideName>, right: Seq<SideName>, name: Seq<char>) -> FileTime {
    if lists(left, name) && left[find_name(left, name)].modified is Some {
        left[find_name(left, name)].modified->0
    } else if lists(right, name) && right[find_name(right, name)].modified is Some {
        right[find_name(right, name)].modified->0
    } else {
        FileTime { secs: 0, nanos: 0 }
    }
}

/// What a name of the merged listing is arranged by.
pub open spec fn name_key(
    left: Seq<SideName>,
    right: Seq<SideName>,
    name: Seq<char>,
    sort_by: SortBy,
) -> Key {
    let time = sorting_time(left, right, name);
    Key {
        directory: leads_to_directory(left, right, name),
        major: match sort_by {
            SortBy::Name => codes(lowercase_text(name)),
            SortBy::Size => seq![sorting_size(left, right, name) as int],
            SortBy::Modified => seq![time.secs as int, time.nanos as int],
            SortBy::Type => codes(lower_extension(name)),
        },
        minor: if sort_by == SortBy::Type {
            codes(lowercase_text(name))
        } else {
            Seq::empty()
        },
        path: Seq::empty(),
    }
}

pub open spec fn name_keys(
    left: Seq<SideName>,
    right: Seq<SideName>,
    sort_by: SortBy,
) -> Seq<Key> {
    let names = merged_names(left, right);
    Seq::new(names.len(), |i: int| name_key(left, right, names[i], sort_by))
}

pub open spec fn all_positions(n: nat) -> Seq<int> {
    Seq::new(n, |i: int| i)
}

/// The names of both listings in the order in which they are compared.
pub open spec fn sorted_names(
    left: Seq<SideName>,
    right: Seq<SideName>,
    sort_by: SortBy,
    sort_order: SortOrder,
) -> Seq<Seq<char>> {
    let names = merged_names(left, right);
    let order = arranged(
        name_keys(left, right, sort_by),
        sort_order == SortOrder::Desc,
        all_positions(names.len()),
    );
    Seq::new(order.len(), |k: int| names[order[k]])
}

/// Whether the frame is a fresh one for the directory.
pub open spec fn is_fresh_frame(
    frame: BuildFrame,
    relative_path: Seq<char>,
    depth: int,
    owner: Option<usize>,
    left: Seq<SideName>,
    right: Seq<SideName>,
    sort_by: SortBy,
    sort_order: SortOrder,
) -> bool {
    let names = sorted_names(left, right, sort_by, sort_order);
    &&& frame.relative_path@ == relative_path
    &&& frame.depth == depth
    &&& frame.owner_index == owner
    &&& frame.next_name == 0
    &&& !frame.has_difference
    &&& frame.names@.len() == names.len()
    &&& forall|k: int|
        0 <= k < names.len() ==> {
            let n = #[trigger] frame.names@[k];
            &&& n.name@ == names[k]
            &&& n.on_left == lists(left, names[k])
            &&& n.on_right == lists(right, names[k])
        }
}

pub proof fn lemma_find_name(list: Seq<SideName>, name: Seq<char>)
    ensures
        -1 <= find_name(list, name) < list.len(),
        find_name(list, name) >= 0 ==> list[find_name(list, name)].name@ == name,
        find_name(list, name) < 0 ==> forall|k: int|
            0 <= k < list.len() ==> (#[trigger] list[k]).name@ != name,
    decreases list.len(),
{
    if list.len() > 0 {
        lemma_find_name(list.drop_last(), name);
        if find_name(list, name) < 0 {
            assert forall|k: int| 0 <= k < list.len() implies (#[trigger] list[k]).name@ != name by {
                if k < list.len() - 1 {
                    assert(list.drop_last()[k] == list[k]);
                }
            }
        }
    }
}

fn find_in(list: &Vec<SideName>, name: &String) -> (r: Option<usize>)
    ensures
        match r {
            Some(i) => i == find_name(list@, name@) && i < list@.len(),
            None => find_name(list@, name@) < 0,
        },
{
    let mut i: usize = 0;
    assert(list@.take(0) == Seq::<SideName>::empty());
    while i < list.len()
        invariant
            i <= list@.len(),
            find_name(list@.take(i as int), name@) < 0,
        decreases list@.len() - i,
    {
        assert(list@.take(i + 1).drop_last() == list@.take(i as int));
        if list[i].name == *name {
            proof {
                assert(find_name(list@.take(i + 1), name@) == i);
                lemma_find_stays(list@, name@, i + 1);
            }
            return Some(i);
        }
        i += 1;
    }
    assert(list@.take(i as int) == list@);
    None
}

proof fn lemma_find_stays(list: Seq<SideName>, name: Seq<char>, n: int)
    requires
        0 <= n <= list.len(),
        find_name(list.take(n), name) >= 0,
    ensures
        find_name(list, name) == find_name(list.take(n), name),
    decreases list.len() - n,
{
    if n < list.len() {
        assert(list.take(n + 1).drop_last() == list.take(n));
        lemma_find_stays(list, name, n + 1);
    } else {
        assert(list.take(n) == list);
    }
}

fn has_text(list: &Vec<String>, name: &String) -> (r: bool)
    ensures
        r == views(list@).contains(name@),
{
    let mut i: usize = 0;
    while i < list.len()
        invariant
            i <= list@.len(),
            forall|k: int| 0 <= k < i ==> #[trigger] views(list@)[k] != name@,
        decreases list@.len() - i,
    {
        if list[i] == *name {
            assert(views(list@)[i as int] == name@);
            return true;
        }
        i += 1;
    }
    false
}

/// The names of both listings, each once.
fn merge_names(left: &Vec<SideName>, right: &Vec<SideName>) -> (r: Vec<String>)
    ensures
        views(r@) == merged_names(left@, right@),
{
    let ghost none = Seq::<SideName>::empty();
    let mut r: Vec<String> = Vec::new();
    let mut i: usize = 0;
    assert(left@.take(0) == none);
    assert(views(r@) == Seq::<Seq<char>>::empty());
    while i < left.len()
        invariant
            i <= left@.len(),
            none.len() == 0,
            views(r@) == merged_names(left@.take(i as int), none),
        decreases left@.len() - i,
    {
        assert(left@.take(i + 1).drop_last() == left@.take(i as int));
        if !has_text(&r, &left[i].name) {
            let ghost before = r@;
            r.push(left[i].name.clone());
            assert(views(r@) == views(before).push(left@[i as int].name@));
        }
        i += 1;
    }
    assert(left@.take(i as int) == left@);
    i = 0;
    assert(right@.take(0) == none);
    while i < right.len()
        invariant
            i <= right@.len(),
            views(r@) == merged_names(left@, right@.take(i as int)),
        decreases right@.len() - i,
    {
        assert(right@.take(i + 1).drop_last() == right@.take(i as int));
        if !has_text(&r, &right[i].name) {
            let ghost before = r@;
            r.push(right[i].name.clone());
            assert(views(r@) == views(before).push(right@[i as int].name@));
        }
        i += 1;
    }
    assert(right@.take(i as int) == right@);
    r
}

/// Whether the name leads to a directory on either side.
pub fn is_name_dir(name: &String, left: &Vec<SideName>, right: &Vec<SideName>) -> (r: bool)
    ensures
        r == leads_to_directory(left@, right@, name@),
{
    if let Some(i) = find_in(left, name) {
        if left[i].leads_to_directory {
            return true;
        }
    }
    if let Some(i) = find_in(right, name) {
        if right[i].leads_to_directory {
            return true;
        }
    }
    false
}

/// The size by which the name is sorted.
pub fn get_name_size(name: &String, left: &Vec<SideName>, right: &Vec<SideName>) -> (r: u64)
    ensures
        r == sorting_size(left@, right@, name@),
{
    if let Some(i) = find_in(left, name) {
        if let Some(size) = left[i].size {
            return size;
        }
    }
    if let Some(i) = find_in(right, name) {
        if let Some(size) = right[i].size {
            return size;
        }
    }
    0
}

/// The time by which the name is sorted.
pub fn get_name_modified(name: &String, left: &Vec<SideName>, right: &Vec<SideName>) -> (r: FileTime)
    ensures
        r == sorting_time(left@, right@, name@),
{
    if let Some(i) = find_in(left, name) {
        if let Some(time) = left[i].modified {
            return time;
        }
    }
    if let Some(i) = find_in(right, name) {
        if let Some(time) = right[i].modified {
            return time;
        }
    }
    FileTime { secs: 0, nanos: 0 }
}

fn key_of_name(name: &String, left: &Vec<SideName>, right: &Vec<SideName>, sort_by: SortBy) -> (r:
    ItemKey)
    ensures
        r@ == name_key(left@, right@, name@, sort_by),
{
    let mut major: Vec<i128> = Vec::new();
    let mut minor: Vec<i128> = Vec::new();
    match sort_by {
        SortBy::Name => {
            let lower = name.as_str().to_lowercase();
            major = codes_of(lower.as_str());
        },
        SortBy::Size => {
            major.push(get_name_size(name, left, right) as i128);
        },
        SortBy::Modified => {
            let time = get_name_modified(name, left, right);
            major.push(time.secs as i128);
            major.push(time.nanos as i128);
        },
        SortBy::Type => {
            let ext = get_extension(name.as_str());
            major = codes_of(ext.as_str());
            let lower = name.as_str().to_lowercase();
            minor = codes_of(lower.as_str());
        },
    }
    let path: Vec<i128> = Vec::new();
    let r = ItemKey { directory: is_name_dir(name, left, right), major, minor, path };
    assert(r@.major == name_key(left@, right@, name@, sort_by).major);
    assert(r@.minor == name_key(left@, right@, name@, sort_by).minor);
    assert(r@.path == Seq::<int>::empty());
    r
}

/// The positions of the merged names in the order in which they are compared:
/// directories first, then by the chosen sort.
pub fn sort_names(
    names: &Vec<String>,
    left: &Vec<SideName>,
    right: &Vec<SideName>,
    sort_by: SortBy,
    sort_order: SortOrder,
) -> (r: Vec<usize>)
    requires
        views(names@) == merged_names(left@, right@),
    ensures
        positions(r@) == arranged(
            name_keys(left@, right@, sort_by),
            sort_order == SortOrder::Desc,
            all_positions(names@.len()),
        ),
        forall|k: int| 0 <= k < r@.len() ==> #[trigger] r@[k] < names@.len(),
{
    let mut keys: Vec<ItemKey> = Vec::new();
    let mut all: Vec<usize> = Vec::new();
    let mut i: usize = 0;
    while i < names.len()
        invariant
            i <= names@.len(),
            views(names@) == merged_names(left@, right@),
            keys@.len() == i,
            all@.len() == i,
            forall|k: int|
                0 <= k < i ==> (#[trigger] keys@[k])@ == name_key(
                    left@,
                    right@,
                    views(names@)[k],
                    sort_by,
                ),
            forall|k: int| 0 <= k < i ==> #[trigger] all@[k] == k,
        decreases names@.len() - i,
    {
        keys.push(key_of_name(&names[i], left, right, sort_by));
        all.push(i);
        i += 1;
    }
    assert(key_views(keys@) == name_keys(left@, right@, sort_by));
    assert(positions(all@) == all_positions(names@.len()));
    arrange(&keys, sort_order == SortOrder::Desc, &all)
}

/// A frame for a directory that is open on both sides, with its merged names.
pub fn make_build_frame(
    relative_path: String,
    depth: usize,
    owner_index: Option<usize>,
    left: &Vec<SideName>,
    right: &Vec<SideName>,
    sort_by: SortBy,
    sort_order: SortOrder,
) -> (r: BuildFrame)
    ensures
        is_fresh_frame(
            r,
            relative_path@,
            depth as int,
            owner_index,
            left@,
            right@,
            sort_by,
            sort_order,
        ),
{
    let merged = merge_names(left, right);
    let order = sort_names(&merged, left, right, sort_by, sort_order);
    let ghost wanted = sorted_names(left@, right@, sort_by, sort_order);
    let mut names: Vec<BuildName> = Vec::new();
    let mut i: usize = 0;
    while i < order.len()
        invariant
            i <= order@.len(),
            views(merged@) == merged_names(left@, right@),
            wanted.len() == order@.len(),
            forall|k: int| 0 <= k < order@.len() ==> #[trigger] order@[k] < merged@.len(),
            forall|k: int|
                0 <= k < order@.len() ==> wanted[k] == views(merged@)[#[trigger] order@[k] as int],
            names@.len() == i,
            forall|k: int|
                0 <= k < i ==> {
                    let n = #[trigger] names@[k];
                    &&& n.name@ == wanted[k]
                    &&& n.on_left == lists(left@, wanted[k])
                    &&& n.on_right == lists(right@, wanted[k])
                },
        decreases order@.len() - i,
    {
        assert(order@[i as int] < merged@.len());
        let name = merged[order[i]].clone();
        let on_left = find_in(left, &name).is_some();
        let on_right = find_in(right, &name).is_some();
        names.push(BuildName { name, on_left, on_right });
        i += 1;
    }
    BuildFrame { relative_path, names, next_name: 0, depth, owner_index, has_difference: false }
}

proof fn lemma_merged_names(left: Seq<SideName>, right: Seq<SideName>, name: Seq<char>)
    ensures
        merged_names(left, right).no_duplicates(),
        merged_names(left, right).contains(name) <==> lists(left, name) || lists(right, name),
    decreases left.len() + right.len(),
{
    let all = merged_names(left, right);
    if right.len() + left.len() > 0 {
        let (l, r) = if right.len() > 0 {
            (left, right.drop_last())
        } else {
            (left.drop_last(), right)
        };
        let before = merged_names(l, r);
        let last = if right.len() > 0 {
            right.last().name@
        } else {
            left.last().name@
        };
        lemma_merged_names(l, r, name);
        lemma_merged_names(l, r, last);
        if !before.contains(last) {
            assert(all == before.push(last));
            if all.contains(name) && name != last {
                let k = choose|k: int| 0 <= k < all.len() && all[k] == name;
                assert(before[k] == name);
            }
            if before.contains(name) {
                let k = choose|k: int| 0 <= k < before.len() && before[k] == name;
                assert(all[k] == name);
            }
            assert(all[before.len() as int] == last);
        }
    }
}

/// The names that are compared are those that either side lists, each once.
pub proof fn law_each_name_of_either_side_is_compared_once(
    left: Seq<SideName>,
    right: Seq<SideName>,
    sort_by: SortBy,
    sort_order: SortOrder,
    name: Seq<char>,
)
    ensures
        sorted_names(left, right, sort_by, sort_order).no_duplicates(),
        sorted_names(left, right, sort_by, sort_order).contains(name) <==> lists(left, name)
            || lists(right, name),
{
    broadcast use vstd::seq_lib::group_to_multiset_ensures;

    let names = merged_names(left, right);
    let places = all_positions(names.len());
    let order = arranged(
        name_keys(left, right, sort_by),
        sort_order == SortOrder::Desc,
        places,
    );
    let sorted = sorted_names(left, right, sort_by, sort_order);
    lemma_merged_names(left, right, name);
    law_arranged_is_ordered_rearrangement(
        name_keys(left, right, sort_by),
        sort_order == SortOrder::Desc,
        places,
    );
    places.lemma_multiset_has_no_duplicates();
    order.lemma_multiset_has_no_duplicates_conv();
    assert forall|k: int| 0 <= k < order.len() implies 0 <= #[trigger] order[k] < names.len() by {
        assert(order.contains(order[k]));
        assert(places.to_multiset().count(order[k]) > 0);
        assert(places.contains(order[k]));
    }
    if sorted.contains(name) {
        let k = choose|k: int| 0 <= k < sorted.len() && sorted[k] == name;
        assert(names[order[k]] == name);
    }
    if names.contains(name) {
        let i = choose|i: int| 0 <= i < names.len() && names[i] == name;
        assert(places[i] == i);
        assert(places.contains(i));
        assert(order.to_multiset().count(i) > 0);
        assert(order.contains(i));
        let k = choose|k: int| 0 <= k < order.len() && order[k] == i;
        assert(sorted[k] == name);
    }
}

/// A name is found at its first place in a list, and nowhere exactly where it is not in it.
pub proof fn law_name_is_found_at_its_first_place(list: Seq<SideName>, name: Seq<char>)
    ensures
        lists(list, name) <==> exists|i: int|
            0 <= i < list.len() && (#[trigger] list[i]).name@ == name,
        lists(list, name) ==> {
            let at = find_name(list, name);
            &&& 0 <= at < list.len()
            &&& list[at].name@ == name
            &&& forall|i: int| 0 <= i < at ==> (#[trigger] list[i]).name@ != name
        },
    decreases list.len(),
{
    if list.len() > 0 {
        let rest = list.drop_last();
        law_name_is_found_at_its_first_place(rest, name);
        let at = find_name(list, name);
        if lists(rest, name) {
            assert(list[at] == rest[at]);
            assert forall|i: int| 0 <= i < at implies (#[trigger] list[i]).name@ != name by {
                assert(list[i] == rest[i]);
            }
        } else {
            assert forall|i: int| 0 <= i < rest.len() implies (#[trigger] list[i]).name@
                != name by {
                assert(list[i] == rest[i]);
            }
            if list.last().name@ == name {
                assert(list[list.len() - 1].name@ == name);
            }
        }
    }
}

/// A name is sorted by what the left side tells of it, and by what the right side tells only
/// where the left one tells nothing; it counts as a directory where either side says so.
pub proof fn law_name_is_sorted_by_one_side(
    left: Seq<SideName>,
    right: Seq<SideName>,
    i: int,
    j: int,
    name: Seq<char>,
)
    ensures
        find_name(left, name) == i && 0 <= i ==> {
            &&& left[i].size matches Some(size) ==> sorting_size(left, right, name) == size
            &&& left[i].modified matches Some(time) ==> sorting_time(left, right, name) == time
            &&& left[i].leads_to_directory ==> leads_to_directory(left, right, name)
        },
        find_name(right, name) == j && 0 <= j ==> {
            &&& right[j].leads_to_directory ==> leads_to_directory(left, right, name)
            &&& !lists(left, name) ==> {
                &&& right[j].size matches Some(size) ==> sorting_size(left, right, name) == size
                &&& right[j].modified matches Some(time) ==> sorting_time(left, right, name)
                    == time
                &&& leads_to_directory(left, right, name) == right[j].leads_to_directory
            }
        },
        !lists(left, name) && !lists(right, name) ==> sorting_size(left, right, name) == 0
            && sorting_time(left, right, name) == (FileTime { secs: 0, nanos: 0 })
            && !leads_to_directory(left, right, name),
{
}

/// What is begun in a directory asks for each name with the sides that list it, from the
/// first one on, with no difference found yet.
pub proof fn law_new_frame_knows_the_sides(
    frame: BuildFrame,
    relative_path: Seq<char>,
    depth: int,
    owner: Option<usize>,
    left: Seq<SideName>,
    right: Seq<SideName>,
    sort_by: SortBy,
    sort_order: SortOrder,
    k: int,
)
    requires
        is_fresh_frame(frame, relative_path, depth, owner, left, right, sort_by, sort_order),
        0 <= k < frame.names@.len(),
    ensures
        frame.next_name == 0,
        !frame.has_difference,
        frame.relative_path@ == relative_path,
        frame.depth == depth,
        frame.owner_index == owner,
        ({
            let n = frame.names@[k];
            &&& n.on_left <==> exists|i: int|
                0 <= i < left.len() && (#[trigger] left[i]).name@ == n.name@
            &&& n.on_right <==> exists|i: int|
                0 <= i < right.len() && (#[trigger] right[i]).name@ == n.name@
        }),
{
    let name = sorted_names(left, right, sort_by, sort_order)[k];
    law_name_is_found_at_its_first_place(left, name);
    law_name_is_found_at_its_first_place(right, name);
    assert(frame.names@[k].name@ == name);
}

} // verus!
