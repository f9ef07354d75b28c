//! What a comparison reads of the file system: single items, and how much there
//! is to compare.

use crate::authorization::PathAuthorization;
use crate::diff_state::DiffProgressMsg;
use crate::diff_types::{DiffEntry, DiffFileInfo, FileTime};
use crate::names::NameSet;
use crate::text::{concat3, lemma_push_to_set, views};
use vstd::prelude::*;

verus! {

/// What the file system says of a path.
#[derive(Debug)]
pub struct ItemFacts {
    pub is_symlink: bool,
    /// Whether the path is a directory, a link followed.
    pub leads_to_directory: bool,
    /// The length of the file, a link followed.
    pub length: u64,
    pub modified: FileTime,
    /// What was seen before and behind all else.
    pub first_seen: Option<PathAuthorization>,
    pub last_seen: Option<PathAuthorization>,
}

/// Whether the item is what the file system says: a link is no directory, so that
/// going down never runs in a circle, and an item that changed meanwhile may not
/// be changed.
pub open spec fn is_info_of(info: DiffFileInfo, name: Seq<char>, path: Seq<char>, facts: ItemFacts) -> bool {
    &&& info.name@ == name
    &&& info.full_path@ == path
    &&& info.is_symlink == facts.is_symlink
    &&& info.is_directory == (!facts.is_symlink && facts.leads_to_directory)
    &&& info.size == if info.is_directory {
        0
    } else {
        facts.length
    }
    &&& info.modified == facts.modified
    &&& info.authorization == if facts.first_seen == facts.last_seen {
        facts.first_seen
    } else {
        None
    }
}

fn same_sight(a: Option<PathAuthorization>, b: Option<PathAuthorization>) -> (r: bool)
    ensures
        r == (a == b),
{
    match (a, b) {
        (Some(a), Some(b)) => a == b,
        (None, None) => true,
        _ => false,
    }
}

/// The item at a path. None where nothing is there.
pub fn make_file_info(name: &str, path: &str, facts: Option<ItemFacts>) -> (r: Option<DiffFileInfo>)
    ensures
        match facts {
            None => r is None,
            Some(facts) => r matches Some(info) && is_info_of(info, name@, path@, facts),
        },
{
    match facts {
        None => None,
        Some(facts) => {
            let is_directory = !facts.is_symlink && facts.leads_to_directory;
            let steady = same_sight(facts.first_seen, facts.last_seen);
            Some(
                DiffFileInfo {
                    name: name.to_owned(),
                    size: if is_directory { 0 } else { facts.length },
                    modified: facts.modified,
                    is_directory,
                    is_symlink: facts.is_symlink,
                    full_path: path.to_owned(),
                    authorization: if steady { facts.first_seen } else { None },
                },
            )
        },
    }
}

/// A link is never gone into, whatever it leads to.
pub proof fn law_link_is_no_directory(info: DiffFileInfo, name: Seq<char>, path: Seq<char>, facts: ItemFacts)
    requires
        is_info_of(info, name, path, facts),
        facts.is_symlink,
    ensures
        !info.is_directory,
{
}

/// The counting of what there is to compare.
#[derive(Debug)]
pub struct CountRun {
    /// The directories that are still to be listed.
    pub pending: Vec<String>,
    pub count: usize,
}

/// The path of a name below a directory; the top has an empty path.
pub open spec fn path_below(relative: Seq<char>, name: Seq<char>) -> Seq<char> {
    if relative.len() == 0 {
        name
    } else {
        relative + "/"@ + name
    }
}

/// The directories below that are to be listed next: those on both sides.
pub open spec fn directories_below(
    relative: Seq<char>,
    left: Seq<Seq<char>>,
    right: Set<Seq<char>>,
    directories: Set<Seq<char>>,
) -> Seq<Seq<char>>
    decreases left.len(),
{
    if left.len() == 0 {
        Seq::empty()
    } else {
        let before = directories_below(relative, left.drop_last(), right, directories);
        if right.contains(left.last()) && directories.contains(left.last()) {
            before.push(path_below(relative, left.last()))
        } else {
            before
        }
    }
}

/// A sum that stays at the largest number.
pub open spec fn capped_sum(a: nat, b: nat) -> nat {
    if a + b > usize::MAX {
        usize::MAX as nat
    } else {
        a + b
    }
}

impl CountRun {
    /// The counting from the top.
    pub fn start() -> (r: CountRun)
        ensures
            views(r.pending@) == seq![Seq::<char>::empty()],
            r.count == 0,
    {
        let mut pending: Vec<String> = Vec::new();
        pending.push(String::new());
        assert(views(pending@) =~= seq![Seq::<char>::empty()]);
        CountRun { pending, count: 0 }
    }

    /// The directory that is listed next. None at the end, or once the counting was
    /// given up.
    pub fn next_directory(&mut self, cancelled: bool) -> (r: Option<String>)
        ensures
            if old(self).pending@.len() == 0 {
                r is None && *final(self) == *old(self)
            } else {
                &&& final(self).count == old(self).count
                &&& final(self).pending@ == old(self).pending@.drop_last()
                &&& r == if cancelled {
                    None
                } else {
                    Some(old(self).pending@.last())
                }
            },
    {
        if self.pending.len() == 0 {
            return None;
        }
        let next = self.pending.pop();
        if cancelled {
            return None;
        }
        next
    }

    /// Takes in the names of a directory on both sides. `directories` are the names
    /// that are directories on both sides.
    pub fn listed(
        &mut self,
        relative: &str,
        left: &Vec<String>,
        right: &Vec<String>,
        directories: &NameSet,
    ) -> (r: DiffProgressMsg)
        ensures
            final(self).count == capped_sum(
                old(self).count as nat,
                views(left@).to_set().union(views(right@).to_set()).len(),
            ),
            r == DiffProgressMsg::Counting(final(self).count),
            views(final(self).pending@) == views(old(self).pending@) + directories_below(
                relative@,
                views(left@),
                views(right@).to_set(),
                directories@,
            ),
    {
        let mut all = NameSet::new();
        insert_all(&mut all, left);
        insert_all(&mut all, right);
        let mut on_right = NameSet::new();
        insert_all(&mut on_right, right);
        assert(all@ =~= views(left@).to_set().union(views(right@).to_set()));
        assert(on_right@ =~= views(right@).to_set());
        let added: usize = all.len();
        self.count = if added > usize::MAX - self.count { usize::MAX } else { self.count + added };
        let ghost waiting = views(self.pending@);
        let ghost lefts = views(left@);
        let ghost rights = views(right@).to_set();
        assert(lefts.take(0) =~= Seq::empty());
        assert(waiting + directories_below(relative@, lefts.take(0), rights, directories@)
            =~= waiting);
        let mut i: usize = 0;
        while i < left.len()
            invariant
                i <= left@.len(),
                lefts == views(left@),
                on_right@ == rights,
                self.count == capped_sum(old(self).count as nat, all@.len()),
                views(self.pending@) == waiting + directories_below(
                    relative@,
                    lefts.take(i as int),
                    rights,
                    directories@,
                ),
            decreases left@.len() - i,
        {
            assert(lefts.take(i + 1).drop_last() =~= lefts.take(i as int));
            assert(lefts[i as int] == left@[i as int]@);
            if on_right.contains(left[i].as_str()) && directories.contains(left[i].as_str()) {
                let path = if relative.is_empty() {
                    left[i].clone()
                } else {
                    concat3(relative, "/", left[i].as_str())
                };
                let ghost held = self.pending@;
                self.pending.push(path);
                assert(views(self.pending@) =~= views(held).push(path@));
                assert(waiting + directories_below(
                    relative@,
                    lefts.take(i + 1),
                    rights,
                    directories@,
                ) =~= (waiting + directories_below(
                    relative@,
                    lefts.take(i as int),
                    rights,
                    directories@,
                )).push(path@));
            }
            i += 1;
        }
        assert(lefts.take(i as int) =~= lefts);
        DiffProgressMsg::Counting(self.count)
    }
}

fn insert_all(set: &mut NameSet, names: &Vec<String>)
    ensures
        final(set)@ == old(set)@.union(views(names@).to_set()),
{
    let ghost before = set@;
    let ghost all = views(names@);
    let mut i: usize = 0;
    assert(all.take(0) =~= Seq::empty());
    assert(before.union(all.take(0).to_set()) =~= before);
    while i < names.len()
        invariant
            i <= names@.len(),
            all == views(names@),
            set@ == before.union(all.take(i as int).to_set()),
        decreases names@.len() - i,
    {
        assert(all.take(i + 1) =~= all.take(i as int).push(all[i as int]));
        proof {
            lemma_push_to_set(all.take(i as int), all[i as int]);
        }
        set.insert(names[i].clone());
        assert(set@ =~= before.union(all.take(i + 1).to_set()));
        i += 1;
    }
    assert(all.take(i as int) =~= all);
}

/// Rows that stand deeper by `depth`, as far as depths go.
pub fn deepen_rows(entries: &mut Vec<DiffEntry>, depth: usize)
    ensures
        final(entries)@.len() == old(entries)@.len(),
        forall|i: int|
            0 <= i < old(entries)@.len() ==> (#[trigger] final(entries)@[i]) == (DiffEntry {
                depth: capped_sum(old(entries)@[i].depth as nat, depth as nat) as usize,
                ..old(entries)@[i]
            }),
{
    let ghost before = entries@;
    let mut i: usize = 0;
    while i < entries.len()
        invariant
            i <= entries@.len(),
            entries@.len() == before.len(),
            forall|k: int|
                0 <= k < before.len() ==> (#[trigger] entries@[k]) == if k < i {
                    DiffEntry {
                        depth: capped_sum(before[k].depth as nat, depth as nat) as usize,
                        ..before[k]
                    }
                } else {
                    before[k]
                },
        decreases entries@.len() - i,
    {
        let now: usize = entries[i].depth;
        entries[i].depth = if depth > usize::MAX - now { usize::MAX } else { now + depth };
        i += 1;
    }
}

/// A directory that is no link has no size, a file has the length that it has; what was
/// seen counts only where both looks saw the same thing.
pub proof fn law_info_tells_what_was_seen(
    info: DiffFileInfo,
    name: Seq<char>,
    path: Seq<char>,
    facts: ItemFacts,
)
    requires
        is_info_of(info, name, path, facts),
    ensures
        info.is_directory ==> info.size == 0 && facts.leads_to_directory && !info.is_symlink,
        !info.is_directory ==> info.size == facts.length,
        !facts.is_symlink && facts.leads_to_directory ==> info.is_directory,
        info.is_symlink == facts.is_symlink,
        info.authorization is Some ==> info.authorization == facts.first_seen && info.authorization
            == facts.last_seen,
        facts.first_seen is Some && facts.first_seen == facts.last_seen ==> info.authorization
            == facts.last_seen,
        info.modified == facts.modified,
        info.name@ == name,
        info.full_path@ == path,
{
}

/// Only names that are directories on both sides are gone into, each under the path of the
/// directory that lists it.
pub proof fn law_common_directories_are_gone_into(
    relative: Seq<char>,
    left: Seq<Seq<char>>,
    right: Set<Seq<char>>,
    directories: Set<Seq<char>>,
)
    ensures
        forall|i: int|
            0 <= i < left.len() && right.contains(#[trigger] left[i]) && directories.contains(
                left[i],
            ) ==> directories_below(relative, left, right, directories).contains(
                if relative.len() == 0 {
                    left[i]
                } else {
                    relative + "/"@ + left[i]
                },
            ),
        forall|k: int|
            0 <= k < directories_below(relative, left, right, directories).len() ==> exists|i: int|
                0 <= i < left.len() && right.contains(#[trigger] left[i]) && directories.contains(
                    left[i],
                ) && #[trigger] directories_below(relative, left, right, directories)[k] == (
                if relative.len() == 0 {
                    left[i]
                } else {
                    relative + "/"@ + left[i]
                }),
    decreases left.len(),
{
    if left.len() > 0 {
        let rest = left.drop_last();
        law_common_directories_are_gone_into(relative, rest, right, directories);
        let before = directories_below(relative, rest, right, directories);
        let now = directories_below(relative, left, right, directories);
        assert forall|i: int|
            0 <= i < left.len() && right.contains(#[trigger] left[i]) && directories.contains(
                left[i],
            ) implies now.contains(
            if relative.len() == 0 {
                left[i]
            } else {
                relative + "/"@ + left[i]
            },
        ) by {
            if i < rest.len() {
                assert(rest[i] == left[i]);
                let wanted = path_below(relative, left[i]);
                let k = choose|k: int| 0 <= k < before.len() && before[k] == wanted;
                assert(now[k] == wanted);
            } else {
                assert(now[now.len() - 1] == path_below(relative, left[i]));
            }
        }
        assert forall|k: int| 0 <= k < now.len() implies exists|i: int|
            0 <= i < left.len() && right.contains(#[trigger] left[i]) && directories.contains(
                left[i],
            ) && #[trigger] now[k] == (if relative.len() == 0 {
                left[i]
            } else {
                relative + "/"@ + left[i]
            }) by {
            if k < before.len() {
                assert(now[k] == before[k]);
                let i = choose|i: int|
                    0 <= i < rest.len() && right.contains(#[trigger] rest[i])
                        && directories.contains(rest[i]) && before[k] == path_below(
                        relative,
                        rest[i],
                    );
                assert(left[i] == rest[i]);
            } else {
                assert(left[left.len() - 1] == left.last());
            }
        }
    }
}

/// A sum that fits is the sum; one that does not stays at the largest number.
pub proof fn law_sum_stops_at_the_largest_number(a: nat, b: nat)
    ensures
        a + b <= usize::MAX ==> capped_sum(a, b) == a + b,
        a + b >= usize::MAX ==> capped_sum(a, b) == usize::MAX,
{
}

} // verus!
