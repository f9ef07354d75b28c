//! Looking again at a row that an operation touched, and at the directories above
//! it.

use crate::authorization::MissingPathAuthorization;
use crate::diff_build_run::{is_dir, some_differs};
use crate::diff_compare::{compare_files, counts_as_same, CompareEvidence};
use crate::diff_shape::{lemma_same_shape, same_shape, tree_shaped};
use crate::diff_state::{diff_path_is_within, diff_subtree_end, is_ancestor, is_within, subtree_end};
use crate::diff_types::{
    diff_status_has_difference, differs, CompareMethod, DiffEntry, DiffFileInfo, DiffStatus,
};
use crate::paths::{lemma_last_position, parent_key, parent_of_key};
use crate::ranking::positions;
use crate::text::{concat3, concat5, same_text, views};
use vstd::prelude::*;

verus! {

/// What was seen under a path on one side: something, or that nothing is there.
#[derive(Debug)]
pub struct Snapshot {
    pub info: Option<DiffFileInfo>,
    pub missing: Option<MissingPathAuthorization>,
}

/// What was seen under a path on both sides.
#[derive(Debug)]
pub struct PairFacts {
    pub left: Result<Snapshot, String>,
    pub right: Result<Snapshot, String>,
    /// What the two files showed, where both are there and no directories.
    pub evidence: CompareEvidence,
}

/// Whether both were the same object.
pub open spec fn is_same_file(old: DiffFileInfo, current: DiffFileInfo) -> bool {
    &&& old.authorization matches Some(a)
    &&& current.authorization matches Some(b)
    &&& a.is_same_object(b)
}

/// Whether both were the same object.
pub fn diff_info_is_same_object(old: &DiffFileInfo, current: &DiffFileInfo) -> (r: bool)
    ensures
        r == is_same_file(*old, *current),
{
    match (&old.authorization, &current.authorization) {
        (Some(a), Some(b)) => a.same_object(b),
        _ => false,
    }
}

/// The status of a row with these two sides; `directories` is that of two
/// directories.
pub open spec fn pair_status(
    left: Option<DiffFileInfo>,
    right: Option<DiffFileInfo>,
    directories: DiffStatus,
    method: CompareMethod,
    evidence: CompareEvidence,
) -> DiffStatus {
    if right is None {
        DiffStatus::LeftOnly
    } else if left is None {
        DiffStatus::RightOnly
    } else if is_dir(left) && is_dir(right) {
        directories
    } else if !is_dir(left) && !is_dir(right) && counts_as_same(
        left->0,
        right->0,
        method,
        evidence,
    ) {
        DiffStatus::Same
    } else {
        DiffStatus::Modified
    }
}

fn status_of_pair(
    left: &Option<DiffFileInfo>,
    right: &Option<DiffFileInfo>,
    directories: DiffStatus,
    method: CompareMethod,
    evidence: CompareEvidence,
) -> (r: DiffStatus)
    ensures
        r == pair_status(*left, *right, directories, method, evidence),
{
    match (left, right) {
        (_, None) => DiffStatus::LeftOnly,
        (None, Some(_)) => DiffStatus::RightOnly,
        (Some(l), Some(r)) => if l.is_directory && r.is_directory {
            directories
        } else if !l.is_directory && !r.is_directory && compare_files(l, r, method, evidence) {
            DiffStatus::Same
        } else {
            DiffStatus::Modified
        },
    }
}

fn is_directory(info: &Option<DiffFileInfo>) -> (r: bool)
    ensures
        r == is_dir(*info),
{
    match info {
        Some(info) => info.is_directory,
        None => false,
    }
}

/// Whether the status is that of something on one side only.
pub open spec fn is_one_sided(status: DiffStatus) -> bool {
    status == DiffStatus::LeftOnly || status == DiffStatus::RightOnly
}

/// Whether `row` is the row of a path that was looked at again.
pub open spec fn is_targeted_row(
    row: DiffEntry,
    path: Seq<char>,
    depth: usize,
    left: Snapshot,
    right: Snapshot,
    method: CompareMethod,
    evidence: CompareEvidence,
) -> bool {
    &&& row.relative_path@ == path
    &&& row.left == left.info
    &&& row.right == right.info
    &&& row.status == pair_status(left.info, right.info, DiffStatus::DirSame, method, evidence)
    &&& row.is_directory == (is_dir(left.info) || is_dir(right.info))
    &&& row.depth == depth
    &&& row.children_not_loaded == (row.is_directory && is_one_sided(row.status))
    &&& row.left_missing == left.missing
    &&& row.right_missing == right.missing
}

/// What looking at a path again came to.
pub open spec fn looked_again(
    path: Seq<char>,
    depth: usize,
    facts: PairFacts,
    method: CompareMethod,
    r: Result<Option<DiffEntry>, String>,
) -> bool {
    match (facts.left, facts.right) {
        (Err(error), _) => r == Err::<Option<DiffEntry>, String>(error),
        (Ok(_), Err(error)) => r == Err::<Option<DiffEntry>, String>(error),
        (Ok(left), Ok(right)) => if left.info is None && right.info is None {
            r == Ok::<Option<DiffEntry>, String>(None)
        } else {
            &&& r matches Ok(Some(row))
            &&& is_targeted_row(row, path, depth, left, right, method, facts.evidence)
        },
    }
}

/// The row of a path that was looked at again. None where nothing is left there.
/// Where both sides are directories, what is below them is still to be compared.
pub fn targeted_row(path: &str, depth: usize, facts: PairFacts, method: CompareMethod) -> (r: Result<
    Option<DiffEntry>,
    String,
>)
    ensures
        looked_again(path@, depth, facts, method, r),
{
    let left = match facts.left {
        Err(error) => {
            return Err(error);
        },
        Ok(left) => left,
    };
    let right = match facts.right {
        Err(error) => {
            return Err(error);
        },
        Ok(right) => right,
    };
    if left.info.is_none() && right.info.is_none() {
        return Ok(None);
    }
    let status = status_of_pair(
        &left.info,
        &right.info,
        DiffStatus::DirSame,
        method,
        facts.evidence,
    );
    let is_directory = is_directory(&left.info) || is_directory(&right.info);
    let one_sided = status == DiffStatus::LeftOnly || status == DiffStatus::RightOnly;
    Ok(
        Some(
            DiffEntry {
                relative_path: path.to_owned(),
                left: left.info,
                right: right.info,
                status,
                is_directory,
                depth,
                children_not_loaded: is_directory && one_sided,
                left_missing: left.missing,
                right_missing: right.missing,
            },
        ),
    )
}

/// The directories above a path, the closest first.
pub open spec fn ancestors(path: Seq<char>) -> Seq<Seq<char>>
    decreases path.len(),
{
    proof {
        lemma_last_position(path, '/');
    }
    match parent_key(path) {
        Some(parent) => if parent.len() < path.len() {
            seq![parent] + ancestors(parent)
        } else {
            seq![parent]
        },
        None => Seq::empty(),
    }
}

/// The directories above a path, the closest first.
pub fn ancestor_keys(path: &str) -> (r: Vec<String>)
    ensures
        views(r@) == ancestors(path@),
{
    let mut r: Vec<String> = Vec::new();
    let mut child: String = path.to_owned();
    assert(views(r@) =~= Seq::empty());
    loop
        invariant
            views(r@) + ancestors(child@) == ancestors(path@),
        ensures
            views(r@) == ancestors(path@),
        decreases child@.len(),
    {
        proof {
            lemma_last_position(child@, '/');
        }
        match parent_of_key(child.as_str()) {
            None => {
                assert(views(r@) + ancestors(child@) =~= views(r@));
                break;
            },
            Some(parent) => {
                let ghost before = r@;
                let ghost rest = ancestors(parent@);
                r.push(parent.clone());
                assert(views(r@) =~= views(before).push(parent@));
                assert(views(r@) + rest =~= views(before) + (seq![parent@] + rest));
                child = parent;
            },
        }
    }
    r
}

/// The first row from `from` on with this path.
pub open spec fn first_row(entries: Seq<DiffEntry>, path: Seq<char>, from: int) -> Option<int>
    decreases entries.len() - from,
{
    if from >= entries.len() {
        None
    } else if entries[from].relative_path@ == path {
        Some(from)
    } else {
        first_row(entries, path, from + 1)
    }
}

/// The first row with a path is a row, and has the path; without one no row has it.
pub proof fn lemma_first_row(entries: Seq<DiffEntry>, path: Seq<char>, from: int)
    requires
        0 <= from,
    ensures
        first_row(entries, path, from) matches Some(i) ==> from <= i < entries.len()
            && entries[i].relative_path@ == path,
        first_row(entries, path, from) is None ==> forall|i: int|
            from <= i < entries.len() ==> (#[trigger] entries[i]).relative_path@ != path,
    decreases entries.len() - from,
{
    if from < entries.len() && entries[from].relative_path@ != path {
        lemma_first_row(entries, path, from + 1);
    }
}

/// The first row with this path.
pub fn find_path_row(entries: &Vec<DiffEntry>, path: &str) -> (r: Option<usize>)
    ensures
        match r {
            Some(i) => first_row(entries@, path@, 0) == Some(i as int) && i < entries@.len()
                && entries@[i as int].relative_path@ == path@,
            None => first_row(entries@, path@, 0) is None,
        },
{
    let mut i: usize = 0;
    while i < entries.len()
        invariant
            i <= entries@.len(),
            first_row(entries@, path@, 0) == first_row(entries@, path@, i as int),
        decreases entries@.len() - i,
    {
        if same_text(entries[i].relative_path.as_str(), path) {
            return Some(i);
        }
        i += 1;
    }
    None
}

/// Why a directory above the touched row may not be taken as it is now: it was
/// replaced, or is gone, or appeared although nothing was made.
pub open spec fn side_change_error(
    side: Seq<char>,
    key: Seq<char>,
    old: Option<DiffFileInfo>,
    current: Option<DiffFileInfo>,
    allow_creation: bool,
) -> Option<Seq<char>> {
    match (old, current) {
        (Some(o), Some(c)) => if !is_same_file(o, c) {
            Some(
                "DIFF "@ + side + " ancestor '"@ + key + "' was replaced; run the comparison again"@,
            )
        } else {
            None
        },
        (Some(_), None) => Some(
            "DIFF "@ + side + " ancestor '"@ + key + "' disappeared; run the comparison again"@,
        ),
        (None, Some(_)) => if !allow_creation {
            Some(
                "DIFF "@ + side + " ancestor '"@ + key
                    + "' appeared unexpectedly; run the comparison again"@,
            )
        } else {
            None
        },
        (None, None) => None,
    }
}

fn check_side_change(
    side: &str,
    key: &str,
    old: &Option<DiffFileInfo>,
    current: &Option<DiffFileInfo>,
    allow_creation: bool,
) -> (r: Result<(), String>)
    ensures
        match side_change_error(side@, key@, *old, *current, allow_creation) {
            Some(error) => r matches Err(e) && e@ == error,
            None => r is Ok,
        },
{
    match (old, current) {
        (Some(o), Some(c)) => {
            if !diff_info_is_same_object(o, c) {
                return Err(
                    concat5(
                        "DIFF ",
                        side,
                        " ancestor '",
                        key,
                        "' was replaced; run the comparison again",
                    ),
                );
            }
        },
        (Some(_), None) => {
            return Err(
                concat5("DIFF ", side, " ancestor '", key, "' disappeared; run the comparison again"),
            );
        },
        (None, Some(_)) => {
            if !allow_creation {
                return Err(
                    concat5(
                        "DIFF ",
                        side,
                        " ancestor '",
                        key,
                        "' appeared unexpectedly; run the comparison again",
                    ),
                );
            }
        },
        (None, None) => {},
    }
    Ok(())
}

/// Why the directory with this path may not be taken as it is now.
pub open spec fn ancestor_error(
    entries: Seq<DiffEntry>,
    key: Seq<char>,
    facts: PairFacts,
    allow_creation: bool,
) -> Option<Seq<char>> {
    match first_row(entries, key, 0) {
        None => Some("DIFF ancestor '"@ + key + "' changed; run the comparison again"@),
        Some(i) => if facts.left is Err {
            Some(facts.left->Err_0@)
        } else if facts.right is Err {
            Some(facts.right->Err_0@)
        } else {
            let left = facts.left->Ok_0.info;
            let right = facts.right->Ok_0.info;
            let on_left = side_change_error("left"@, key, entries[i].left, left, allow_creation);
            let on_right = side_change_error("right"@, key, entries[i].right, right, allow_creation);
            if on_left is Some {
                on_left
            } else if on_right is Some {
                on_right
            } else if left is None && right is None {
                Some("DIFF ancestor '"@ + key + "' disappeared; run the comparison again"@)
            } else {
                None
            }
        },
    }
}

/// The row of a directory that was looked at again; two directories differ where
/// something below them does.
pub open spec fn refreshed_row(
    entries: Seq<DiffEntry>,
    i: int,
    facts: PairFacts,
    method: CompareMethod,
) -> DiffEntry {
    let left = facts.left->Ok_0;
    let right = facts.right->Ok_0;
    let directories = if some_differs(entries, i + 1, subtree_end(entries, i, i + 1)) {
        DiffStatus::DirModified
    } else {
        DiffStatus::DirSame
    };
    let status = pair_status(left.info, right.info, directories, method, facts.evidence);
    let is_directory = is_dir(left.info) || is_dir(right.info);
    DiffEntry {
        left: left.info,
        right: right.info,
        status,
        is_directory,
        children_not_loaded: is_directory && is_one_sided(status)
            && entries[i].children_not_loaded,
        left_missing: left.missing,
        right_missing: right.missing,
        ..entries[i]
    }
}

/// The rows once the directory with this path was looked at again.
pub open spec fn after_ancestor(
    entries: Seq<DiffEntry>,
    key: Seq<char>,
    facts: PairFacts,
    method: CompareMethod,
) -> Seq<DiffEntry> {
    match first_row(entries, key, 0) {
        Some(i) => entries.update(i, refreshed_row(entries, i, facts, method)),
        None => entries,
    }
}

/// The rows once the first `n` directories were looked at again.
pub open spec fn after_ancestors(
    entries: Seq<DiffEntry>,
    keys: Seq<Seq<char>>,
    facts: Seq<PairFacts>,
    method: CompareMethod,
    n: int,
) -> Seq<DiffEntry>
    decreases n,
{
    if n <= 0 {
        entries
    } else {
        after_ancestor(
            after_ancestors(entries, keys, facts, method, n - 1),
            keys[n - 1],
            facts[n - 1],
            method,
        )
    }
}

/// Why one of the first `n` directories may not be taken as it is now: the first
/// that may not says it.
pub open spec fn ancestors_error(
    entries: Seq<DiffEntry>,
    keys: Seq<Seq<char>>,
    facts: Seq<PairFacts>,
    method: CompareMethod,
    allow_creation: bool,
    n: int,
) -> Option<Seq<char>>
    decreases n,
{
    if n <= 0 {
        None
    } else {
        let before = ancestors_error(entries, keys, facts, method, allow_creation, n - 1);
        if before is Some {
            before
        } else {
            ancestor_error(
                after_ancestors(entries, keys, facts, method, n - 1),
                keys[n - 1],
                facts[n - 1],
                allow_creation,
            )
        }
    }
}

/// Whether a side of the directory was made.
pub open spec fn was_made(entries: Seq<DiffEntry>, key: Seq<char>, facts: PairFacts, left: bool) -> bool {
    match first_row(entries, key, 0) {
        Some(i) => if left {
            entries[i].left is None && facts.left->Ok_0.info is Some
        } else {
            entries[i].right is None && facts.right->Ok_0.info is Some
        },
        None => false,
    }
}

/// Those of the first `n` directories that were made on a side.
pub open spec fn made_ancestors(
    entries: Seq<DiffEntry>,
    keys: Seq<Seq<char>>,
    facts: Seq<PairFacts>,
    method: CompareMethod,
    left: bool,
    n: int,
) -> Seq<Seq<char>>
    decreases n,
{
    if n <= 0 {
        Seq::empty()
    } else {
        let before = made_ancestors(entries, keys, facts, method, left, n - 1);
        if was_made(
            after_ancestors(entries, keys, facts, method, n - 1),
            keys[n - 1],
            facts[n - 1],
            left,
        ) {
            before.push(keys[n - 1])
        } else {
            before
        }
    }
}

/// The directories above the touched row that were made.
#[derive(Debug)]
pub struct CreatedAncestorSides {
    pub left: Vec<String>,
    pub right: Vec<String>,
}

fn any_differs(entries: &Vec<DiffEntry>, from: usize, to: usize) -> (r: bool)
    requires
        from <= to <= entries@.len(),
    ensures
        r == some_differs(entries@, from as int, to as int),
{
    let mut i: usize = from;
    while i < to
        invariant
            from <= i <= to <= entries@.len(),
            forall|j: int| from <= j < i ==> !differs((#[trigger] entries@[j]).status),
        decreases to - i,
    {
        if diff_status_has_difference(entries[i].status) {
            assert(differs(entries@[i as int].status));
            return true;
        }
        i += 1;
    }
    false
}

fn copy_info(info: &Option<DiffFileInfo>) -> (r: Option<DiffFileInfo>)
    ensures
        r == *info,
{
    match info {
        Some(info) => Some(info.clone()),
        None => None,
    }
}

fn copy_absence(missing: &Option<MissingPathAuthorization>) -> (r: Option<
    MissingPathAuthorization,
>)
    ensures
        r == *missing,
{
    match missing {
        Some(missing) => Some(missing.clone()),
        None => None,
    }
}

/// Takes in what was seen of one directory above the touched row. Tells on which
/// sides it was made.
fn refresh_ancestor(
    entries: &mut Vec<DiffEntry>,
    key: &str,
    facts: &PairFacts,
    method: CompareMethod,
    allow_creation: bool,
) -> (r: Result<(bool, bool), String>)
    ensures
        match ancestor_error(old(entries)@, key@, *facts, allow_creation) {
            Some(error) => r matches Err(e) && e@ == error,
            None => {
                &&& r == Ok::<(bool, bool), String>(
                    (
                        was_made(old(entries)@, key@, *facts, true),
                        was_made(old(entries)@, key@, *facts, false),
                    ),
                )
                &&& final(entries)@ == after_ancestor(old(entries)@, key@, *facts, method)
            },
        },
{
    let index: usize = match find_path_row(entries, key) {
        None => {
            return Err(
                concat3("DIFF ancestor '", key, "' changed; run the comparison again"),
            );
        },
        Some(index) => index,
    };
    let left: &Snapshot = match &facts.left {
        Err(error) => {
            return Err(error.clone());
        },
        Ok(left) => left,
    };
    let right: &Snapshot = match &facts.right {
        Err(error) => {
            return Err(error.clone());
        },
        Ok(right) => right,
    };
    if let Err(error) = check_side_change(
        "left",
        key,
        &entries[index].left,
        &left.info,
        allow_creation,
    ) {
        return Err(error);
    }
    if let Err(error) = check_side_change(
        "right",
        key,
        &entries[index].right,
        &right.info,
        allow_creation,
    ) {
        return Err(error);
    }
    if left.info.is_none() && right.info.is_none() {
        return Err(concat3("DIFF ancestor '", key, "' disappeared; run the comparison again"));
    }
    let made_left = entries[index].left.is_none() && left.info.is_some();
    let made_right = entries[index].right.is_none() && right.info.is_some();
    let end: usize = diff_subtree_end(entries, index);
    let directories = if any_differs(entries, index + 1, end) {
        DiffStatus::DirModified
    } else {
        DiffStatus::DirSame
    };
    let status = status_of_pair(&left.info, &right.info, directories, method, facts.evidence);
    let directory = is_directory(&left.info) || is_directory(&right.info);
    let one_sided = status == DiffStatus::LeftOnly || status == DiffStatus::RightOnly;
    let mut row = entries[index].clone();
    row.left = copy_info(&left.info);
    row.right = copy_info(&right.info);
    row.status = status;
    row.is_directory = directory;
    row.children_not_loaded = directory && one_sided && row.children_not_loaded;
    row.left_missing = copy_absence(&left.missing);
    row.right_missing = copy_absence(&right.missing);
    assert(row == refreshed_row(old(entries)@, index as int, *facts, method));
    entries[index] = row;
    Ok((made_left, made_right))
}

/// Takes in what was seen of the directories above the touched row, the closest
/// first, so that each tells of what is below it. A directory that was replaced
/// or is gone ends it, and so does one that appeared, unless some may have been
/// made.
pub fn refresh_diff_ancestor_entries(
    entries: Vec<DiffEntry>,
    relative_key: &str,
    facts: &Vec<PairFacts>,
    method: CompareMethod,
    allow_creation: bool,
) -> (r: Result<(Vec<DiffEntry>, CreatedAncestorSides), String>)
    requires
        facts@.len() == ancestors(relative_key@).len(),
    ensures
        ({
            let keys = ancestors(relative_key@);
            let n = keys.len() as int;
            match ancestors_error(entries@, keys, facts@, method, allow_creation, n) {
                Some(error) => r matches Err(e) && e@ == error,
                None => {
                    &&& r matches Ok((rows, created))
                    &&& rows@ == after_ancestors(entries@, keys, facts@, method, n)
                    &&& views(created.left@) == made_ancestors(
                        entries@,
                        keys,
                        facts@,
                        method,
                        true,
                        n,
                    )
                    &&& views(created.right@) == made_ancestors(
                        entries@,
                        keys,
                        facts@,
                        method,
                        false,
                        n,
                    )
                },
            }
        }),
{
    let list = ancestor_keys(relative_key);
    let ghost keys = ancestors(relative_key@);
    let ghost n = keys.len() as int;
    let ghost first = entries@;
    let mut rows = entries;
    let mut created = CreatedAncestorSides { left: Vec::new(), right: Vec::new() };
    assert(views(list@).len() == list@.len());
    assert(views(created.left@) =~= Seq::empty());
    assert(views(created.right@) =~= Seq::empty());
    let mut i: usize = 0;
    while i < list.len()
        invariant
            i <= list@.len(),
            first == entries@,
            keys == ancestors(relative_key@),
            views(list@) == keys,
            list@.len() == keys.len(),
            n == keys.len(),
            facts@.len() == keys.len(),
            ancestors_error(first, keys, facts@, method, allow_creation, i as int) is None,
            rows@ == after_ancestors(first, keys, facts@, method, i as int),
            views(created.left@) == made_ancestors(first, keys, facts@, method, true, i as int),
            views(created.right@) == made_ancestors(first, keys, facts@, method, false, i as int),
        decreases list@.len() - i,
    {
        assert(keys[i as int] == list@[i as int]@);
        let (left, right) = match refresh_ancestor(
            &mut rows,
            list[i].as_str(),
            &facts[i],
            method,
            allow_creation,
        ) {
            Err(error) => {
                proof {
                    lemma_error_stays(first, keys, facts@, method, allow_creation, i + 1, n);
                }
                return Err(error);
            },
            Ok(made) => made,
        };
        let ghost said = created;
        if left {
            created.left.push(list[i].clone());
            assert(views(created.left@) =~= views(said.left@).push(keys[i as int]));
        }
        if right {
            created.right.push(list[i].clone());
            assert(views(created.right@) =~= views(said.right@).push(keys[i as int]));
        }
        i += 1;
    }
    Ok((rows, created))
}

proof fn lemma_error_stays(
    entries: Seq<DiffEntry>,
    keys: Seq<Seq<char>>,
    facts: Seq<PairFacts>,
    method: CompareMethod,
    allow_creation: bool,
    i: int,
    n: int,
)
    requires
        0 <= i <= n,
        ancestors_error(entries, keys, facts, method, allow_creation, i) is Some,
    ensures
        ancestors_error(entries, keys, facts, method, allow_creation, n) == ancestors_error(
            entries,
            keys,
            facts,
            method,
            allow_creation,
            i,
        ),
    decreases n - i,
{
    if i < n {
        lemma_error_stays(entries, keys, facts, method, allow_creation, i, n - 1);
    }
}

/// Whether the absence of a side of the row has to be seen anew, because one of
/// the directories was made above it.
pub open spec fn needs_new_absence(row: DiffEntry, made: Seq<Seq<char>>, left: bool) -> bool {
    &&& if left { row.left is None } else { row.right is None }
    &&& exists|k: int| 0 <= k < made.len() && is_within(row.relative_path@, #[trigger] made[k])
}

/// The first `n` rows whose absence on a side has to be seen anew.
pub open spec fn rows_with_new_absence(
    entries: Seq<DiffEntry>,
    made: Seq<Seq<char>>,
    left: bool,
    n: int,
) -> Seq<int>
    decreases n,
{
    if n <= 0 {
        Seq::empty()
    } else {
        let before = rows_with_new_absence(entries, made, left, n - 1);
        if needs_new_absence(entries[n - 1], made, left) {
            before.push(n - 1)
        } else {
            before
        }
    }
}

/// The rows whose absence on a side has to be seen anew.
pub fn rows_to_capture(entries: &Vec<DiffEntry>, made: &Vec<String>, left: bool) -> (r: Vec<usize>)
    ensures
        positions(r@) == rows_with_new_absence(
            entries@,
            views(made@),
            left,
            entries@.len() as int,
        ),
{
    let mut r: Vec<usize> = Vec::new();
    let ghost all = views(made@);
    let mut i: usize = 0;
    assert(positions(r@) =~= Seq::empty());
    while i < entries.len()
        invariant
            i <= entries@.len(),
            all == views(made@),
            positions(r@) == rows_with_new_absence(entries@, all, left, i as int),
        decreases entries@.len() - i,
    {
        let absent = if left { entries[i].left.is_none() } else { entries[i].right.is_none() };
        let mut within = false;
        let mut k: usize = 0;
        while k < made.len() && !within
            invariant
                i < entries@.len(),
                k <= made@.len(),
                all == views(made@),
                within ==> exists|m: int|
                    0 <= m < all.len() && is_within(
                        entries@[i as int].relative_path@,
                        #[trigger] all[m],
                    ),
                !within ==> forall|m: int|
                    0 <= m < k ==> !is_within(
                        entries@[i as int].relative_path@,
                        #[trigger] all[m],
                    ),
            decreases made@.len() - k,
        {
            assert(all[k as int] == made@[k as int]@);
            within = diff_path_is_within(entries[i].relative_path.as_str(), made[k].as_str());
            k += 1;
        }
        let ghost held = r@;
        assert(all.len() == made@.len());
        if absent && within {
            r.push(i);
            assert(positions(r@) =~= positions(held).push(i as int));
        }
        i += 1;
    }
    r
}

/// Takes in the absences that were seen anew: `left` and `right` belong to the rows
/// of the same place in the two lists. A row whose absence could not be seen
/// keeps what it shows, and nothing may be put in its place.
pub fn refresh_created_ancestor_missing_authorizations(
    entries: &mut Vec<DiffEntry>,
    rows: &Vec<usize>,
    seen: &Vec<Option<MissingPathAuthorization>>,
    left: bool,
)
    requires
        rows@.len() == seen@.len(),
        forall|k: int| 0 <= k < rows@.len() ==> #[trigger] rows@[k] < old(entries)@.len(),
    ensures
        final(entries)@ == with_absences(
            old(entries)@,
            positions(rows@),
            seen@,
            left,
            rows@.len() as int,
        ),
{
    let ghost first = entries@;
    let ghost places = positions(rows@);
    let mut k: usize = 0;
    while k < rows.len()
        invariant
            k <= rows@.len(),
            rows@.len() == seen@.len(),
            places == positions(rows@),
            entries@.len() == first.len(),
            forall|m: int| 0 <= m < rows@.len() ==> #[trigger] rows@[m] < first.len(),
            entries@ == with_absences(first, places, seen@, left, k as int),
        decreases rows@.len() - k,
    {
        let at: usize = rows[k];
        assert(places[k as int] == at);
        let missing = copy_absence(&seen[k]);
        let mut row = entries[at].clone();
        if left {
            row.left_missing = missing;
        } else {
            row.right_missing = missing;
        }
        entries[at] = row;
        k += 1;
    }
}

/// The rows with the absences that were seen anew for the first `n` places.
pub open spec fn with_absences(
    entries: Seq<DiffEntry>,
    places: Seq<int>,
    seen: Seq<Option<MissingPathAuthorization>>,
    left: bool,
    n: int,
) -> Seq<DiffEntry>
    decreases n,
{
    if n <= 0 {
        entries
    } else {
        let before = with_absences(entries, places, seen, left, n - 1);
        let at = places[n - 1];
        before.update(
            at,
            if left {
                DiffEntry { left_missing: seen[n - 1], ..before[at] }
            } else {
                DiffEntry { right_missing: seen[n - 1], ..before[at] }
            },
        )
    }
}

/// Looking at the directories again changes no path and no depth, and takes away
/// no row.
pub proof fn law_looking_again_keeps_the_rows(
    entries: Seq<DiffEntry>,
    keys: Seq<Seq<char>>,
    facts: Seq<PairFacts>,
    method: CompareMethod,
    n: int,
)
    requires
        0 <= n,
    ensures
        after_ancestors(entries, keys, facts, method, n).len() == entries.len(),
        forall|i: int|
            0 <= i < entries.len() ==> {
                let now = #[trigger] after_ancestors(entries, keys, facts, method, n)[i];
                now.relative_path == entries[i].relative_path && now.depth == entries[i].depth
            },
    decreases n,
{
    if n > 0 {
        law_looking_again_keeps_the_rows(entries, keys, facts, method, n - 1);
        let before = after_ancestors(entries, keys, facts, method, n - 1);
        let now = after_ancestors(entries, keys, facts, method, n);
        lemma_first_row(before, keys[n - 1], 0);
        assert forall|i: int| 0 <= i < entries.len() implies ({
            let row = #[trigger] now[i];
            row.relative_path == entries[i].relative_path && row.depth == entries[i].depth
        }) by {
            assert(before[i].relative_path == entries[i].relative_path);
            match first_row(before, keys[n - 1], 0) {
                Some(at) => {
                    if at == i {
                        assert(now[i] == refreshed_row(before, at, facts[n - 1], method));
                    }
                },
                None => {},
            }
        }
    }
}

/// Looking at the directories again keeps the tree, as long as they are directories.
pub proof fn law_looking_again_keeps_the_tree(
    entries: Seq<DiffEntry>,
    keys: Seq<Seq<char>>,
    facts: Seq<PairFacts>,
    method: CompareMethod,
    n: int,
)
    requires
        tree_shaped(entries),
        0 <= n <= facts.len(),
        forall|k: int|
            0 <= k < n ==> {
                let seen = #[trigger] facts[k];
                is_dir(seen.left->Ok_0.info) || is_dir(seen.right->Ok_0.info)
            },
    ensures
        tree_shaped(after_ancestors(entries, keys, facts, method, n)),
    decreases n,
{
    if n > 0 {
        law_looking_again_keeps_the_tree(entries, keys, facts, method, n - 1);
        let before = after_ancestors(entries, keys, facts, method, n - 1);
        let after = after_ancestors(entries, keys, facts, method, n);
        let seen = facts[n - 1];
        assert(is_dir(seen.left->Ok_0.info) || is_dir(seen.right->Ok_0.info));
        lemma_first_row(before, keys[n - 1], 0);
        assert(same_shape(before, after));
        lemma_same_shape(before, after, 0);
    }
}

/// A directory counts as made on a side exactly where the row had nothing there and now
/// there is something.
pub proof fn law_made_directories_are_new(
    entries: Seq<DiffEntry>,
    key: Seq<char>,
    facts: PairFacts,
    i: int,
)
    requires
        first_row(entries, key, 0) == Some(i),
    ensures
        was_made(entries, key, facts, true) <==> entries[i].left is None
            && facts.left->Ok_0.info is Some,
        was_made(entries, key, facts, false) <==> entries[i].right is None
            && facts.right->Ok_0.info is Some,
{
}

/// The absence of a row is seen anew exactly where the row has nothing on the side and one
/// of the directories that were made is the row's own or above it.
pub proof fn law_absences_below_made_directories(
    entries: Seq<DiffEntry>,
    made: Seq<Seq<char>>,
    left: bool,
    n: int,
    i: int,
)
    requires
        0 <= n <= entries.len(),
    ensures
        rows_with_new_absence(entries, made, left, n).contains(i) <==> {
            &&& 0 <= i < n
            &&& left ==> entries[i].left is None
            &&& !left ==> entries[i].right is None
            &&& exists|k: int|
                0 <= k < made.len() && (entries[i].relative_path@ == (#[trigger] made[k])
                    || is_ancestor(made[k], entries[i].relative_path@))
        },
    decreases n,
{
    if n > 0 {
        law_absences_below_made_directories(entries, made, left, n - 1, i);
        let before = rows_with_new_absence(entries, made, left, n - 1);
        let now = rows_with_new_absence(entries, made, left, n);
        if before.contains(i) {
            let k = choose|k: int| 0 <= k < before.len() && before[k] == i;
            assert(now[k] == i);
        }
        if now.contains(i) && !before.contains(i) {
            let k = choose|k: int| 0 <= k < now.len() && now[k] == i;
            if k < before.len() {
                assert(before[k] == i);
            }
        }
        if needs_new_absence(entries[n - 1], made, left) {
            assert(now[now.len() - 1] == n - 1);
        }
        if i == n - 1 {
            assert(needs_new_absence(entries[i], made, left) <==> {
                &&& left ==> entries[i].left is None
                &&& !left ==> entries[i].right is None
                &&& exists|k: int|
                    0 <= k < made.len() && (entries[i].relative_path@ == (#[trigger] made[k])
                        || is_ancestor(made[k], entries[i].relative_path@))
            }) by {
                if exists|k: int|
                    0 <= k < made.len() && (entries[i].relative_path@ == (#[trigger] made[k])
                        || is_ancestor(made[k], entries[i].relative_path@)) {
                    let k = choose|k: int|
                        0 <= k < made.len() && (entries[i].relative_path@ == (#[trigger] made[k])
                            || is_ancestor(made[k], entries[i].relative_path@));
                    assert(is_within(entries[i].relative_path@, made[k]));
                }
            }
        }
    }
}

/// Seeing absences anew changes them on their side and in their rows, and nothing else.
pub proof fn law_new_absences_change_nothing_else(
    entries: Seq<DiffEntry>,
    places: Seq<int>,
    seen: Seq<Option<MissingPathAuthorization>>,
    left: bool,
    n: int,
    i: int,
)
    requires
        0 <= n <= places.len(),
        0 <= i < entries.len(),
        forall|k: int| 0 <= k < n ==> 0 <= #[trigger] places[k] < entries.len(),
    ensures
        with_absences(entries, places, seen, left, n).len() == entries.len(),
        ({
            let now = with_absences(entries, places, seen, left, n)[i];
            &&& left ==> now == (DiffEntry { left_missing: now.left_missing, ..entries[i] })
            &&& !left ==> now == (DiffEntry { right_missing: now.right_missing, ..entries[i] })
            &&& (forall|k: int| 0 <= k < n ==> #[trigger] places[k] != i) ==> now == entries[i]
            &&& n > 0 && places[n - 1] == i ==> if left {
                now.left_missing == seen[n - 1]
            } else {
                now.right_missing == seen[n - 1]
            }
        }),
    decreases n,
{
    if n > 0 {
        law_new_absences_change_nothing_else(entries, places, seen, left, n - 1, i);
        let at = places[n - 1];
        assert(0 <= at < entries.len());
    }
}

/// A path that was looked at again has a row exactly where something is left on a side; the
/// row holds what was seen on each side, with the status that follows.
pub proof fn law_row_tells_what_was_seen_again(
    path: Seq<char>,
    depth: usize,
    facts: PairFacts,
    method: CompareMethod,
    row: DiffEntry,
)
    requires
        looked_again(path, depth, facts, method, Ok(Some(row))),
    ensures
        facts.left is Ok && facts.right is Ok,
        row.relative_path@ == path,
        row.depth == depth,
        row.left == facts.left->Ok_0.info,
        row.right == facts.right->Ok_0.info,
        row.left_missing == facts.left->Ok_0.missing,
        row.right_missing == facts.right->Ok_0.missing,
        row.left is Some || row.right is Some,
        row.status == DiffStatus::LeftOnly <==> row.right is None,
        row.status == DiffStatus::RightOnly <==> row.left is None && row.right is Some,
        row.is_directory <==> (row.left is Some && row.left->0.is_directory) || (row.right is Some
            && row.right->0.is_directory),
        row.status == DiffStatus::DirSame <==> row.left is Some && row.right is Some
            && row.left->0.is_directory && row.right->0.is_directory,
        row.status == DiffStatus::Same <==> row.left is Some && row.right is Some
            && !row.left->0.is_directory && !row.right->0.is_directory && counts_as_same(
            row.left->0,
            row.right->0,
            method,
            facts.evidence,
        ),
        row.children_not_loaded <==> row.is_directory && (row.left is None || row.right is None),
{
}

/// A directory that was looked at again holds what was seen on each side; with both sides
/// there it differs exactly where something below it does, and what is below counts as not
/// read only where it did before and one side is gone.
pub proof fn law_directory_tells_what_was_seen_again(
    entries: Seq<DiffEntry>,
    i: int,
    facts: PairFacts,
    method: CompareMethod,
)
    ensures
        ({
            let row = refreshed_row(entries, i, facts, method);
            let left = facts.left->Ok_0;
            let right = facts.right->Ok_0;
            let both = left.info is Some && right.info is Some;
            &&& row.left == left.info && row.right == right.info
            &&& row.left_missing == left.missing && row.right_missing == right.missing
            &&& row.relative_path == entries[i].relative_path && row.depth == entries[i].depth
            &&& right.info is None ==> row.status == DiffStatus::LeftOnly
            &&& left.info is None && right.info is Some ==> row.status == DiffStatus::RightOnly
            &&& both && left.info->0.is_directory && right.info->0.is_directory ==> {
                &&& row.status == DiffStatus::DirModified <==> exists|j: int|
                    i + 1 <= j < subtree_end(entries, i, i + 1) && differs(
                        (#[trigger] entries[j]).status,
                    )
                &&& row.status == DiffStatus::DirModified || row.status == DiffStatus::DirSame
            }
            &&& both && left.info->0.is_directory != right.info->0.is_directory ==> row.status
                == DiffStatus::Modified
            &&& row.children_not_loaded ==> row.is_directory && !both
                && entries[i].children_not_loaded
            &&& !both && row.is_directory ==> row.children_not_loaded
                == entries[i].children_not_loaded
        }),
{
}

} // verus!
