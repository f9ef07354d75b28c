//! The items of a comparison that an operation touches: what was seen of them,
//! and what has to be seen again before anything is changed.

use crate::authorization::{
    DirectoryAuthorization, MissingPathAuthorization, PathAuthorization, TreeAuthorization,
    TreeView,
};
use crate::diff_state::{DiffAuthorizedItem, DiffState};
use crate::diff_types::DiffFileInfo;
use crate::paths::{begins_with, components, join_path, joined_path, path_starts_with};
use crate::text::{chars_of, concat3, law_first_piece, law_last_piece, split_on, split_text};
use vstd::prelude::*;

verus! {

/// An item as it was seen, as a value.
pub struct ItemView {
    pub parent: DirectoryAuthorization,
    pub item: PathAuthorization,
    pub tree: Option<TreeView>,
}

/// A tree that may be there, as a value.
pub open spec fn tree_view(tree: Option<TreeAuthorization>) -> Option<TreeView> {
    match tree {
        Some(tree) => Some(tree@),
        None => None,
    }
}

/// An item that may be there, as a value.
pub open spec fn item_view(item: Option<DiffAuthorizedItem>) -> Option<ItemView> {
    match item {
        Some(item) => Some(item@),
        None => None,
    }
}

impl View for DiffAuthorizedItem {
    type V = ItemView;

    open spec fn view(&self) -> ItemView {
        ItemView { parent: self.parent, item: self.item, tree: tree_view(self.tree) }
    }
}

impl DiffAuthorizedItem {
    /// The same item again.
    pub fn copy(&self) -> (r: DiffAuthorizedItem)
        ensures
            r@ == self@,
    {
        DiffAuthorizedItem {
            parent: self.parent.clone(),
            item: self.item,
            tree: match &self.tree {
                Some(tree) => Some(tree.copy()),
                None => None,
            },
        }
    }
}

/// The same item again, where there is one.
pub fn copy_item(item: &Option<DiffAuthorizedItem>) -> (r: Option<DiffAuthorizedItem>)
    ensures
        item_view(r) == item_view(*item),
{
    match item {
        Some(item) => Some(item.copy()),
        None => None,
    }
}

/// The same absence again, where there is one.
pub fn copy_missing(missing: &Option<MissingPathAuthorization>) -> (r: Option<
    MissingPathAuthorization,
>)
    ensures
        r == *missing,
{
    match missing {
        Some(missing) => Some(missing.clone()),
        None => None,
    }
}

/// Something that has to be seen again. The last part of each says what it is for.
#[derive(Debug)]
pub enum DiffCheck {
    /// The directory at the path is still the same.
    Directory(String, DirectoryAuthorization, String),
    /// What is at the path is still the same.
    Path(String, PathAuthorization, String),
    /// The tree at the path is still the same.
    Tree(String, TreeAuthorization, String),
    /// The path is still missing.
    Absence(MissingPathAuthorization, String),
}

/// Something that has to be seen again, as a value.
pub enum CheckView {
    Directory(Seq<char>, DirectoryAuthorization, Seq<char>),
    Path(Seq<char>, PathAuthorization, Seq<char>),
    Tree(Seq<char>, TreeView, Seq<char>),
    Absence(MissingPathAuthorization, Seq<char>),
}

impl View for DiffCheck {
    type V = CheckView;

    open spec fn view(&self) -> CheckView {
        match self {
            DiffCheck::Directory(path, directory, role) => CheckView::Directory(
                path@,
                *directory,
                role@,
            ),
            DiffCheck::Path(path, item, role) => CheckView::Path(path@, *item, role@),
            DiffCheck::Tree(path, tree, role) => CheckView::Tree(path@, tree@, role@),
            DiffCheck::Absence(missing, role) => CheckView::Absence(*missing, role@),
        }
    }
}

/// Checks, as values.
pub open spec fn check_views(checks: Seq<DiffCheck>) -> Seq<CheckView> {
    Seq::new(checks.len(), |i: int| checks[i]@)
}

/// That a directory is still where it was.
pub open spec fn directory_check(directory: DirectoryAuthorization, role: Seq<char>) -> CheckView {
    CheckView::Directory(directory.resolved_path@, directory, role)
}

/// That the directory of an item, the item and its tree are as they were.
pub open spec fn item_checks(
    name: Seq<char>,
    item: ItemView,
    parent_role: Seq<char>,
    role: Seq<char>,
) -> Seq<CheckView> {
    let path = joined_path(item.parent.resolved_path@, name);
    let first = seq![
        directory_check(item.parent, parent_role),
        CheckView::Path(path, item.item, role),
    ];
    match item.tree {
        Some(tree) => first.push(CheckView::Tree(path, tree, role)),
        None => first,
    }
}

/// Adds a check.
pub fn add_check(checks: &mut Vec<DiffCheck>, check: DiffCheck)
    ensures
        check_views(final(checks)@) == check_views(old(checks)@).push(check@),
{
    checks.push(check);
    assert(check_views(checks@) =~= check_views(old(checks)@).push(check@));
}

/// Adds that a directory is still where it was.
pub fn add_directory_check(
    checks: &mut Vec<DiffCheck>,
    directory: &DirectoryAuthorization,
    role: String,
)
    ensures
        check_views(final(checks)@) == check_views(old(checks)@).push(
            directory_check(*directory, role@),
        ),
{
    add_check(
        checks,
        DiffCheck::Directory(directory.resolved_path.clone(), directory.clone(), role),
    );
}

/// Adds that the directory of an item, the item and its tree are as they were.
pub fn add_item_checks(
    checks: &mut Vec<DiffCheck>,
    name: &str,
    item: &DiffAuthorizedItem,
    parent_role: String,
    role: String,
)
    ensures
        check_views(final(checks)@) == check_views(old(checks)@) + item_checks(
            name@,
            item@,
            parent_role@,
            role@,
        ),
{
    let ghost before = check_views(checks@);
    let path = join_path(item.parent.resolved_path.as_str(), name);
    add_directory_check(checks, &item.parent, parent_role);
    add_check(checks, DiffCheck::Path(path.clone(), item.item, role.clone()));
    if let Some(tree) = &item.tree {
        add_check(checks, DiffCheck::Tree(path, tree.copy(), role));
    }
    assert(check_views(checks@) =~= before + item_checks(name@, item@, parent_role@, role@));
}

/// Whether a path goes down from a root: it is not empty, not absolute, and
/// neither begins with `.` nor goes up.
pub open spec fn goes_down(path: Seq<char>) -> bool {
    let pieces = split_on(path, '/');
    &&& path.len() > 0
    &&& path[0] != '/'
    &&& pieces[0] != seq!['.']
    &&& !pieces.contains(seq!['.', '.'])
}

/// The path of a row, where it goes down from the root.
pub fn validated_diff_relative_path(relative_path: &str) -> (r: Result<String, String>)
    ensures
        match r {
            Ok(path) => goes_down(relative_path@) && path@ == relative_path@,
            Err(e) => !goes_down(relative_path@) && e@
                == "Selected difference has an invalid relative path"@,
        },
{
    let chars = chars_of(relative_path);
    let refused = "Selected difference has an invalid relative path".to_owned();
    if chars.len() == 0 || chars[0] == '/' {
        return Err(refused);
    }
    let pieces = split_text(&chars, '/');
    let ghost all = split_on(relative_path@, '/');
    proof {
        lemma_some_piece(relative_path@, '/');
    }
    if pieces[0].len() == 1 && pieces[0][0] == '.' {
        assert(all[0] =~= seq!['.']);
        return Err(refused);
    }
    assert(all[0] == seq!['.'] ==> all[0][0] == '.');
    let mut i: usize = 0;
    while i < pieces.len()
        invariant
            i <= pieces@.len(),
            all == split_on(relative_path@, '/'),
            pieces@.len() == all.len(),
            forall|k: int| 0 <= k < pieces@.len() ==> (#[trigger] pieces@[k])@ == all[k],
            forall|k: int| 0 <= k < i ==> #[trigger] all[k] != seq!['.', '.'],
            refused@ == "Selected difference has an invalid relative path"@,
        decreases pieces@.len() - i,
    {
        assert(pieces@[i as int]@ == all[i as int]);
        if pieces[i].len() == 2 && pieces[i][0] == '.' && pieces[i][1] == '.' {
            assert(all[i as int] =~= seq!['.', '.']);
            assert(all.contains(seq!['.', '.']));
            return Err(refused);
        }
        assert(all[i as int] == seq!['.', '.'] ==> all[i as int][0] == '.' && all[i as int][1]
            == '.');
        i += 1;
    }
    Ok(relative_path.to_owned())
}

proof fn lemma_some_piece(s: Seq<char>, c: char)
    ensures
        split_on(s, c).len() > 0,
    decreases s.len(),
{
    if s.len() > 0 {
        lemma_some_piece(s.drop_last(), c);
    }
}

/// The roots of the comparison, where what is there is still what was compared.
/// `left` and `right` are what looking at them again came to.
pub fn authorized_comparison_roots(
    state: &DiffState,
    left: Result<(), String>,
    right: Result<(), String>,
) -> (r: Result<(DirectoryAuthorization, DirectoryAuthorization), String>)
    ensures
        match roots_error(*state, left, right) {
            Some(error) => r matches Err(e) && e@ == error,
            None => r == Ok::<(DirectoryAuthorization, DirectoryAuthorization), String>(
                (state.left_root_authorization->0, state.right_root_authorization->0),
            ),
        },
{
    let left_root = match &state.left_root_authorization {
        Some(root) => root.clone(),
        None => {
            return Err(
                "Diff left root identity is unavailable; restart the comparison".to_owned(),
            );
        },
    };
    let right_root = match &state.right_root_authorization {
        Some(root) => root.clone(),
        None => {
            return Err(
                "Diff right root identity is unavailable; restart the comparison".to_owned(),
            );
        },
    };
    if let Err(error) = left {
        return Err(error);
    }
    if let Err(error) = right {
        return Err(error);
    }
    Ok((left_root, right_root))
}

/// Why the roots of the comparison may not be used.
pub open spec fn roots_error(
    state: DiffState,
    left: Result<(), String>,
    right: Result<(), String>,
) -> Option<Seq<char>> {
    if state.left_root_authorization is None {
        Some("Diff left root identity is unavailable; restart the comparison"@)
    } else if state.right_root_authorization is None {
        Some("Diff right root identity is unavailable; restart the comparison"@)
    } else if left is Err {
        Some(left->Err_0@)
    } else if right is Err {
        Some(right->Err_0@)
    } else {
        None
    }
}

/// Whether one root is the other or lies inside it.
pub open spec fn roots_overlap(left: DirectoryAuthorization, right: DirectoryAuthorization) -> bool {
    begins_with(left.resolved_path@, right.resolved_path@) || begins_with(
        right.resolved_path@,
        left.resolved_path@,
    ) || left.is_same_object(right)
}

/// Refuses roots of which one is the other or lies inside it.
pub fn ensure_non_overlapping_diff_roots(
    left_root: &DirectoryAuthorization,
    right_root: &DirectoryAuthorization,
) -> (r: Result<(), String>)
    ensures
        match r {
            Ok(_) => !roots_overlap(*left_root, *right_root),
            Err(e) => roots_overlap(*left_root, *right_root) && e@
                == "Copy and delete are disabled when comparison roots overlap"@,
        },
{
    let left = left_root.resolved_path.as_str();
    let right = right_root.resolved_path.as_str();
    if path_starts_with(left, right) || path_starts_with(right, left) || left_root.same_object(
        right_root,
    ) {
        return Err("Copy and delete are disabled when comparison roots overlap".to_owned());
    }
    Ok(())
}

/// Whether the item is a tree that holds the directory.
pub open spec fn tree_holds(item: Option<DiffAuthorizedItem>, directory: DirectoryAuthorization) -> bool {
    item matches Some(i) && i.tree matches Some(tree) && tree.holds(directory)
}

fn item_tree_holds(item: &Option<DiffAuthorizedItem>, directory: &DirectoryAuthorization) -> (r: bool)
    ensures
        r == tree_holds(*item, *directory),
{
    match item {
        Some(item) => match &item.tree {
            Some(tree) => tree.contains_directory(directory),
            None => false,
        },
        None => false,
    }
}

/// Refuses items of which one holds the root of the other side.
pub fn ensure_selected_trees_do_not_contain_other_root(
    left_item: &Option<DiffAuthorizedItem>,
    right_item: &Option<DiffAuthorizedItem>,
    left_root: &DirectoryAuthorization,
    right_root: &DirectoryAuthorization,
) -> (r: Result<(), String>)
    ensures
        r is Err <==> (tree_holds(*left_item, *right_root) || tree_holds(*right_item, *left_root)),
        r matches Err(e) ==> e@
            == "Copy and delete are disabled when a selected directory contains the other comparison root"@,
{
    if item_tree_holds(left_item, right_root) || item_tree_holds(right_item, left_root) {
        return Err(
            "Copy and delete are disabled when a selected directory contains the other comparison root".to_owned(),
        );
    }
    Ok(())
}

/// What is there now under the path of a row.
#[derive(Debug)]
pub enum CaptureOutcome {
    Found(DiffAuthorizedItem),
    NotFound,
    Failed(String),
}

/// Why the item of a side may not be used. `expected` is what the comparison saw.
pub open spec fn item_error(
    expected: Option<DiffFileInfo>,
    current: CaptureOutcome,
    side: Seq<char>,
) -> Option<Seq<char>> {
    if expected is Some && expected->0.authorization is None {
        Some(
            "Diff "@ + side
                + " item identity is unavailable; close and reopen the comparison"@,
        )
    } else {
        match current {
            CaptureOutcome::Failed(error) => Some(error@),
            CaptureOutcome::NotFound => if expected is Some {
                Some(
                    "Diff "@ + side
                        + " item disappeared since the comparison; close and reopen it before continuing"@,
                )
            } else {
                None
            },
            CaptureOutcome::Found(item) => match expected {
                None => Some(
                    "Diff "@ + side
                        + " item appeared since the comparison; close and reopen it before continuing"@,
                ),
                Some(info) => if info.authorization->0 != item.item {
                    Some(
                        "Diff "@ + side
                            + " item changed since the comparison; close and reopen it before continuing"@,
                    )
                } else {
                    None
                },
            },
        }
    }
}

/// The item of a side, where it is still what the comparison saw.
pub fn capture_expected_diff_item(
    expected: &Option<DiffFileInfo>,
    current: CaptureOutcome,
    side: &str,
) -> (r: Result<Option<DiffAuthorizedItem>, String>)
    ensures
        match item_error(*expected, current, side@) {
            Some(error) => r matches Err(e) && e@ == error,
            None => r == Ok::<Option<DiffAuthorizedItem>, String>(
                match current {
                    CaptureOutcome::Found(item) => Some(item),
                    _ => None,
                },
            ),
        },
{
    if let Some(info) = expected {
        if info.authorization.is_none() {
            return Err(
                concat3(
                    "Diff ",
                    side,
                    " item identity is unavailable; close and reopen the comparison",
                ),
            );
        }
    }
    match current {
        CaptureOutcome::Failed(error) => Err(error),
        CaptureOutcome::NotFound => if expected.is_some() {
            Err(
                concat3(
                    "Diff ",
                    side,
                    " item disappeared since the comparison; close and reopen it before continuing",
                ),
            )
        } else {
            Ok(None)
        },
        CaptureOutcome::Found(item) => match expected {
            None => Err(
                concat3(
                    "Diff ",
                    side,
                    " item appeared since the comparison; close and reopen it before continuing",
                ),
            ),
            Some(info) => {
                let seen: PathAuthorization = info.authorization.unwrap();
                if seen != item.item {
                    Err(
                        concat3(
                            "Diff ",
                            side,
                            " item changed since the comparison; close and reopen it before continuing",
                        ),
                    )
                } else {
                    Ok(Some(item))
                }
            },
        },
    }
}

/// What looking at one side of a row again came to.
#[derive(Debug)]
pub struct SideFacts {
    /// What is there, where the comparison saw something.
    pub current: CaptureOutcome,
    /// Whether it is still missing, where the comparison saw nothing.
    pub absent: Result<(), String>,
}

/// Why one side of a row may not be used.
pub open spec fn side_error(
    expected: Option<DiffFileInfo>,
    missing: Option<MissingPathAuthorization>,
    facts: SideFacts,
    side: Seq<char>,
) -> Option<Seq<char>> {
    if expected is Some {
        item_error(expected, facts.current, side)
    } else if missing is None {
        Some(
            "Diff "@ + side + " missing-path identity is unavailable; restart the comparison"@,
        )
    } else if facts.absent is Err {
        Some(facts.absent->Err_0@)
    } else {
        None
    }
}

/// The item that one side of a row has, where nothing speaks against it.
pub open spec fn side_item(expected: Option<DiffFileInfo>, facts: SideFacts) -> Option<
    DiffAuthorizedItem,
> {
    if expected is Some {
        match facts.current {
            CaptureOutcome::Found(item) => Some(item),
            _ => None,
        }
    } else {
        None
    }
}

/// The absence that one side of a row has, where nothing speaks against it.
pub open spec fn side_missing(
    expected: Option<DiffFileInfo>,
    missing: Option<MissingPathAuthorization>,
) -> Option<MissingPathAuthorization> {
    if expected is Some {
        None
    } else {
        missing
    }
}

/// One side of a row, where it is still what the comparison saw: an item, or the
/// absence of one.
pub fn capture_expected_diff_side(
    expected: &Option<DiffFileInfo>,
    expected_missing: &Option<MissingPathAuthorization>,
    facts: SideFacts,
    side: &str,
) -> (r: Result<(Option<DiffAuthorizedItem>, Option<MissingPathAuthorization>), String>)
    ensures
        match side_error(*expected, *expected_missing, facts, side@) {
            Some(error) => r matches Err(e) && e@ == error,
            None => {
                &&& r == Ok::<
                    (Option<DiffAuthorizedItem>, Option<MissingPathAuthorization>),
                    String,
                >((side_item(*expected, facts), side_missing(*expected, *expected_missing)))
                &&& r->Ok_0.0 is Some == expected is Some
                &&& r->Ok_0.1 is Some == expected is None
            },
        },
{
    if expected.is_some() {
        return match capture_expected_diff_item(expected, facts.current, side) {
            Err(error) => Err(error),
            Ok(item) => Ok((item, None)),
        };
    }
    match expected_missing {
        None => Err(
            concat3(
                "Diff ",
                side,
                " missing-path identity is unavailable; restart the comparison",
            ),
        ),
        Some(missing) => match facts.absent {
            Err(error) => Err(error),
            Ok(_) => Ok((None, Some(missing.clone()))),
        },
    }
}

/// A path that goes down from a root has no component that leads out of it, and may
/// not begin at the root of the system or at the directory itself.
pub proof fn law_path_of_a_row_stays_below_its_root(path: Seq<char>, rest: Seq<char>)
    ensures
        !goes_down(Seq::empty()),
        !goes_down("/"@ + rest),
        !goes_down("."@),
        !goes_down(".."@),
        !goes_down("./"@ + rest),
        goes_down(path) ==> forall|i: int|
            0 <= i < split_on(path, '/').len() ==> #[trigger] split_on(path, '/')[i] != seq!['.', '.'],
{
    reveal_strlit("/");
    reveal_strlit(".");
    reveal_strlit("..");
    reveal_strlit("./");
    assert(("/"@ + rest)[0] == '/');
    reveal_with_fuel(split_on, 4);
    assert("."@ =~= seq!['.']);
    assert(".."@ =~= seq!['.', '.']);
    law_last_piece(Seq::empty(), "."@, '/');
    law_last_piece(Seq::empty(), ".."@, '/');
    assert(split_on(".."@, '/')[0] == seq!['.', '.']);
    assert(split_on(".."@, '/').contains(seq!['.', '.']));
    law_first_piece("."@, rest, '/');
    assert("./"@ + rest =~= "."@ + seq!['/'] + rest);
    if goes_down(path) {
        assert forall|i: int| 0 <= i < split_on(path, '/').len() implies #[trigger] split_on(
            path,
            '/',
        )[i] != seq!['.', '.'] by {
            if split_on(path, '/')[i] == seq!['.', '.'] {
                assert(split_on(path, '/').contains(seq!['.', '.']));
            }
        }
    }
}

/// Two roots overlap whichever of them is named first, a root overlaps itself, and one
/// that lies below the other overlaps it.
pub proof fn law_overlap_has_no_direction(
    left: DirectoryAuthorization,
    right: DirectoryAuthorization,
)
    ensures
        roots_overlap(left, right) == roots_overlap(right, left),
        left.resolved_path@ == right.resolved_path@ ==> roots_overlap(left, right),
        begins_with(left.resolved_path@, right.resolved_path@) ==> roots_overlap(left, right),
        begins_with(right.resolved_path@, left.resolved_path@) ==> roots_overlap(left, right),
        left.is_same_object(right) ==> roots_overlap(left, right),
{
    let path = components(left.resolved_path@);
    assert(path.take(path.len() as int) =~= path);
}

/// An item may be used exactly where it is still what the comparison saw: the same thing,
/// or nothing where there was nothing.
pub proof fn law_item_is_used_only_unchanged(
    expected: Option<DiffFileInfo>,
    item: DiffAuthorizedItem,
    error: String,
    side: Seq<char>,
)
    ensures
        item_error(expected, CaptureOutcome::Failed(error), side) is Some,
        item_error(expected, CaptureOutcome::NotFound, side) is None <==> expected is None,
        item_error(expected, CaptureOutcome::Found(item), side) is None <==> (expected is Some
            && expected->0.authorization == Some(item.item)),
{
}

/// A side is used with its item where the comparison saw one there, and with its absence
/// where it saw none; never with both.
pub proof fn law_side_has_an_item_or_an_absence(
    expected: Option<DiffFileInfo>,
    missing: Option<MissingPathAuthorization>,
    facts: SideFacts,
    side: Seq<char>,
)
    requires
        side_error(expected, missing, facts, side) is None,
    ensures
        expected is Some ==> {
            &&& facts.current matches CaptureOutcome::Found(item)
            &&& side_item(expected, facts) == Some(item)
            &&& expected->0.authorization == Some(item.item)
            &&& side_missing(expected, missing) is None
        },
        expected is None ==> {
            &&& side_item(expected, facts) is None
            &&& side_missing(expected, missing) == missing
            &&& missing is Some
            &&& facts.absent is Ok
        },
{
}

/// Before an item is used, its directory and the item itself are seen again, and so is
/// the whole tree where it is one.
pub proof fn law_item_is_seen_again(
    name: Seq<char>,
    item: ItemView,
    parent_role: Seq<char>,
    role: Seq<char>,
)
    ensures
        ({
            let checks = item_checks(name, item, parent_role, role);
            let path = joined_path(item.parent.resolved_path@, name);
            &&& checks.contains(
                CheckView::Directory(item.parent.resolved_path@, item.parent, parent_role),
            )
            &&& checks.contains(CheckView::Path(path, item.item, role))
            &&& item.tree matches Some(tree) ==> checks.contains(CheckView::Tree(path, tree, role))
        }),
{
    let checks = item_checks(name, item, parent_role, role);
    let path = joined_path(item.parent.resolved_path@, name);
    assert(checks[0] == CheckView::Directory(item.parent.resolved_path@, item.parent, parent_role));
    assert(checks[1] == CheckView::Path(path, item.item, role));
    if let Some(tree) = item.tree {
        assert(checks[2] == CheckView::Tree(path, tree, role));
    }
}

/// The roots may be used only where both are known and both were seen again.
pub proof fn law_roots_are_used_only_unchanged(
    state: DiffState,
    left: Result<(), String>,
    right: Result<(), String>,
)
    ensures
        roots_error(state, left, right) is None <==> {
            &&& state.left_root_authorization is Some
            &&& state.right_root_authorization is Some
            &&& left is Ok
            &&& right is Ok
        },
{
}

} // verus!
