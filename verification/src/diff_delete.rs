//! Deleting an item of the comparison on one side or on both.

use crate::app_state::App;
use crate::authorization::{DirectoryAuthorization, MissingPathAuthorization};
use crate::dialogs::{dialog_view, Dialog, DialogType};
use crate::diff_copy::{
    dialog_told, prepare_sides, prompt_error, prompted_sides, row_dialog, DialogKey, PreparedSides,
    PromptFacts,
};
use crate::diff_items::{
    add_directory_check, add_item_checks, check_views, directory_check, item_checks, CheckView,
    DiffCheck,
};
use crate::diff_state::{DiffAuthorizedItem, DiffDeletePrompt, DiffState};
use crate::paths::{components, join_path, joined_path, local_name, name_of_path, same_path};
use crate::progress::FileOperationType;
use crate::screens::begins_operation;
use crate::text::{concat2, concat3};
use vstd::prelude::*;

verus! {

/// Where an item of the comparison is deleted.
#[derive(Debug, Clone, Copy, PartialEq, Eq, Structural)]
pub enum DiffDeleteDirection {
    Left,
    Right,
    Both,
}

/// Something to delete.
#[derive(Debug)]
pub struct PreparedDiffDeleteTarget {
    pub side: String,
    pub root: DirectoryAuthorization,
    pub path: String,
    pub selected: DiffAuthorizedItem,
}

/// A side that had nothing, and how that was seen.
#[derive(Debug)]
pub struct AbsenceCheck {
    pub side: String,
    pub missing: MissingPathAuthorization,
}

/// Something to delete, as a value.
pub struct TargetView {
    pub side: Seq<char>,
    pub root: DirectoryAuthorization,
    pub path: Seq<char>,
    pub selected: crate::diff_items::ItemView,
}

impl View for PreparedDiffDeleteTarget {
    type V = TargetView;

    open spec fn view(&self) -> TargetView {
        TargetView {
            side: self.side@,
            root: self.root,
            path: self.path@,
            selected: self.selected@,
        }
    }
}

impl View for AbsenceCheck {
    type V = (Seq<char>, MissingPathAuthorization);

    open spec fn view(&self) -> (Seq<char>, MissingPathAuthorization) {
        (self.side@, self.missing)
    }
}

/// What is to be deleted, as values.
pub open spec fn target_views(targets: Seq<PreparedDiffDeleteTarget>) -> Seq<TargetView> {
    Seq::new(targets.len(), |i: int| targets[i]@)
}

/// The sides that had nothing, as values.
pub open spec fn absence_views(absences: Seq<AbsenceCheck>) -> Seq<
    (Seq<char>, MissingPathAuthorization),
> {
    Seq::new(absences.len(), |i: int| absences[i]@)
}

/// Whether the prompt holds what was seen of the row.
pub open spec fn is_delete_prompt(prompt: DiffDeletePrompt, path: Seq<char>, sides: PreparedSides) -> bool {
    &&& prompt.relative_path@ == path
    &&& prompt.left_root == sides.left_root
    &&& prompt.right_root == sides.right_root
    &&& prompt.left_item == sides.left_item
    &&& prompt.right_item == sides.right_item
    &&& prompt.left_missing == sides.left_missing
    &&& prompt.right_missing == sides.right_missing
    &&& prompt.contains_directory == (is_directory_item(sides.left_item) || is_directory_item(
        sides.right_item,
    ))
}

/// Whether the item is a directory.
pub open spec fn is_directory_item(item: Option<DiffAuthorizedItem>) -> bool {
    item matches Some(i) && i.item.directory
}

fn has_directory(item: &Option<DiffAuthorizedItem>) -> (r: bool)
    ensures
        r == is_directory_item(*item),
{
    match item {
        Some(item) => item.item.is_directory(),
        None => false,
    }
}

/// Why a side that has nothing speaks against a deletion. `absent` is whether it
/// still has nothing.
pub open spec fn absence_error(
    item: Option<DiffAuthorizedItem>,
    missing: Option<MissingPathAuthorization>,
    absent: Result<(), String>,
    side: Seq<char>,
) -> Option<Seq<char>> {
    if item is Some {
        None
    } else if missing is None {
        Some("Diff "@ + side + " absence is no longer authorized; restart the comparison"@)
    } else if absent is Err {
        Some(absent->Err_0@)
    } else {
        None
    }
}

/// Whether a side that had nothing still has nothing.
pub fn verify_diff_delete_side_absence(
    item: &Option<DiffAuthorizedItem>,
    missing: &Option<MissingPathAuthorization>,
    absent: &Result<(), String>,
    side: &str,
) -> (r: Result<(), String>)
    ensures
        match absence_error(*item, *missing, *absent, side@) {
            Some(error) => r matches Err(e) && e@ == error,
            None => r is Ok,
        },
{
    if item.is_some() {
        return Ok(());
    }
    if missing.is_none() {
        return Err(
            concat3("Diff ", side, " absence is no longer authorized; restart the comparison"),
        );
    }
    match absent {
        Ok(_) => Ok(()),
        Err(error) => Err(error.clone()),
    }
}

/// What is to be deleted of one side.
pub open spec fn target_on(
    side: Seq<char>,
    root: DirectoryAuthorization,
    item: DiffAuthorizedItem,
    name: Seq<char>,
) -> TargetView {
    TargetView {
        side,
        root,
        path: joined_path(item.parent.resolved_path@, name),
        selected: item@,
    }
}

fn make_target(side: &str, root: &DirectoryAuthorization, item: &DiffAuthorizedItem, name: &str) -> (r:
    PreparedDiffDeleteTarget)
    ensures
        r@ == target_on(side@, *root, *item, name@),
{
    PreparedDiffDeleteTarget {
        side: side.to_owned(),
        root: root.clone(),
        path: join_path(item.parent.resolved_path.as_str(), name),
        selected: item.copy(),
    }
}

/// What has to be seen again of something to delete.
pub open spec fn target_checks(target: TargetView, name: Seq<char>) -> Seq<CheckView> {
    seq![directory_check(target.root, "Diff "@ + target.side + " root"@)] + item_checks(
        name,
        target.selected,
        "Diff "@ + target.side + " delete parent"@,
        "Diff "@ + target.side + " delete target"@,
    )
}

/// What has to be seen again of all that is to be deleted.
pub open spec fn all_target_checks(targets: Seq<TargetView>, name: Seq<char>) -> Seq<CheckView>
    decreases targets.len(),
{
    if targets.len() == 0 {
        Seq::empty()
    } else {
        all_target_checks(targets.drop_last(), name) + target_checks(targets.last(), name)
    }
}

/// Adds what has to be seen again of something to delete.
pub fn verify_diff_delete_target(
    checks: &mut Vec<DiffCheck>,
    target: &PreparedDiffDeleteTarget,
    name: &str,
)
    ensures
        check_views(final(checks)@) == check_views(old(checks)@) + target_checks(target@, name@),
{
    let ghost before = check_views(checks@);
    let side = target.side.as_str();
    add_directory_check(checks, &target.root, concat3("Diff ", side, " root"));
    add_item_checks(
        checks,
        name,
        &target.selected,
        concat3("Diff ", side, " delete parent"),
        concat3("Diff ", side, " delete target"),
    );
    assert(check_views(checks@) =~= before + target_checks(target@, name@));
}

/// Why a deletion cannot go ahead, before what is to be deleted was seen again.
pub open spec fn delete_error(
    prompt: DiffDeletePrompt,
    direction: DiffDeleteDirection,
    left: Result<(), String>,
    right: Result<(), String>,
) -> Option<Seq<char>> {
    let left_error = absence_error(prompt.left_item, prompt.left_missing, left, "left"@);
    let right_error = absence_error(prompt.right_item, prompt.right_missing, right, "right"@);
    match direction {
        DiffDeleteDirection::Left => if left_error is Some {
            left_error
        } else if prompt.left_item is None {
            Some("Nothing exists on the left to delete"@)
        } else {
            None
        },
        DiffDeleteDirection::Right => if right_error is Some {
            right_error
        } else if prompt.right_item is None {
            Some("Nothing exists on the right to delete"@)
        } else {
            None
        },
        DiffDeleteDirection::Both => if left_error is Some {
            left_error
        } else if right_error is Some {
            right_error
        } else if prompt.left_item is None && prompt.right_item is None {
            Some("Nothing remains on either side to delete"@)
        } else {
            None
        },
    }
}

/// What is to be deleted. An entry that both sides share is deleted once.
pub open spec fn delete_targets(
    prompt: DiffDeletePrompt,
    direction: DiffDeleteDirection,
    name: Seq<char>,
) -> Seq<TargetView> {
    let on_left = target_on("left"@, prompt.left_root, prompt.left_item->0, name);
    let on_right = target_on("right"@, prompt.right_root, prompt.right_item->0, name);
    let left = direction != DiffDeleteDirection::Right && prompt.left_item is Some;
    let right = direction != DiffDeleteDirection::Left && prompt.right_item is Some;
    if left && right {
        if components(on_left.path) == components(on_right.path) {
            seq![TargetView { side: "left and right"@, ..on_left }]
        } else {
            seq![on_left, on_right]
        }
    } else if left {
        seq![on_left]
    } else if right {
        seq![on_right]
    } else {
        Seq::empty()
    }
}

/// The sides whose absence is looked at once more just before a deletion on both.
pub open spec fn absences_to_check(prompt: DiffDeletePrompt, direction: DiffDeleteDirection) -> Seq<
    (Seq<char>, MissingPathAuthorization),
> {
    if direction != DiffDeleteDirection::Both {
        Seq::empty()
    } else {
        let left = if prompt.left_item is None {
            seq![("left"@, prompt.left_missing->0)]
        } else {
            Seq::empty()
        };
        if prompt.right_item is None {
            left.push(("right"@, prompt.right_missing->0))
        } else {
            left
        }
    }
}

/// A deletion that was agreed to, before what it deletes was seen again.
#[derive(Debug)]
pub struct DiffDeletePlan {
    pub operation_path: String,
    pub targets: Vec<PreparedDiffDeleteTarget>,
    pub absences: Vec<AbsenceCheck>,
    /// What has to be seen again, in this order.
    pub checks: Vec<DiffCheck>,
}

/// Whether the plan is the deletion of the prompt.
pub open spec fn is_delete_plan(
    plan: DiffDeletePlan,
    prompt: DiffDeletePrompt,
    direction: DiffDeleteDirection,
    name: Seq<char>,
) -> bool {
    &&& plan.operation_path@ == prompt.relative_path@
    &&& target_views(plan.targets@) == delete_targets(prompt, direction, name)
    &&& absence_views(plan.absences@) == absences_to_check(prompt, direction)
    &&& check_views(plan.checks@) == all_target_checks(
        delete_targets(prompt, direction, name),
        name,
    )
}

/// What agreeing to a deletion comes to.
pub open spec fn plans_delete(
    prompt: Option<DiffDeletePrompt>,
    direction: DiffDeleteDirection,
    left: Result<(), String>,
    right: Result<(), String>,
    r: Result<DiffDeletePlan, String>,
) -> bool {
    match prompt {
        None => r matches Err(e) && e@
            == "Delete selection changed; close the dialog and try again"@,
        Some(prompt) => match local_name(prompt.relative_path@) {
            None => r matches Err(e) && e@ == "Selected difference has no file name"@,
            Some(name) => match delete_error(prompt, direction, left, right) {
                Some(error) => r matches Err(e) && e@ == error,
                None => r matches Ok(plan) && is_delete_plan(plan, prompt, direction, name),
            },
        },
    }
}

/// What the delete dialog is to do.
#[derive(Debug, Clone, Copy, PartialEq, Eq, Structural)]
pub enum DeleteDialogAction {
    Delete(DiffDeleteDirection),
    Cancel,
    Ignore,
}

/// What a key in the delete dialog asks for.
pub open spec fn delete_key(key: DialogKey) -> DeleteDialogAction {
    match key {
        DialogKey::Left => DeleteDialogAction::Delete(DiffDeleteDirection::Left),
        DialogKey::Right => DeleteDialogAction::Delete(DiffDeleteDirection::Right),
        DialogKey::Down => DeleteDialogAction::Delete(DiffDeleteDirection::Both),
        DialogKey::Up | DialogKey::Enter | DialogKey::Esc => DeleteDialogAction::Cancel,
        DialogKey::Other => DeleteDialogAction::Ignore,
    }
}

/// What a key in the delete dialog asks for.
pub fn delete_dialog_action(key: DialogKey) -> (r: DeleteDialogAction)
    ensures
        r == delete_key(key),
{
    match key {
        DialogKey::Left => DeleteDialogAction::Delete(DiffDeleteDirection::Left),
        DialogKey::Right => DeleteDialogAction::Delete(DiffDeleteDirection::Right),
        DialogKey::Down => DeleteDialogAction::Delete(DiffDeleteDirection::Both),
        DialogKey::Up | DialogKey::Enter | DialogKey::Esc => DeleteDialogAction::Cancel,
        DialogKey::Other => DeleteDialogAction::Ignore,
    }
}

/// What asking to delete the row under the cursor does.
pub open spec fn asks_delete(
    before: App,
    after: App,
    facts: PromptFacts,
) -> bool {
    match before.diff_state {
        None => after == before,
        Some(state) => match state.cursor_row() {
            None => after == before,
            Some(row) => {
                let entry = state.all_entries@[row];
                &&& after == (App {
                    diff_state: after.diff_state,
                    dialog: after.dialog,
                    ..before
                })
                &&& after.diff_state == Some(
                    DiffState { delete_prompt: after.delete_prompt(), ..state },
                )
                &&& match prompt_error(state, entry, facts, true) {
                    Some(error) => {
                        &&& after.delete_prompt() is None
                        &&& dialog_view(after.dialog) == Some(
                            row_dialog(
                                DialogType::DiffDelete,
                                entry.relative_path@,
                                "Cannot prepare deletion: "@ + error,
                            ),
                        )
                    },
                    None => {
                        &&& after.delete_prompt() matches Some(prompt)
                        &&& is_delete_prompt(
                            prompt,
                            entry.relative_path@,
                            prompted_sides(state, entry, facts),
                        )
                        &&& dialog_view(after.dialog) == Some(
                            row_dialog(
                                DialogType::DiffDelete,
                                entry.relative_path@,
                                Seq::empty(),
                            ),
                        )
                    },
                }
            },
        },
    }
}

/// What starting a deletion that was agreed to comes to.
pub open spec fn starts_delete(
    before: App,
    after: App,
    plan: DiffDeletePlan,
    checked: Result<(), String>,
    r: Result<DiffDeletePlan, String>,
) -> bool {
    match checked {
        Err(error) => after == before && r == Err::<DiffDeletePlan, String>(
            error,
        ),
        Ok(_) => {
            &&& r matches Ok(job)
            &&& job == plan
            &&& begins_operation(
                App {
                    diff_state: match before.diff_state {
                        Some(state) => Some(
                            DiffState {
                                delete_prompt: None,
                                delete_in_progress: true,
                                pending_delete_path: Some(plan.operation_path),
                                ..state
                            },
                        ),
                        None => None,
                    },
                    ..before
                },
                after,
                FileOperationType::Delete,
            )
        },
    }
}

impl App {
    /// The prompt of the open delete dialog.
    pub open spec fn delete_prompt(self) -> Option<DiffDeletePrompt> {
        match self.diff_state {
            Some(state) => state.delete_prompt,
            None => None,
        }
    }

    /// Asks on which side the row under the cursor is to be deleted.
    pub fn open_delete_dialog(&mut self, facts: PromptFacts)
        ensures
            asks_delete(*old(self), *final(self), facts),
    {
        if self.diff_state.is_none() {
            return;
        }
        let entry = match &self.diff_state {
            None => {
                return;
            },
            Some(state) => match state.current_entry() {
                None => {
                    return;
                },
                Some(entry) => entry.clone(),
            },
        };
        let mut state = self.diff_state.take().unwrap();
        let message = match prepare_sides(&state, &entry, facts, true) {
            Err(error) => {
                state.delete_prompt = None;
                concat2("Cannot prepare deletion: ", error.as_str())
            },
            Ok(sides) => {
                let contains_directory = has_directory(&sides.left_item) || has_directory(
                    &sides.right_item,
                );
                state.delete_prompt =
                Some(
                    DiffDeletePrompt {
                        relative_path: entry.relative_path.clone(),
                        left_root: sides.left_root,
                        right_root: sides.right_root,
                        left_item: sides.left_item,
                        right_item: sides.right_item,
                        left_missing: sides.left_missing,
                        right_missing: sides.right_missing,
                        contains_directory,
                    },
                );
                String::new()
            },
        };
        self.diff_state = Some(state);
        let mut dialog = Dialog::plain(DialogType::DiffDelete, entry.relative_path, message);
        dialog.selected_button = 1;
        self.dialog = Some(dialog);
    }

    /// Says in the delete dialog why nothing was deleted.
    pub fn set_delete_dialog_error(&mut self, message: String)
        ensures
            *final(self) == (App { dialog: final(self).dialog, ..*old(self) }),
            dialog_view(final(self).dialog) == dialog_told(
                old(self).dialog,
                DialogType::DiffDelete,
                message@,
            ),
    {
        self.tell_dialog(DialogType::DiffDelete, message);
    }

    /// Closes the delete dialog.
    pub fn cancel_delete_dialog(&mut self)
        ensures
            *final(self) == (App {
                dialog: None,
                diff_state: match old(self).diff_state {
                    Some(state) => Some(DiffState { delete_prompt: None, ..state }),
                    None => None,
                },
                ..*old(self)
            }),
    {
        if let Some(mut state) = self.diff_state.take() {
            state.delete_prompt = None;
            self.diff_state = Some(state);
        }
        self.dialog = None;
    }

    /// The deletion that was agreed to, and what has to be seen again before it.
    /// `left` and `right` are whether a side that had nothing still has nothing.
    pub fn plan_diff_delete(
        &self,
        direction: DiffDeleteDirection,
        left: Result<(), String>,
        right: Result<(), String>,
    ) -> (r: Result<DiffDeletePlan, String>)
        ensures
            plans_delete(self.delete_prompt(), direction, left, right, r),
    {
        let gone = "Delete selection changed; close the dialog and try again";
        let prompt: &DiffDeletePrompt = match &self.diff_state {
            None => {
                return Err(gone.to_owned());
            },
            Some(state) => match &state.delete_prompt {
                None => {
                    return Err(gone.to_owned());
                },
                Some(prompt) => prompt,
            },
        };
        let file_name = match name_of_path(prompt.relative_path.as_str()) {
            None => {
                return Err("Selected difference has no file name".to_owned());
            },
            Some(name) => name,
        };
        let on_left = direction != DiffDeleteDirection::Right;
        let on_right = direction != DiffDeleteDirection::Left;
        if on_left {
            if let Err(error) = verify_diff_delete_side_absence(
                &prompt.left_item,
                &prompt.left_missing,
                &left,
                "left",
            ) {
                return Err(error);
            }
        }
        if on_right {
            if let Err(error) = verify_diff_delete_side_absence(
                &prompt.right_item,
                &prompt.right_missing,
                &right,
                "right",
            ) {
                return Err(error);
            }
        }
        let mut targets: Vec<PreparedDiffDeleteTarget> = Vec::new();
        let mut absences: Vec<AbsenceCheck> = Vec::new();
        let ghost left_target = target_on(
            "left"@,
            prompt.left_root,
            prompt.left_item->0,
            file_name@,
        );
        let ghost right_target = target_on(
            "right"@,
            prompt.right_root,
            prompt.right_item->0,
            file_name@,
        );
        if on_left {
            match &prompt.left_item {
                Some(item) => {
                    targets.push(make_target("left", &prompt.left_root, item, file_name.as_str()));
                },
                None => {
                    if on_right {
                        if let Some(missing) = &prompt.left_missing {
                            absences.push(
                                AbsenceCheck { side: "left".to_owned(), missing: missing.clone() },
                            );
                        }
                    }
                },
            }
        }
        assert(target_views(targets@) =~= if on_left && prompt.left_item is Some {
            seq![left_target]
        } else {
            Seq::empty()
        });
        assert(absence_views(absences@) =~= if on_left && on_right && prompt.left_item is None {
            seq![("left"@, prompt.left_missing->0)]
        } else {
            Seq::empty()
        });
        if on_right {
            match &prompt.right_item {
                Some(item) => {
                    targets.push(
                        make_target("right", &prompt.right_root, item, file_name.as_str()),
                    );
                },
                None => {
                    if on_left {
                        if let Some(missing) = &prompt.right_missing {
                            absences.push(
                                AbsenceCheck { side: "right".to_owned(), missing: missing.clone() },
                            );
                        }
                    }
                },
            }
        }
        assert(absence_views(absences@) =~= absences_to_check(*prompt, direction));
        if targets.len() == 0 {
            assert(target_views(targets@).len() == 0);
            return Err(
                match direction {
                    DiffDeleteDirection::Left => "Nothing exists on the left to delete".to_owned(),
                    DiffDeleteDirection::Right => "Nothing exists on the right to delete".to_owned(),
                    DiffDeleteDirection::Both => "Nothing remains on either side to delete".to_owned(),
                },
            );
        }
        if targets.len() == 2 {
            assert(target_views(targets@) =~= seq![left_target, right_target]);
            assert(targets@[0]@ == target_views(targets@)[0]);
            assert(targets@[1]@ == target_views(targets@)[1]);
            if same_path(targets[0].path.as_str(), targets[1].path.as_str()) {
                targets.pop();
                targets[0].side = "left and right".to_owned();
                assert(target_views(targets@) =~= seq![
                    TargetView { side: "left and right"@, ..left_target },
                ]);
            }
        }
        assert(target_views(targets@) =~= delete_targets(*prompt, direction, file_name@));
        let ghost views = target_views(targets@);
        let mut checks: Vec<DiffCheck> = Vec::new();
        let mut i: usize = 0;
        assert(check_views(checks@) =~= Seq::empty());
        while i < targets.len()
            invariant
                i <= targets@.len(),
                views == target_views(targets@),
                check_views(checks@) == all_target_checks(views.take(i as int), file_name@),
            decreases targets@.len() - i,
        {
            assert(views.take(i + 1).drop_last() =~= views.take(i as int));
            verify_diff_delete_target(&mut checks, &targets[i], file_name.as_str());
            i += 1;
        }
        assert(views.take(i as int) =~= views);
        Ok(
            DiffDeletePlan {
                operation_path: prompt.relative_path.clone(),
                targets,
                absences,
                checks,
            },
        )
    }

    /// Begins a deletion once what it deletes was seen again.
    pub fn start_diff_delete(&mut self, plan: DiffDeletePlan, checked: Result<(), String>) -> (r:
        Result<DiffDeletePlan, String>)
        ensures
            starts_delete(*old(self), *final(self), plan, checked, r),
    {
        if let Err(error) = checked {
            return Err(error);
        }
        if let Some(mut state) = self.diff_state.take() {
            state.delete_prompt = None;
            state.delete_in_progress = true;
            state.pending_delete_path = Some(plan.operation_path.clone());
            self.diff_state = Some(state);
        }
        self.begin_directory_operation(FileOperationType::Delete);
        Ok(plan)
    }
}

impl DiffState {
    /// Whether there is something to delete on the left and on the right, and
    /// whether one of them is a directory.
    pub fn delete_prompt_availability(&self) -> (r: (bool, bool, bool))
        ensures
            r == delete_sides(self.delete_prompt),
    {
        match &self.delete_prompt {
            Some(prompt) => (
                prompt.left_item.is_some(),
                prompt.right_item.is_some(),
                prompt.contains_directory,
            ),
            None => (false, false, false),
        }
    }

    /// Whether a deletion is under way.
    pub fn delete_in_progress(&self) -> (r: bool)
        ensures
            r == self.delete_in_progress,
    {
        self.delete_in_progress
    }
}

/// No directory entry is deleted twice, and nothing is deleted on a side that was
/// not asked for.
pub proof fn law_each_entry_is_deleted_once(
    prompt: DiffDeletePrompt,
    direction: DiffDeleteDirection,
    name: Seq<char>,
)
    ensures
        forall|i: int, j: int|
            0 <= i < j < delete_targets(prompt, direction, name).len() ==> components(
                (#[trigger] delete_targets(prompt, direction, name)[i]).path,
            ) != components((#[trigger] delete_targets(prompt, direction, name)[j]).path),
        direction == DiffDeleteDirection::Left ==> forall|i: int|
            0 <= i < delete_targets(prompt, direction, name).len() ==> (
            #[trigger] delete_targets(prompt, direction, name)[i]).root == prompt.left_root,
        direction == DiffDeleteDirection::Right ==> forall|i: int|
            0 <= i < delete_targets(prompt, direction, name).len() ==> (
            #[trigger] delete_targets(prompt, direction, name)[i]).root == prompt.right_root,
{
}

/// Whether one of the targets is this item of this root.
pub open spec fn deletes(
    plan: DiffDeletePlan,
    item: DiffAuthorizedItem,
    root: DirectoryAuthorization,
) -> bool {
    exists|i: int|
        0 <= i < plan.targets@.len() && (#[trigger] plan.targets@[i]).selected@ == item@
            && plan.targets@[i].root == root
}

/// A deletion on one side deletes the item of that side and no other; one on both deletes
/// what is there on either, and where both are the same entry, that one.
pub proof fn law_deletion_is_on_the_side_asked_for(
    prompt: DiffDeletePrompt,
    direction: DiffDeleteDirection,
    left: Result<(), String>,
    right: Result<(), String>,
    plan: DiffDeletePlan,
)
    requires
        plans_delete(Some(prompt), direction, left, right, Ok(plan)),
    ensures
        plan.operation_path@ == prompt.relative_path@,
        plan.targets@.len() > 0,
        direction == DiffDeleteDirection::Left ==> {
            &&& prompt.left_item matches Some(item)
            &&& plan.targets@.len() == 1
            &&& deletes(plan, item, prompt.left_root)
            &&& plan.targets@[0].side@ == "left"@
        },
        direction == DiffDeleteDirection::Right ==> {
            &&& prompt.right_item matches Some(item)
            &&& plan.targets@.len() == 1
            &&& deletes(plan, item, prompt.right_root)
            &&& plan.targets@[0].side@ == "right"@
        },
        direction == DiffDeleteDirection::Both ==> {
            &&& prompt.left_item matches Some(item) ==> deletes(plan, item, prompt.left_root)
            &&& prompt.left_item is None ==> plan.targets@.len() == 1
            &&& prompt.right_item matches Some(item) ==> {
                ||| deletes(plan, item, prompt.right_root)
                ||| prompt.left_item is Some && plan.targets@.len() == 1
                    && plan.targets@[0].side@ == "left and right"@ && components(
                    joined_path(
                        prompt.left_item->0.parent.resolved_path@,
                        local_name(prompt.relative_path@)->0,
                    ),
                ) == components(
                    joined_path(
                        item.parent.resolved_path@,
                        local_name(prompt.relative_path@)->0,
                    ),
                )
            }
        },
        forall|i: int|
            0 <= i < plan.targets@.len() ==> {
                let target = #[trigger] plan.targets@[i];
                target.path@ == joined_path(
                    target.selected@.parent.resolved_path@,
                    local_name(prompt.relative_path@)->0,
                )
            },
{
    let name = local_name(prompt.relative_path@)->0;
    let wanted = delete_targets(prompt, direction, name);
    let views = target_views(plan.targets@);
    assert(views.len() == plan.targets@.len());
    assert(wanted.len() == plan.targets@.len());
    assert forall|i: int| 0 <= i < plan.targets@.len() implies (#[trigger] plan.targets@[i])@
        == wanted[i] by {
        assert(views[i] == plan.targets@[i]@);
    }
    assert(plan.targets@[0]@ == wanted[0]);
    if wanted.len() > 1 {
        assert(plan.targets@[1]@ == wanted[1]);
    }
    if let Some(item) = prompt.left_item {
        if direction != DiffDeleteDirection::Right {
            assert(plan.targets@[0].selected@ == item@);
            assert(plan.targets@[0].root == prompt.left_root);
        }
    }
    if let Some(item) = prompt.right_item {
        if direction == DiffDeleteDirection::Right {
            assert(plan.targets@[0].selected@ == item@);
        }
    }
}

/// A side that had nothing is looked at before a deletion on it, and once more before one
/// on both; the deletion goes ahead only where there still is nothing.
pub proof fn law_deletion_asks_for_absences(
    prompt: DiffDeletePrompt,
    direction: DiffDeleteDirection,
    left: Result<(), String>,
    right: Result<(), String>,
    plan: DiffDeletePlan,
)
    requires
        plans_delete(Some(prompt), direction, left, right, Ok(plan)),
    ensures
        direction != DiffDeleteDirection::Both ==> plan.absences@.len() == 0,
        direction == DiffDeleteDirection::Both && prompt.left_item is None ==> {
            &&& left is Ok
            &&& absence_views(plan.absences@) == seq![("left"@, prompt.left_missing->0)]
            &&& prompt.left_missing is Some
        },
        direction == DiffDeleteDirection::Both && prompt.right_item is None ==> {
            &&& right is Ok
            &&& absence_views(plan.absences@) == seq![("right"@, prompt.right_missing->0)]
            &&& prompt.right_missing is Some
        },
        direction == DiffDeleteDirection::Both && prompt.left_item is Some
            && prompt.right_item is Some ==> plan.absences@.len() == 0,
{
    let empty: Seq<(Seq<char>, MissingPathAuthorization)> = Seq::empty();
    assert(absence_views(plan.absences@).len() == plan.absences@.len());
    assert(empty.push(("right"@, prompt.right_missing->0)) =~= seq![
        ("right"@, prompt.right_missing->0),
    ]);
}

/// A deletion is refused exactly where nothing is there to delete on the sides asked for,
/// or a side that should have nothing may have something.
pub proof fn law_deletion_is_refused_without_an_item(
    prompt: DiffDeletePrompt,
    left: Result<(), String>,
    right: Result<(), String>,
)
    ensures
        delete_error(prompt, DiffDeleteDirection::Left, left, right) is None
            <==> prompt.left_item is Some,
        delete_error(prompt, DiffDeleteDirection::Right, left, right) is None
            <==> prompt.right_item is Some,
        delete_error(prompt, DiffDeleteDirection::Both, left, right) is None <==> {
            &&& prompt.left_item is Some || prompt.right_item is Some
            &&& prompt.left_item is None ==> prompt.left_missing is Some && left is Ok
            &&& prompt.right_item is None ==> prompt.right_missing is Some && right is Ok
        },
{
}

/// Each arrow to a side deletes on that side, the one down on both; no other key deletes.
pub proof fn law_arrow_deletes_where_it_points(key: DialogKey)
    ensures
        delete_key(key) == DeleteDialogAction::Delete(DiffDeleteDirection::Left) <==> key
            == DialogKey::Left,
        delete_key(key) == DeleteDialogAction::Delete(DiffDeleteDirection::Right) <==> key
            == DialogKey::Right,
        delete_key(key) == DeleteDialogAction::Delete(DiffDeleteDirection::Both) <==> key
            == DialogKey::Down,
        key == DialogKey::Esc || key == DialogKey::Enter ==> delete_key(key)
            == DeleteDialogAction::Cancel,
        delete_key(key) == DeleteDialogAction::Ignore <==> key == DialogKey::Other,
{
}

/// The prompt says that a directory is among what may be deleted exactly where one of the
/// items is one.
pub proof fn law_prompt_tells_of_directories(
    prompt: DiffDeletePrompt,
    path: Seq<char>,
    sides: PreparedSides,
)
    requires
        is_delete_prompt(prompt, path, sides),
    ensures
        prompt.contains_directory <==> {
            ||| prompt.left_item is Some && prompt.left_item->0.item.directory
            ||| prompt.right_item is Some && prompt.right_item->0.item.directory
        },
        prompt.left_item == sides.left_item,
        prompt.right_item == sides.right_item,
{
}

/// Whether there is something to delete on the left, and on the right, and whether a
/// directory is among it.
pub open spec fn delete_sides(prompt: Option<DiffDeletePrompt>) -> (bool, bool, bool) {
    match prompt {
        Some(prompt) => (
            prompt.left_item is Some,
            prompt.right_item is Some,
            prompt.contains_directory,
        ),
        None => (false, false, false),
    }
}

/// A deletion on a side is offered exactly where one can be planned there.
pub proof fn law_offered_deletions_have_a_target(
    prompt: DiffDeletePrompt,
    left: Result<(), String>,
    right: Result<(), String>,
    on_left: Result<DiffDeletePlan, String>,
    on_right: Result<DiffDeletePlan, String>,
)
    requires
        local_name(prompt.relative_path@) is Some,
        plans_delete(Some(prompt), DiffDeleteDirection::Left, left, right, on_left),
        plans_delete(Some(prompt), DiffDeleteDirection::Right, left, right, on_right),
    ensures
        delete_sides(Some(prompt)).0 <==> on_left is Ok,
        delete_sides(Some(prompt)).1 <==> on_right is Ok,
        delete_sides(Some(prompt)).2 == prompt.contains_directory,
        delete_sides(None) == (false, false, false),
{
}

/// The delete dialog is about the row under the cursor; where the row may not be used it
/// says why and nothing can be agreed to.
pub proof fn law_delete_is_asked_about_the_row(before: App, after: App, facts: PromptFacts)
    requires
        before.diff_state is Some,
        before.diff_state->0.cursor_row() is Some,
        asks_delete(before, after, facts),
    ensures
        ({
            let state = before.diff_state->0;
            let entry = state.all_entries@[state.cursor_row()->0];
            &&& dialog_view(after.dialog) is Some
            &&& dialog_view(after.dialog)->0.dialog_type == DialogType::DiffDelete
            &&& dialog_view(after.dialog)->0.input == entry.relative_path@
            &&& dialog_view(after.dialog)->0.selected_button == 1
            &&& after.delete_prompt() is Some <==> prompt_error(state, entry, facts, true) is None
            &&& after.delete_prompt() matches Some(prompt) ==> prompt.relative_path@
                == entry.relative_path@ && (prompt.left_item is Some <==> entry.left is Some) && (
            prompt.right_item is Some <==> entry.right is Some) && (prompt.left_item is Some
                || prompt.right_item is Some)
            &&& after.diff_state is Some
            &&& after.diff_state->0.all_entries == state.all_entries
            &&& after.diff_state->0.copy_prompt == state.copy_prompt
        }),
{
}

/// A deletion that starts is noted with its path, and asked about no longer; one that may
/// not go on changes nothing.
pub proof fn law_started_deletion_is_noted(
    before: App,
    after: App,
    plan: DiffDeletePlan,
    checked: Result<(), String>,
    r: Result<DiffDeletePlan, String>,
)
    requires
        before.diff_state is Some,
        starts_delete(before, after, plan, checked, r),
    ensures
        r is Ok <==> checked is Ok,
        r is Err ==> after == before,
        r is Ok ==> {
            &&& r->Ok_0 == plan
            &&& after.diff_state matches Some(state)
            &&& state.delete_in_progress
            &&& state.pending_delete_path == Some(plan.operation_path)
            &&& state.delete_prompt is None
            &&& state.copy_in_progress == before.diff_state->0.copy_in_progress
            &&& after.file_operation_progress is Some
            &&& after.file_operation_progress->0@.operation_type == FileOperationType::Delete
        },
{
}

} // verus!
