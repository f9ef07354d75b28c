//! Copying an item of the comparison to the other side.

use crate::app_state::App;
use crate::authorization::{DirectoryAuthorization, MissingPathAuthorization};
use crate::dialogs::{dialog_view, plain_dialog, Dialog, DialogType, DialogView};
use crate::diff_items::{
    add_directory_check, add_item_checks, authorized_comparison_roots, capture_expected_diff_side,
    check_views, copy_item, copy_missing, directory_check, ensure_non_overlapping_diff_roots,
    ensure_selected_trees_do_not_contain_other_root, goes_down, item_checks, item_view,
    roots_error, roots_overlap, side_error, side_item, side_missing, tree_holds,
    validated_diff_relative_path, CaptureOutcome, CheckView, DiffCheck, SideFacts,
};
use crate::diff_state::{DiffAuthorizedItem, DiffCopyPrompt, DiffState};
use crate::diff_types::DiffEntry;
use crate::paths::{join_path, joined_path, local_name, name_of_path};
use crate::progress::FileOperationType;
use crate::screens::begins_operation;
use crate::text::{concat2, concat3};
use vstd::prelude::*;

verus! {

/// Where an item of the comparison is copied to.
#[derive(Debug, Clone, Copy, PartialEq, Eq, Structural)]
pub enum DiffCopyDirection {
    ToLeft,
    ToRight,
}

/// What looking at the row under the cursor again came to.
#[derive(Debug)]
pub struct PromptFacts {
    pub left_root: Result<(), String>,
    pub right_root: Result<(), String>,
    pub left: SideFacts,
    pub right: SideFacts,
}

/// Both sides of a row, where they are still what the comparison saw.
#[derive(Debug)]
pub struct PreparedSides {
    pub left_root: DirectoryAuthorization,
    pub right_root: DirectoryAuthorization,
    pub left_item: Option<DiffAuthorizedItem>,
    pub right_item: Option<DiffAuthorizedItem>,
    pub left_missing: Option<MissingPathAuthorization>,
    pub right_missing: Option<MissingPathAuthorization>,
}

/// Why nothing may be done with a row. What is on neither side can still be
/// copied to, but not be deleted.
pub open spec fn prompt_error(
    state: DiffState,
    entry: DiffEntry,
    facts: PromptFacts,
    deleting: bool,
) -> Option<Seq<char>> {
    let left_root = state.left_root_authorization->0;
    let right_root = state.right_root_authorization->0;
    if !goes_down(entry.relative_path@) {
        Some("Selected difference has an invalid relative path"@)
    } else if roots_error(state, facts.left_root, facts.right_root) is Some {
        roots_error(state, facts.left_root, facts.right_root)
    } else if roots_overlap(left_root, right_root) {
        Some("Copy and delete are disabled when comparison roots overlap"@)
    } else if side_error(entry.left, entry.left_missing, facts.left, "left"@) is Some {
        side_error(entry.left, entry.left_missing, facts.left, "left"@)
    } else if side_error(entry.right, entry.right_missing, facts.right, "right"@) is Some {
        side_error(entry.right, entry.right_missing, facts.right, "right"@)
    } else if deleting && entry.left is None && entry.right is None {
        Some("The selected item no longer exists on either side"@)
    } else if tree_holds(side_item(entry.left, facts.left), right_root) || tree_holds(
        side_item(entry.right, facts.right),
        left_root,
    ) {
        Some(
            "Copy and delete are disabled when a selected directory contains the other comparison root"@,
        )
    } else {
        None
    }
}

/// The two sides that a row has, where nothing speaks against it.
pub open spec fn prompted_sides(state: DiffState, entry: DiffEntry, facts: PromptFacts) -> PreparedSides {
    PreparedSides {
        left_root: state.left_root_authorization->0,
        right_root: state.right_root_authorization->0,
        left_item: side_item(entry.left, facts.left),
        right_item: side_item(entry.right, facts.right),
        left_missing: side_missing(entry.left, entry.left_missing),
        right_missing: side_missing(entry.right, entry.right_missing),
    }
}

/// Both sides of a row, where they are still what the comparison saw and the
/// operation may go ahead.
pub fn prepare_sides(state: &DiffState, entry: &DiffEntry, facts: PromptFacts, deleting: bool) -> (r:
    Result<PreparedSides, String>)
    ensures
        match prompt_error(*state, *entry, facts, deleting) {
            Some(error) => r matches Err(e) && e@ == error,
            None => r == Ok::<PreparedSides, String>(prompted_sides(*state, *entry, facts)),
        },
{
    if let Err(error) = validated_diff_relative_path(entry.relative_path.as_str()) {
        return Err(error);
    }
    let (left_root, right_root) = match authorized_comparison_roots(
        state,
        facts.left_root,
        facts.right_root,
    ) {
        Err(error) => {
            return Err(error);
        },
        Ok(roots) => roots,
    };
    if let Err(error) = ensure_non_overlapping_diff_roots(&left_root, &right_root) {
        return Err(error);
    }
    let (left_item, left_missing) = match capture_expected_diff_side(
        &entry.left,
        &entry.left_missing,
        facts.left,
        "left",
    ) {
        Err(error) => {
            return Err(error);
        },
        Ok(side) => side,
    };
    let (right_item, right_missing) = match capture_expected_diff_side(
        &entry.right,
        &entry.right_missing,
        facts.right,
        "right",
    ) {
        Err(error) => {
            return Err(error);
        },
        Ok(side) => side,
    };
    if deleting && left_item.is_none() && right_item.is_none() {
        return Err("The selected item no longer exists on either side".to_owned());
    }
    if let Err(error) = ensure_selected_trees_do_not_contain_other_root(
        &left_item,
        &right_item,
        &left_root,
        &right_root,
    ) {
        return Err(error);
    }
    Ok(
        PreparedSides {
            left_root,
            right_root,
            left_item,
            right_item,
            left_missing,
            right_missing,
        },
    )
}

/// A dialog about a row; the safe button is chosen.
pub open spec fn row_dialog(dialog_type: DialogType, path: Seq<char>, message: Seq<char>) -> DialogView {
    DialogView { selected_button: 1, ..plain_dialog(dialog_type, path, message) }
}

/// Whether the prompt holds what was seen of the row.
pub open spec fn is_copy_prompt(prompt: DiffCopyPrompt, path: Seq<char>, sides: PreparedSides) -> bool {
    &&& prompt.relative_path@ == path
    &&& prompt.left_root == sides.left_root
    &&& prompt.right_root == sides.right_root
    &&& prompt.left_item == sides.left_item
    &&& prompt.right_item == sides.right_item
    &&& prompt.left_missing == sides.left_missing
    &&& prompt.right_missing == sides.right_missing
}

/// The side that a copy comes from.
pub open spec fn source_side(direction: DiffCopyDirection) -> Seq<char> {
    match direction {
        DiffCopyDirection::ToLeft => "right"@,
        DiffCopyDirection::ToRight => "left"@,
    }
}

/// The item that a copy comes from.
pub open spec fn source_of(prompt: DiffCopyPrompt, direction: DiffCopyDirection) -> Option<
    DiffAuthorizedItem,
> {
    match direction {
        DiffCopyDirection::ToLeft => prompt.right_item,
        DiffCopyDirection::ToRight => prompt.left_item,
    }
}

/// The item that a copy replaces.
pub open spec fn target_of(prompt: DiffCopyPrompt, direction: DiffCopyDirection) -> Option<
    DiffAuthorizedItem,
> {
    match direction {
        DiffCopyDirection::ToLeft => prompt.left_item,
        DiffCopyDirection::ToRight => prompt.right_item,
    }
}

/// The absence that a copy fills.
pub open spec fn target_missing_of(prompt: DiffCopyPrompt, direction: DiffCopyDirection) -> Option<
    MissingPathAuthorization,
> {
    match direction {
        DiffCopyDirection::ToLeft => prompt.left_missing,
        DiffCopyDirection::ToRight => prompt.right_missing,
    }
}

/// The roots that a copy comes from and goes to.
pub open spec fn roots_of(prompt: DiffCopyPrompt, direction: DiffCopyDirection) -> (
    DirectoryAuthorization,
    DirectoryAuthorization,
) {
    match direction {
        DiffCopyDirection::ToLeft => (prompt.right_root, prompt.left_root),
        DiffCopyDirection::ToRight => (prompt.left_root, prompt.right_root),
    }
}

/// What has to be seen again before a copy: both roots, the source, and what is
/// replaced.
pub open spec fn copy_checks(prompt: DiffCopyPrompt, direction: DiffCopyDirection, name: Seq<char>) -> Seq<
    CheckView,
> {
    let (source_root, target_root) = roots_of(prompt, direction);
    let from = seq![
        directory_check(source_root, "Diff source root"@),
        directory_check(target_root, "Diff target root"@),
    ] + item_checks(
        name,
        source_of(prompt, direction)->0@,
        "Diff source parent"@,
        "Diff copy source"@,
    );
    match target_of(prompt, direction) {
        Some(target) => from + item_checks(
            name,
            target@,
            "Diff target parent"@,
            "Diff overwrite destination"@,
        ),
        None => from,
    }
}

/// A copy that was agreed to, before anything was seen again.
#[derive(Debug)]
pub struct DiffCopyPlan {
    pub operation_path: String,
    pub file_name: String,
    pub source_path: String,
    pub source: DiffAuthorizedItem,
    pub target: Option<DiffAuthorizedItem>,
    pub target_missing: Option<MissingPathAuthorization>,
    /// What has to be seen again, in this order.
    pub checks: Vec<DiffCheck>,
}

/// Whether the plan is the copy of the prompt in the direction.
pub open spec fn is_copy_plan(
    plan: DiffCopyPlan,
    prompt: DiffCopyPrompt,
    direction: DiffCopyDirection,
    name: Seq<char>,
) -> bool {
    let source = source_of(prompt, direction)->0;
    &&& plan.operation_path@ == prompt.relative_path@
    &&& plan.file_name@ == name
    &&& plan.source@ == source@
    &&& plan.source_path@ == joined_path(source.parent.resolved_path@, name)
    &&& item_view(plan.target) == item_view(target_of(prompt, direction))
    &&& plan.target_missing == target_missing_of(prompt, direction)
    &&& check_views(plan.checks@) == copy_checks(prompt, direction, name)
}

/// What agreeing to a copy comes to.
pub open spec fn plans_copy(
    prompt: Option<DiffCopyPrompt>,
    direction: DiffCopyDirection,
    r: Result<DiffCopyPlan, String>,
) -> bool {
    match prompt {
        None => r matches Err(e) && e@ == "Copy source changed; close the dialog and try again"@,
        Some(prompt) => if source_of(prompt, direction) is None {
            r matches Err(e) && e@ == "Nothing exists on the "@ + source_side(direction)
                + " to copy"@
        } else {
            match local_name(prompt.relative_path@) {
                None => r matches Err(e) && e@ == "Selected difference has no file name"@,
                Some(name) => r matches Ok(plan) && is_copy_plan(plan, prompt, direction, name),
            }
        },
    }
}

/// The directory that a copy goes to.
#[derive(Debug)]
pub enum CopyTarget {
    /// It is there.
    Known(DirectoryAuthorization),
    /// It is to be made for a path that is missing.
    ToMake(MissingPathAuthorization),
}

/// A copy to be done.
#[derive(Debug)]
pub struct DiffCopyJob {
    pub file_name: String,
    pub source_dir: String,
    pub target_dir: String,
    pub source_path: String,
    pub source: DiffAuthorizedItem,
    pub target_parent: DirectoryAuthorization,
    /// What may be replaced.
    pub overwrite: Option<DiffAuthorizedItem>,
}

/// The directory that a copy goes to, once all was seen again: the one that holds
/// what is replaced, or one that is made where something is missing.
pub open spec fn goes_into(
    plan: DiffCopyPlan,
    checked: Result<(), String>,
    r: Result<CopyTarget, String>,
) -> bool {
    match checked {
        Err(error) => r == Err::<CopyTarget, String>(error),
        Ok(_) => match plan.target {
            Some(target) => r == Ok::<CopyTarget, String>(CopyTarget::Known(target.parent)),
            None => match plan.target_missing {
                Some(missing) => r == Ok::<CopyTarget, String>(CopyTarget::ToMake(missing)),
                None => r matches Err(e) && e@
                    == "Diff destination absence is no longer authorized; restart the comparison"@,
            },
        },
    }
}

impl DiffCopyPlan {
    /// The directory that the copy goes to, once all was seen again.
    pub fn target_directory(&self, checked: Result<(), String>) -> (r: Result<CopyTarget, String>)
        ensures
            goes_into(*self, checked, r),
    {
        if let Err(error) = checked {
            return Err(error);
        }
        match &self.target {
            Some(target) => Ok(CopyTarget::Known(target.parent.clone())),
            None => match &self.target_missing {
                Some(missing) => Ok(CopyTarget::ToMake(missing.clone())),
                None => Err(
                    "Diff destination absence is no longer authorized; restart the comparison".to_owned(),
                ),
            },
        }
    }

    /// The path that the copy goes to.
    pub fn destination(&self, parent: &DirectoryAuthorization) -> (r: String)
        ensures
            r@ == joined_path(parent.resolved_path@, self.file_name@),
    {
        join_path(parent.resolved_path.as_str(), self.file_name.as_str())
    }
}

/// Whether the job is the copy of the plan into the directory.
pub open spec fn is_copy_job(job: DiffCopyJob, plan: DiffCopyPlan, parent: DirectoryAuthorization) -> bool {
    &&& job.file_name == plan.file_name
    &&& job.source_dir == plan.source.parent.resolved_path
    &&& job.target_dir == parent.resolved_path
    &&& job.source_path == plan.source_path
    &&& job.source == plan.source
    &&& job.target_parent == parent
    &&& job.overwrite == plan.target
}

/// What a key in the copy dialog asks for.
#[derive(Debug, Clone, Copy, PartialEq, Eq, Structural)]
pub enum DialogKey {
    Left,
    Right,
    Up,
    Down,
    Enter,
    Esc,
    Other,
}

/// What the copy dialog is to do.
#[derive(Debug, Clone, Copy, PartialEq, Eq, Structural)]
pub enum CopyDialogAction {
    Copy(DiffCopyDirection),
    Cancel,
    Ignore,
}

/// What a key in the copy dialog asks for.
pub open spec fn copy_key(key: DialogKey) -> CopyDialogAction {
    match key {
        DialogKey::Left => CopyDialogAction::Copy(DiffCopyDirection::ToLeft),
        DialogKey::Right => CopyDialogAction::Copy(DiffCopyDirection::ToRight),
        DialogKey::Up | DialogKey::Down | DialogKey::Enter
        | DialogKey::Esc => CopyDialogAction::Cancel,
        DialogKey::Other => CopyDialogAction::Ignore,
    }
}

/// What a key in the copy dialog asks for.
pub fn copy_dialog_action(key: DialogKey) -> (r: CopyDialogAction)
    ensures
        r == copy_key(key),
{
    match key {
        DialogKey::Left => CopyDialogAction::Copy(DiffCopyDirection::ToLeft),
        DialogKey::Right => CopyDialogAction::Copy(DiffCopyDirection::ToRight),
        DialogKey::Up | DialogKey::Down | DialogKey::Enter
        | DialogKey::Esc => CopyDialogAction::Cancel,
        DialogKey::Other => CopyDialogAction::Ignore,
    }
}

/// What the dialog of the given kind says, once it was told something; other
/// dialogs say what they did.
pub open spec fn dialog_told(d: Option<Dialog>, dialog_type: DialogType, message: Seq<char>) -> Option<
    DialogView,
> {
    match d {
        Some(d) => if d.dialog_type == dialog_type {
            Some(DialogView { message, ..d@ })
        } else {
            Some(d@)
        },
        None => None,
    }
}

/// What asking to copy the row under the cursor does.
pub open spec fn asks_copy(
    before: App,
    after: App,
    facts: PromptFacts,
) -> bool {
    match before.diff_state {
        None => after == before,
        Some(state) => match state.cursor_row() {
            None => after == before,
            Some(row) => {
                let entry = state.all_entries@[row];
                &&& after == (App {
                    diff_state: after.diff_state,
                    dialog: after.dialog,
                    ..before
                })
                &&& after.diff_state == Some(
                    DiffState { copy_prompt: after.copy_prompt(), ..state },
                )
                &&& match prompt_error(state, entry, facts, false) {
                    Some(error) => {
                        &&& after.copy_prompt() is None
                        &&& dialog_view(after.dialog) == Some(
                            row_dialog(
                                DialogType::DiffCopy,
                                entry.relative_path@,
                                "Cannot prepare copy: "@ + error,
                            ),
                        )
                    },
                    None => {
                        &&& after.copy_prompt() matches Some(prompt)
                        &&& is_copy_prompt(
                            prompt,
                            entry.relative_path@,
                            prompted_sides(state, entry, facts),
                        )
                        &&& dialog_view(after.dialog) == Some(
                            row_dialog(
                                DialogType::DiffCopy,
                                entry.relative_path@,
                                Seq::empty(),
                            ),
                        )
                    },
                }
            },
        },
    }
}

/// What starting a copy that was agreed to comes to.
pub open spec fn starts_copy(
    before: App,
    after: App,
    plan: DiffCopyPlan,
    parent: DirectoryAuthorization,
    valid: Result<(), String>,
    r: Result<DiffCopyJob, String>,
) -> bool {
    match valid {
        Err(error) => after == before && r == Err::<DiffCopyJob, String>(error),
        Ok(_) => {
            &&& r matches Ok(job)
            &&& is_copy_job(job, plan, parent)
            &&& begins_operation(
                App {
                    diff_state: match before.diff_state {
                        Some(state) => Some(
                            DiffState {
                                copy_prompt: None,
                                copy_in_progress: true,
                                pending_copy_path: Some(plan.operation_path),
                                ..state
                            },
                        ),
                        None => None,
                    },
                    ..before
                },
                after,
                FileOperationType::Copy,
            )
        },
    }
}

impl App {
    /// The prompt of the open copy dialog.
    pub open spec fn copy_prompt(self) -> Option<DiffCopyPrompt> {
        match self.diff_state {
            Some(state) => state.copy_prompt,
            None => None,
        }
    }

    /// Tells the dialog of the given kind something, where it is open.
    pub(crate) fn tell_dialog(&mut self, dialog_type: DialogType, message: String)
        ensures
            *final(self) == (App { dialog: final(self).dialog, ..*old(self) }),
            dialog_view(final(self).dialog) == dialog_told(
                old(self).dialog,
                dialog_type,
                message@,
            ),
    {
        match self.dialog.take() {
            None => {},
            Some(mut dialog) => {
                if dialog.dialog_type == dialog_type {
                    dialog.message = message;
                }
                self.dialog = Some(dialog);
            },
        }
    }

    /// Asks where the row under the cursor is to be copied to.
    pub fn open_copy_dialog(&mut self, facts: PromptFacts)
        ensures
            asks_copy(*old(self), *final(self), facts),
    {
        if self.diff_state.is_none() {
            return;
        }
        let ghost before = self.diff_state;
        let entry = match &self.diff_state {
            None => {
                return;
            },
            Some(state) => match state.current_entry() {
                None => {
                    return;
                },
                Some(entry) => entry.clone(),
            },
        };
        let mut state = self.diff_state.take().unwrap();
        let message = match prepare_sides(&state, &entry, facts, false) {
            Err(error) => {
                state.copy_prompt = None;
                concat2("Cannot prepare copy: ", error.as_str())
            },
            Ok(sides) => {
                state.copy_prompt =
                Some(
                    DiffCopyPrompt {
                        relative_path: entry.relative_path.clone(),
                        left_root: sides.left_root,
                        right_root: sides.right_root,
                        left_item: sides.left_item,
                        right_item: sides.right_item,
                        left_missing: sides.left_missing,
                        right_missing: sides.right_missing,
                    },
                );
                String::new()
            },
        };
        self.diff_state = Some(state);
        let mut dialog = Dialog::plain(DialogType::DiffCopy, entry.relative_path, message);
        dialog.selected_button = 1;
        self.dialog = Some(dialog);
    }

    /// Says in the copy dialog why nothing was copied.
    pub fn set_copy_dialog_error(&mut self, message: String)
        ensures
            *final(self) == (App { dialog: final(self).dialog, ..*old(self) }),
            dialog_view(final(self).dialog) == dialog_told(
                old(self).dialog,
                DialogType::DiffCopy,
                message@,
            ),
    {
        self.tell_dialog(DialogType::DiffCopy, message);
    }

    /// Closes the copy dialog.
    pub fn cancel_copy_dialog(&mut self)
        ensures
            *final(self) == (App {
                dialog: None,
                diff_state: match old(self).diff_state {
                    Some(state) => Some(DiffState { copy_prompt: None, ..state }),
                    None => None,
                },
                ..*old(self)
            }),
    {
        if let Some(mut state) = self.diff_state.take() {
            state.copy_prompt = None;
            self.diff_state = Some(state);
        }
        self.dialog = None;
    }

    /// The copy that was agreed to, and what has to be seen again before it.
    pub fn plan_diff_copy(&self, direction: DiffCopyDirection) -> (r: Result<DiffCopyPlan, String>)
        ensures
            plans_copy(self.copy_prompt(), direction, r),
    {
        let gone = "Copy source changed; close the dialog and try again";
        let prompt: &DiffCopyPrompt = match &self.diff_state {
            None => {
                return Err(gone.to_owned());
            },
            Some(state) => match &state.copy_prompt {
                None => {
                    return Err(gone.to_owned());
                },
                Some(prompt) => prompt,
            },
        };
        let to_left = direction == DiffCopyDirection::ToLeft;
        let source = copy_item(if to_left { &prompt.right_item } else { &prompt.left_item });
        let target = copy_item(if to_left { &prompt.left_item } else { &prompt.right_item });
        let target_missing = copy_missing(
            if to_left { &prompt.left_missing } else { &prompt.right_missing },
        );
        let side = if to_left { "right" } else { "left" };
        assert(item_view(source_of(*prompt, direction)) == item_view(source));
        let source: DiffAuthorizedItem = match source {
            None => {
                return Err(concat3("Nothing exists on the ", side, " to copy"));
            },
            Some(source) => source,
        };
        let file_name = match name_of_path(prompt.relative_path.as_str()) {
            None => {
                return Err("Selected difference has no file name".to_owned());
            },
            Some(name) => name,
        };
        let source_root = if to_left { &prompt.right_root } else { &prompt.left_root };
        let target_root = if to_left { &prompt.left_root } else { &prompt.right_root };
        let mut checks: Vec<DiffCheck> = Vec::new();
        assert(check_views(checks@) =~= Seq::empty());
        add_directory_check(&mut checks, source_root, "Diff source root".to_owned());
        add_directory_check(&mut checks, target_root, "Diff target root".to_owned());
        assert(check_views(checks@) =~= seq![
            directory_check(*source_root, "Diff source root"@),
            directory_check(*target_root, "Diff target root"@),
        ]);
        add_item_checks(
            &mut checks,
            file_name.as_str(),
            &source,
            "Diff source parent".to_owned(),
            "Diff copy source".to_owned(),
        );
        if let Some(target) = &target {
            add_item_checks(
                &mut checks,
                file_name.as_str(),
                target,
                "Diff target parent".to_owned(),
                "Diff overwrite destination".to_owned(),
            );
        }
        let source_path = join_path(source.parent.resolved_path.as_str(), file_name.as_str());
        assert(item_view(target_of(*prompt, direction)) == item_view(target));
        Ok(
            DiffCopyPlan {
                operation_path: prompt.relative_path.clone(),
                file_name,
                source_path,
                source,
                target,
                target_missing,
                checks,
            },
        )
    }

    /// Begins a copy into a directory. `valid` is whether the source may be copied
    /// to its destination there.
    pub fn start_diff_copy(
        &mut self,
        plan: DiffCopyPlan,
        parent: DirectoryAuthorization,
        valid: Result<(), String>,
    ) -> (r: Result<DiffCopyJob, String>)
        ensures
            starts_copy(*old(self), *final(self), plan, parent, valid, r),
    {
        if let Err(error) = valid {
            return Err(error);
        }
        if let Some(mut state) = self.diff_state.take() {
            state.copy_prompt = None;
            state.copy_in_progress = true;
            state.pending_copy_path = Some(plan.operation_path);
            self.diff_state = Some(state);
        }
        self.begin_directory_operation(FileOperationType::Copy);
        Ok(
            DiffCopyJob {
                file_name: plan.file_name,
                source_dir: plan.source.parent.resolved_path.clone(),
                target_dir: parent.resolved_path.clone(),
                source_path: plan.source_path,
                source: plan.source,
                target_parent: parent,
                overwrite: plan.target,
            },
        )
    }
}

impl DiffState {
    /// Whether there is something to copy on the left and on the right.
    pub fn copy_prompt_availability(&self) -> (r: (bool, bool))
        ensures
            r == copy_sources(self.copy_prompt),
    {
        match &self.copy_prompt {
            Some(prompt) => (prompt.left_item.is_some(), prompt.right_item.is_some()),
            None => (false, false),
        }
    }

    /// Whether a copy is under way.
    pub fn copy_in_progress(&self) -> (r: bool)
        ensures
            r == self.copy_in_progress,
    {
        self.copy_in_progress
    }
}

/// A copy never replaces anything that was not seen again: what may be replaced
/// is among what had to be seen.
pub proof fn law_copy_replaces_only_what_was_seen(
    prompt: DiffCopyPrompt,
    direction: DiffCopyDirection,
    plan: DiffCopyPlan,
    parent: DirectoryAuthorization,
    job: DiffCopyJob,
    name: Seq<char>,
)
    requires
        is_copy_plan(plan, prompt, direction, name),
        is_copy_job(job, plan, parent),
    ensures
        job.overwrite matches Some(item) ==> check_views(plan.checks@).contains(
            CheckView::Path(
                joined_path(item.parent.resolved_path@, name),
                item.item,
                "Diff overwrite destination"@,
            ),
        ),
        check_views(plan.checks@).contains(
            CheckView::Path(job.source_path@, job.source.item, "Diff copy source"@),
        ),
{
    let checks = copy_checks(prompt, direction, name);
    let source = source_of(prompt, direction)->0@;
    assert(job.source@ == source);
    assert(checks[3] == CheckView::Path(job.source_path@, job.source.item, "Diff copy source"@));
    if let Some(item) = job.overwrite {
        let target = target_of(prompt, direction)->0@;
        assert(item_view(plan.target) == Some(item@));
        assert(item@ == target);
        let from = item_checks(name, source, "Diff source parent"@, "Diff copy source"@).len() + 2;
        assert(checks[from as int + 1] == CheckView::Path(
            joined_path(item.parent.resolved_path@, name),
            item.item,
            "Diff overwrite destination"@,
        ));
    }
}

/// A copy to the left takes the item on the right, and replaces the item on the left or
/// fills the absence there; a copy to the right does the reverse. Both are of the same
/// name.
pub proof fn law_copy_goes_to_the_other_side(
    prompt: DiffCopyPrompt,
    to_left: Result<DiffCopyPlan, String>,
    to_right: Result<DiffCopyPlan, String>,
)
    requires
        plans_copy(Some(prompt), DiffCopyDirection::ToLeft, to_left),
        plans_copy(Some(prompt), DiffCopyDirection::ToRight, to_right),
    ensures
        to_left matches Ok(plan) ==> {
            &&& item_view(Some(plan.source)) == item_view(prompt.right_item)
            &&& item_view(plan.target) == item_view(prompt.left_item)
            &&& plan.target_missing == prompt.left_missing
            &&& plan.operation_path@ == prompt.relative_path@
            &&& local_name(prompt.relative_path@) == Some(plan.file_name@)
            &&& plan.source_path@ == joined_path(
                prompt.right_item->0.parent.resolved_path@,
                plan.file_name@,
            )
        },
        to_right matches Ok(plan) ==> {
            &&& item_view(Some(plan.source)) == item_view(prompt.left_item)
            &&& item_view(plan.target) == item_view(prompt.right_item)
            &&& plan.target_missing == prompt.right_missing
            &&& plan.operation_path@ == prompt.relative_path@
            &&& local_name(prompt.relative_path@) == Some(plan.file_name@)
            &&& plan.source_path@ == joined_path(
                prompt.left_item->0.parent.resolved_path@,
                plan.file_name@,
            )
        },
        prompt.right_item is None ==> to_left is Err,
        prompt.left_item is None ==> to_right is Err,
        prompt.right_item is Some && local_name(prompt.relative_path@) is Some ==> to_left is Ok,
        prompt.left_item is Some && local_name(prompt.relative_path@) is Some ==> to_right is Ok,
        to_left is Ok && to_right is Ok ==> {
            &&& item_view(Some(to_left->Ok_0.source)) == item_view(to_right->Ok_0.target)
            &&& item_view(Some(to_right->Ok_0.source)) == item_view(to_left->Ok_0.target)
        },
{
}

/// A copy lands beside what it replaces, or where something was missing on the side
/// that it goes to, and never where it comes from; and only once all was seen again.
pub proof fn law_copy_lands_on_the_other_side(
    prompt: DiffCopyPrompt,
    direction: DiffCopyDirection,
    plan: DiffCopyPlan,
    checked: Result<(), String>,
    target: Result<CopyTarget, String>,
)
    requires
        plans_copy(Some(prompt), direction, Ok(plan)),
        goes_into(plan, checked, target),
    ensures
        checked is Err ==> target is Err,
        checked is Ok && direction == DiffCopyDirection::ToLeft ==> {
            &&& prompt.left_item matches Some(item) ==> target == Ok::<CopyTarget, String>(
                CopyTarget::Known(item.parent),
            )
            &&& prompt.left_item is None ==> match prompt.left_missing {
                Some(gap) => target == Ok::<CopyTarget, String>(CopyTarget::ToMake(gap)),
                None => target is Err,
            }
        },
        checked is Ok && direction == DiffCopyDirection::ToRight ==> {
            &&& prompt.right_item matches Some(item) ==> target == Ok::<CopyTarget, String>(
                CopyTarget::Known(item.parent),
            )
            &&& prompt.right_item is None ==> match prompt.right_missing {
                Some(gap) => target == Ok::<CopyTarget, String>(CopyTarget::ToMake(gap)),
                None => target is Err,
            }
        },
{
    let side = match direction {
        DiffCopyDirection::ToLeft => prompt.left_item,
        DiffCopyDirection::ToRight => prompt.right_item,
    };
    if let Some(item) = side {
        assert(item_view(plan.target) == Some(item@));
        assert(plan.target->0@.parent == item@.parent);
    }
}

/// A job copies the source of its plan into the directory that was found for it, under
/// the same name, and may replace only what stands on the side that it goes to.
pub proof fn law_copy_job_does_its_plan(
    prompt: DiffCopyPrompt,
    direction: DiffCopyDirection,
    plan: DiffCopyPlan,
    parent: DirectoryAuthorization,
    job: DiffCopyJob,
)
    requires
        plans_copy(Some(prompt), direction, Ok(plan)),
        is_copy_job(job, plan, parent),
    ensures
        direction == DiffCopyDirection::ToRight ==> {
            &&& item_view(Some(job.source)) == item_view(prompt.left_item)
            &&& job.source_dir@ == prompt.left_item->0.parent.resolved_path@
            &&& item_view(job.overwrite) == item_view(prompt.right_item)
        },
        direction == DiffCopyDirection::ToLeft ==> {
            &&& item_view(Some(job.source)) == item_view(prompt.right_item)
            &&& job.source_dir@ == prompt.right_item->0.parent.resolved_path@
            &&& item_view(job.overwrite) == item_view(prompt.left_item)
        },
        job.source_path@ == joined_path(job.source_dir@, job.file_name@),
        job.target_dir == parent.resolved_path,
        job.target_parent == parent,
{
    let item = match direction {
        DiffCopyDirection::ToRight => prompt.left_item->0,
        DiffCopyDirection::ToLeft => prompt.right_item->0,
    };
    assert(job.source@ == item@);
    assert(job.source@.parent == item@.parent);
}

/// Each arrow copies to the side that it points to; no other key copies.
pub proof fn law_arrow_copies_where_it_points(key: DialogKey)
    ensures
        copy_key(key) == CopyDialogAction::Copy(DiffCopyDirection::ToLeft) <==> key
            == DialogKey::Left,
        copy_key(key) == CopyDialogAction::Copy(DiffCopyDirection::ToRight) <==> key
            == DialogKey::Right,
        key == DialogKey::Esc || key == DialogKey::Enter ==> copy_key(key)
            == CopyDialogAction::Cancel,
        copy_key(key) == CopyDialogAction::Ignore <==> key == DialogKey::Other,
{
}

/// Everything that a copy touches is seen again first: the roots of both sides, the
/// source with the directory that holds it, and what is replaced.
pub proof fn law_copy_sees_both_roots_again(
    prompt: DiffCopyPrompt,
    direction: DiffCopyDirection,
    plan: DiffCopyPlan,
)
    requires
        plans_copy(Some(prompt), direction, Ok(plan)),
    ensures
        direction == DiffCopyDirection::ToLeft ==> check_views(plan.checks@)[0] == directory_check(
            prompt.right_root,
            "Diff source root"@,
        ) && check_views(plan.checks@)[1] == directory_check(
            prompt.left_root,
            "Diff target root"@,
        ),
        direction == DiffCopyDirection::ToRight ==> check_views(plan.checks@)[0] == directory_check(
            prompt.left_root,
            "Diff source root"@,
        ) && check_views(plan.checks@)[1] == directory_check(
            prompt.right_root,
            "Diff target root"@,
        ),
{
}

/// Both sides of a row are prepared only where nothing speaks against either, and each
/// side has what the row and the facts of that side show.
pub proof fn law_prompt_keeps_the_sides_apart(
    state: DiffState,
    entry: DiffEntry,
    facts: PromptFacts,
    deleting: bool,
    prompt: DiffCopyPrompt,
)
    requires
        prompt_error(state, entry, facts, deleting) is None,
        is_copy_prompt(prompt, entry.relative_path@, prompted_sides(state, entry, facts)),
    ensures
        goes_down(prompt.relative_path@),
        state.left_root_authorization == Some(prompt.left_root),
        state.right_root_authorization == Some(prompt.right_root),
        !roots_overlap(prompt.left_root, prompt.right_root),
        prompt.left_item is Some <==> entry.left is Some,
        prompt.right_item is Some <==> entry.right is Some,
        prompt.left_item matches Some(item) ==> facts.left.current == CaptureOutcome::Found(item)
            && entry.left->0.authorization == Some(item.item),
        prompt.right_item matches Some(item) ==> facts.right.current == CaptureOutcome::Found(item)
            && entry.right->0.authorization == Some(item.item),
        entry.left is None ==> prompt.left_missing == entry.left_missing
            && prompt.left_missing is Some,
        entry.right is None ==> prompt.right_missing == entry.right_missing
            && prompt.right_missing is Some,
        !tree_holds(prompt.left_item, prompt.right_root),
        !tree_holds(prompt.right_item, prompt.left_root),
        deleting ==> prompt.left_item is Some || prompt.right_item is Some,
{
}

/// All that a copy touches is seen again first: what is copied, and what is replaced.
pub proof fn law_copy_sees_its_items_again(
    prompt: DiffCopyPrompt,
    direction: DiffCopyDirection,
    plan: DiffCopyPlan,
)
    requires
        plans_copy(Some(prompt), direction, Ok(plan)),
    ensures
        check_views(plan.checks@).contains(
            CheckView::Path(plan.source_path@, plan.source@.item, "Diff copy source"@),
        ),
        plan.target matches Some(target) ==> check_views(plan.checks@).contains(
            CheckView::Path(
                joined_path(target@.parent.resolved_path@, plan.file_name@),
                target@.item,
                "Diff overwrite destination"@,
            ),
        ),
{
    let name = plan.file_name@;
    let source = source_of(prompt, direction)->0;
    let from = seq![
        directory_check(roots_of(prompt, direction).0, "Diff source root"@),
        directory_check(roots_of(prompt, direction).1, "Diff target root"@),
    ] + item_checks(name, source@, "Diff source parent"@, "Diff copy source"@);
    let all = copy_checks(prompt, direction, name);
    assert(all[3] == CheckView::Path(plan.source_path@, plan.source@.item, "Diff copy source"@));
    if let Some(target) = plan.target {
        let replaced = target_of(prompt, direction)->0;
        assert(target@ == replaced@);
        let at = from.len() as int;
        assert(all[at + 1] == item_checks(
            name,
            replaced@,
            "Diff target parent"@,
            "Diff overwrite destination"@,
        )[1]);
    }
}

/// Whether there is something to copy on the left, and on the right.
pub open spec fn copy_sources(prompt: Option<DiffCopyPrompt>) -> (bool, bool) {
    match prompt {
        Some(prompt) => (prompt.left_item is Some, prompt.right_item is Some),
        None => (false, false),
    }
}

/// A copy to the right is offered exactly where one can be planned for lack of nothing on
/// the left, and a copy to the left likewise.
pub proof fn law_offered_copies_have_a_source(
    prompt: DiffCopyPrompt,
    to_left: Result<DiffCopyPlan, String>,
    to_right: Result<DiffCopyPlan, String>,
)
    requires
        local_name(prompt.relative_path@) is Some,
        plans_copy(Some(prompt), DiffCopyDirection::ToLeft, to_left),
        plans_copy(Some(prompt), DiffCopyDirection::ToRight, to_right),
    ensures
        copy_sources(Some(prompt)).0 <==> to_right is Ok,
        copy_sources(Some(prompt)).1 <==> to_left is Ok,
        copy_sources(None) == (false, false),
{
}

/// The copy dialog is about the row under the cursor; where the row may not be used it says
/// why and nothing can be agreed to.
pub proof fn law_copy_is_asked_about_the_row(before: App, after: App, facts: PromptFacts)
    requires
        before.diff_state is Some,
        before.diff_state->0.cursor_row() is Some,
        asks_copy(before, after, facts),
    ensures
        ({
            let state = before.diff_state->0;
            let entry = state.all_entries@[state.cursor_row()->0];
            &&& dialog_view(after.dialog) is Some
            &&& dialog_view(after.dialog)->0.dialog_type == DialogType::DiffCopy
            &&& dialog_view(after.dialog)->0.input == entry.relative_path@
            &&& dialog_view(after.dialog)->0.selected_button == 1
            &&& after.copy_prompt() is Some <==> prompt_error(state, entry, facts, false) is None
            &&& after.copy_prompt() is Some ==> dialog_view(after.dialog)->0.message.len() == 0
            &&& after.copy_prompt() matches Some(prompt) ==> prompt.relative_path@
                == entry.relative_path@ && (prompt.left_item is Some <==> entry.left is Some) && (
            prompt.right_item is Some <==> entry.right is Some)
            &&& after.diff_state is Some
            &&& after.diff_state->0.all_entries == state.all_entries
            &&& after.diff_state->0.delete_prompt == state.delete_prompt
        }),
{
}

/// A copy that starts is noted with its path, and asked about no longer; one that may not go
/// on changes nothing.
pub proof fn law_started_copy_is_noted(
    before: App,
    after: App,
    plan: DiffCopyPlan,
    parent: DirectoryAuthorization,
    valid: Result<(), String>,
    r: Result<DiffCopyJob, String>,
)
    requires
        before.diff_state is Some,
        starts_copy(before, after, plan, parent, valid, r),
    ensures
        r is Ok <==> valid is Ok,
        r is Err ==> after == before,
        r is Ok ==> {
            &&& after.diff_state matches Some(state)
            &&& state.copy_in_progress
            &&& state.pending_copy_path == Some(plan.operation_path)
            &&& state.copy_prompt is None
            &&& state.delete_in_progress == before.diff_state->0.delete_in_progress
            &&& after.file_operation_progress is Some
            &&& after.file_operation_progress->0@.operation_type == FileOperationType::Copy
        },
{
}

/// An error is told in the dialog that it belongs to and in no other.
pub proof fn law_error_is_told_in_its_dialog(d: Dialog, dialog_type: DialogType, message: Seq<char>)
    ensures
        dialog_told(None, dialog_type, message) is None,
        dialog_told(Some(d), dialog_type, message) is Some,
        d.dialog_type == dialog_type ==> dialog_told(Some(d), dialog_type, message)->0.message
            == message && dialog_told(Some(d), dialog_type, message)->0.input == d@.input,
        d.dialog_type != dialog_type ==> dialog_told(Some(d), dialog_type, message) == Some(d@),
{
}

} // verus!
