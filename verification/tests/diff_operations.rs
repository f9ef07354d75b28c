use cokacdir::app_state::App;
use cokacdir::authorization::{
    DirectoryAuthorization, DirectoryIdentity, MissingPathAuthorization, PathAuthorization,
    TreeAuthorization,
};
use cokacdir::dialogs::DialogType;
use cokacdir::diff_ancestors::{
    ancestor_keys, refresh_created_ancestor_missing_authorizations,
    refresh_diff_ancestor_entries, rows_to_capture, targeted_row, PairFacts, Snapshot,
};
use cokacdir::diff_compare::CompareEvidence;
use cokacdir::diff_copy::{
    copy_dialog_action, CopyDialogAction, CopyTarget, DialogKey, DiffCopyDirection, PromptFacts,
};
use cokacdir::diff_delete::{delete_dialog_action, DeleteDialogAction, DiffDeleteDirection};
use cokacdir::diff_delete_run::{DeleteStep, DiffDeleteRun};
use cokacdir::diff_items::{
    ensure_non_overlapping_diff_roots, validated_diff_relative_path, CaptureOutcome, DiffCheck,
    SideFacts,
};
use cokacdir::diff_state::{DiffAuthorizedItem, DiffState};
use cokacdir::diff_types::{
    CompareMethod, DiffEntry, DiffFileInfo, DiffFilter, DiffStatus, FileTime,
};
use cokacdir::names::NameSet;
use cokacdir::navigation::Places;
use cokacdir::progress::ProgressMessage;
use cokacdir::settings::{CrossVolumeMoveVerification, Settings};
use cokacdir::settings_flow::ThemeFile;
use cokacdir::sorting::{SortBy, SortOrder};

const NOW: FileTime = FileTime { secs: 1_700_000_000, nanos: 0 };

const NO_EVIDENCE: CompareEvidence = CompareEvidence { links_equal: false, bytes_equal: false };

fn places(readable: &[&str]) -> Places {
    let mut set = NameSet::new();
    for path in readable {
        set.insert(path.to_string());
    }
    Places { home: "/home".to_string(), root: "/".to_string(), readable: set }
}

fn settings() -> Settings {
    Settings {
        panels: Vec::new(),
        active_panel_index: 0,
        theme_name: "light".to_string(),
        diff_compare_method: "content".to_string(),
        cross_volume_move_verification: CrossVolumeMoveVerification::Standard,
        bookmarked_path: Vec::new(),
        tar_path: None,
        remote_profiles: Vec::new(),
        extension_handlers: Vec::new(),
        telegram_polling_time: 2_500,
        encrypt_split_size: 1_800,
    }
}

fn root(path: &str, inode: u64) -> DirectoryAuthorization {
    DirectoryAuthorization { resolved_path: path.to_string(), device: 1, inode }
}

fn seen(inode: u64, directory: bool) -> PathAuthorization {
    PathAuthorization { device: 1, inode, stamp: 5, directory }
}

fn info(path: &str, inode: u64, is_directory: bool) -> DiffFileInfo {
    DiffFileInfo {
        name: path.rsplit('/').next().unwrap().to_string(),
        size: if is_directory { 0 } else { 4 },
        modified: NOW,
        is_directory,
        is_symlink: false,
        full_path: path.to_string(),
        authorization: Some(seen(inode, is_directory)),
    }
}

fn missing(side: &str, path: &str) -> MissingPathAuthorization {
    MissingPathAuthorization { root: root(side, 100), relative_path: path.to_string() }
}

fn row(
    path: &str,
    depth: usize,
    left: Option<DiffFileInfo>,
    right: Option<DiffFileInfo>,
    status: DiffStatus,
) -> DiffEntry {
    let is_directory = left.as_ref().or(right.as_ref()).map_or(false, |i| i.is_directory);
    DiffEntry {
        relative_path: path.to_string(),
        left_missing: if left.is_none() { Some(missing("/left", path)) } else { None },
        right_missing: if right.is_none() { Some(missing("/right", path)) } else { None },
        left,
        right,
        status,
        is_directory,
        depth,
        children_not_loaded: false,
    }
}

fn app_with(left: &str, right: &str, rows: Vec<DiffEntry>) -> App {
    let mut app = App::new(
        left,
        right,
        &places(&[left, right]),
        settings(),
        ThemeFile { path: None, modified: None },
    );
    let mut state = DiffState::new(
        left.to_string(),
        right.to_string(),
        CompareMethod::Content,
        SortBy::Name,
        SortOrder::Asc,
    );
    state.filter = DiffFilter::All;
    state.left_root_authorization = Some(root(left, 100));
    state.right_root_authorization = Some(root(right, 200));
    state.build_diff_list(rows);
    state.collapsed_dirs = NameSet::new();
    state.apply_filter();
    app.diff_state = Some(state);
    app
}

fn select(app: &mut App, path: &str) {
    let state = app.diff_state.as_mut().unwrap();
    state.selected_index = state
        .filtered_indices
        .iter()
        .position(|&index| state.all_entries[index].relative_path == path)
        .unwrap();
}

fn item(parent: &str, inode: u64) -> DiffAuthorizedItem {
    DiffAuthorizedItem { parent: root(parent, 300), item: seen(inode, false), tree: None }
}

fn found(parent: &str, inode: u64) -> SideFacts {
    SideFacts { current: CaptureOutcome::Found(item(parent, inode)), absent: Ok(()) }
}

fn absent() -> SideFacts {
    SideFacts { current: CaptureOutcome::NotFound, absent: Ok(()) }
}

fn facts(left: SideFacts, right: SideFacts) -> PromptFacts {
    PromptFacts { left_root: Ok(()), right_root: Ok(()), left, right }
}

fn two_sided() -> App {
    let mut app = app_with(
        "/left",
        "/right",
        vec![row(
            "item.txt",
            0,
            Some(info("/left/item.txt", 11, false)),
            Some(info("/right/item.txt", 12, false)),
            DiffStatus::Modified,
        )],
    );
    select(&mut app, "item.txt");
    app
}

fn left_only() -> App {
    let mut app = app_with(
        "/left",
        "/right",
        vec![row(
            "left-only.txt",
            0,
            Some(info("/left/left-only.txt", 11, false)),
            None,
            DiffStatus::LeftOnly,
        )],
    );
    select(&mut app, "left-only.txt");
    app
}

fn message(app: &App) -> String {
    app.dialog.as_ref().unwrap().message.clone()
}

#[test]
fn overlapping_diff_roots_disable_copy_and_delete() {
    let mut app = app_with(
        "/tmp/base",
        "/tmp/base/folder",
        vec![row(
            "folder",
            0,
            Some(info("/tmp/base/folder", 200, true)),
            Some(info("/tmp/base/folder/folder", 13, true)),
            DiffStatus::DirModified,
        )],
    );
    select(&mut app, "folder");
    app.open_copy_dialog(facts(found("/tmp/base", 200), found("/tmp/base/folder", 13)));
    assert!(app.dialog.as_ref().is_some_and(|dialog| dialog.message.contains("overlap")));
    assert!(app.file_operation_progress.is_none());

    app.cancel_copy_dialog();
    app.open_delete_dialog(facts(found("/tmp/base", 200), found("/tmp/base/folder", 13)));
    assert!(app.dialog.as_ref().is_some_and(|dialog| dialog.message.contains("overlap")));
    assert!(app.file_operation_progress.is_none());
}

#[test]
fn unavailable_direction_stays_open_and_up_or_down_cancels() {
    let mut app = left_only();
    app.open_copy_dialog(facts(found("/left", 11), absent()));
    assert_eq!(
        copy_dialog_action(DialogKey::Left),
        CopyDialogAction::Copy(DiffCopyDirection::ToLeft)
    );
    let error = app.plan_diff_copy(DiffCopyDirection::ToLeft).unwrap_err();
    app.set_copy_dialog_error(error);
    assert_eq!(
        app.dialog.as_ref().map(|dialog| dialog.dialog_type),
        Some(DialogType::DiffCopy)
    );
    assert!(app.dialog.as_ref().is_some_and(|dialog| dialog.message.contains("right")));
    assert!(app.file_operation_progress.is_none());

    assert_eq!(copy_dialog_action(DialogKey::Down), CopyDialogAction::Cancel);
    app.cancel_copy_dialog();
    assert!(app.dialog.is_none());

    app.open_copy_dialog(facts(found("/left", 11), absent()));
    assert_eq!(copy_dialog_action(DialogKey::Up), CopyDialogAction::Cancel);
    app.cancel_copy_dialog();
    assert!(app.dialog.is_none());
}

#[test]
fn a_copy_looks_again_at_everything_it_touches() {
    let mut app = two_sided();
    app.open_copy_dialog(facts(found("/left", 11), found("/right", 12)));
    assert_eq!(message(&app), "");
    assert_eq!(app.dialog.as_ref().unwrap().selected_button, 1);
    assert_eq!(app.diff_state.as_ref().unwrap().copy_prompt_availability(), (true, true));

    let plan = app.plan_diff_copy(DiffCopyDirection::ToRight).unwrap();
    let roles: Vec<&str> = plan
        .checks
        .iter()
        .map(|check| match check {
            DiffCheck::Directory(_, _, role) => role.as_str(),
            DiffCheck::Path(_, _, role) => role.as_str(),
            DiffCheck::Tree(_, _, role) => role.as_str(),
            DiffCheck::Absence(_, role) => role.as_str(),
        })
        .collect();
    assert_eq!(
        roles,
        [
            "Diff source root",
            "Diff target root",
            "Diff source parent",
            "Diff copy source",
            "Diff target parent",
            "Diff overwrite destination",
        ]
    );
    assert_eq!(plan.source_path, "/left/item.txt");

    let failed = plan.target_directory(Err("Diff copy source changed".to_string()));
    assert!(matches!(failed, Err(error) if error == "Diff copy source changed"));
    let parent = match plan.target_directory(Ok(())) {
        Ok(CopyTarget::Known(parent)) => parent,
        _ => panic!("the parent is known"),
    };
    assert_eq!(plan.destination(&parent), "/right/item.txt");
    let job = app.start_diff_copy(plan, parent, Ok(())).unwrap();
    assert_eq!(job.source_dir, "/left");
    assert_eq!(job.target_dir, "/right");
    assert_eq!(job.overwrite.unwrap().item.inode, 12);
    assert_eq!(app.dialog.as_ref().map(|d| d.dialog_type), Some(DialogType::Progress));
    let state = app.diff_state.as_ref().unwrap();
    assert!(state.copy_in_progress());
    assert_eq!(state.pending_copy_path.as_deref(), Some("item.txt"));
    assert_eq!(state.copy_prompt_availability(), (false, false));
}

#[test]
fn a_copy_to_nothing_makes_the_missing_parents() {
    let mut app = left_only();
    app.open_copy_dialog(facts(found("/left", 11), absent()));
    let plan = app.plan_diff_copy(DiffCopyDirection::ToRight).unwrap();
    match plan.target_directory(Ok(())) {
        Ok(CopyTarget::ToMake(missing)) => {
            assert_eq!(missing.relative_path, "left-only.txt");
        }
        _ => panic!("the parent is to be made"),
    }
    let result = app.start_diff_copy(plan, root("/right", 200), Err("inside itself".to_string()));
    assert_eq!(result.err().as_deref(), Some("inside itself"));
    assert!(app.file_operation_progress.is_none());
}

#[test]
fn a_changed_item_cannot_be_copied_or_deleted() {
    let mut app = two_sided();
    app.open_copy_dialog(facts(found("/left", 99), found("/right", 12)));
    assert_eq!(
        message(&app),
        "Cannot prepare copy: Diff left item changed since the comparison; close and reopen it \
         before continuing"
    );
    app.open_delete_dialog(facts(
        found("/left", 11),
        SideFacts { current: CaptureOutcome::NotFound, absent: Ok(()) },
    ));
    assert_eq!(
        message(&app),
        "Cannot prepare deletion: Diff right item disappeared since the comparison; close and \
         reopen it before continuing"
    );
    let error = app
        .plan_diff_delete(DiffDeleteDirection::Left, Ok(()), Ok(()))
        .err()
        .unwrap();
    assert_eq!(error, "Delete selection changed; close the dialog and try again");
}

#[test]
fn a_tree_that_holds_the_other_root_is_left_alone() {
    let mut app = two_sided();
    let mut holding = item("/left", 11);
    holding.tree = Some(TreeAuthorization {
        directories: vec![DirectoryIdentity { device: 1, inode: 200 }],
        stamp: 0,
    });
    app.open_delete_dialog(facts(
        SideFacts { current: CaptureOutcome::Found(holding), absent: Ok(()) },
        found("/right", 12),
    ));
    assert!(message(&app).contains("contains the other comparison root"));
}

#[test]
fn up_cancels_diff_delete_without_changing_either_side() {
    let mut app = two_sided();
    app.open_delete_dialog(facts(found("/left", 11), found("/right", 12)));
    assert_eq!(delete_dialog_action(DialogKey::Up), DeleteDialogAction::Cancel);
    app.cancel_delete_dialog();
    assert!(app.dialog.is_none());
    assert!(app.file_operation_progress.is_none());
    assert!(app.diff_state.as_ref().unwrap().delete_prompt.is_none());
}

#[test]
fn each_direction_deletes_its_own_side() {
    for (key, side) in [(DialogKey::Left, "left"), (DialogKey::Right, "right")] {
        let mut app = two_sided();
        app.open_delete_dialog(facts(found("/left", 11), found("/right", 12)));
        assert_eq!(
            app.diff_state.as_ref().unwrap().delete_prompt_availability(),
            (true, true, false)
        );
        let direction = match delete_dialog_action(key) {
            DeleteDialogAction::Delete(direction) => direction,
            _ => panic!("the key deletes"),
        };
        let plan = app.plan_diff_delete(direction, Ok(()), Ok(())).unwrap();
        assert_eq!(plan.targets.len(), 1);
        assert_eq!(plan.targets[0].side, side);
        let plan = app.start_diff_delete(plan, Ok(())).unwrap();
        assert_eq!(plan.targets[0].path, format!("/{}/item.txt", side));
        assert!(app.diff_state.as_ref().unwrap().delete_in_progress());
    }
}

#[test]
fn an_entry_that_both_sides_share_is_deleted_once() {
    let mut app = two_sided();
    app.open_delete_dialog(facts(found("/shared", 11), found("/shared", 12)));
    let plan = app
        .plan_diff_delete(DiffDeleteDirection::Both, Ok(()), Ok(()))
        .unwrap();
    assert_eq!(plan.targets.len(), 1);
    assert_eq!(plan.targets[0].side, "left and right");
}

fn run_to_end(
    run: &mut DiffDeleteRun,
    mut outcomes: Vec<Result<Vec<String>, String>>,
    cancel_after: usize,
) -> Vec<ProgressMessage> {
    let mut said = Vec::new();
    let mut done = 0;
    loop {
        let (step, messages) = run.step(done >= cancel_after);
        said.extend(messages);
        match step {
            DeleteStep::CheckAbsence(_) => said.extend(run.absence_checked(Ok(()))),
            DeleteStep::Delete(at) => {
                let rest = run.targets[at + 1..].iter().map(|t| t.selected.item).collect();
                said.extend(run.deleted(outcomes.remove(0), &rest));
                done += 1;
            }
            DeleteStep::Over => return said,
        }
    }
}

fn both_sides_run() -> DiffDeleteRun {
    let mut app = two_sided();
    app.open_delete_dialog(facts(found("/left", 11), found("/right", 12)));
    let plan = app
        .plan_diff_delete(DiffDeleteDirection::Both, Ok(()), Ok(()))
        .unwrap();
    let (run, first) =
        DiffDeleteRun::start(plan.targets, plan.absences, plan.operation_path);
    assert!(matches!(first, ProgressMessage::TotalProgress(0, 2, 0, 0)));
    run
}

#[test]
fn a_partial_deletion_tells_what_failed() {
    let mut run = both_sides_run();
    let said = run_to_end(
        &mut run,
        vec![Ok(vec!["kept a lock".to_string()]), Err("was replaced".to_string())],
        9,
    );
    assert!(said.iter().any(|m| matches!(
        m,
        ProgressMessage::Warning(name, text) if name == "left: item.txt" && text == "kept a lock"
    )));
    assert!(said.iter().any(|m| matches!(
        m,
        ProgressMessage::Error(name, text) if name == "item.txt" && text == "right: was replaced"
    )));
    assert!(matches!(said.last(), Some(ProgressMessage::Completed(1, 1))));
    assert_eq!(run.success_count + run.failure_count, run.targets.len());
}

#[test]
fn a_whole_deletion_tells_of_no_error() {
    let mut run = both_sides_run();
    let said = run_to_end(&mut run, vec![Ok(Vec::new()), Ok(Vec::new())], 9);
    assert!(!said.iter().any(|m| matches!(m, ProgressMessage::Error(_, _))));
    assert!(matches!(said.last(), Some(ProgressMessage::Completed(2, 0))));
}

#[test]
fn a_deletion_given_up_counts_the_rest_as_failed() {
    let mut run = both_sides_run();
    let said = run_to_end(&mut run, vec![Ok(Vec::new())], 1);
    assert!(said.iter().any(|m| matches!(
        m,
        ProgressMessage::Error(_, text)
            if text == "Cancelled after deleting 1/2; completed deletions cannot be undone"
    )));
    assert!(matches!(said.last(), Some(ProgressMessage::Completed(1, 1))));
}

#[test]
fn delete_worker_rechecks_an_absent_side_before_deleting_the_other_side() {
    let mut app = left_only();
    app.open_delete_dialog(facts(found("/left", 11), absent()));
    let plan = app
        .plan_diff_delete(DiffDeleteDirection::Both, Ok(()), Ok(()))
        .unwrap();
    assert_eq!(plan.targets.len(), 1);
    assert_eq!(plan.absences.len(), 1);
    let (mut run, _) = DiffDeleteRun::start(plan.targets, plan.absences, plan.operation_path);
    let (step, _) = run.step(false);
    assert_eq!(step, DeleteStep::CheckAbsence(0));
    let said = run.absence_checked(Err("appeared".to_string()));
    assert!(matches!(
        &said[0],
        ProgressMessage::Error(name, text)
            if name == "left-only.txt" && text == "right: appeared"
    ));
    assert!(matches!(said[1], ProgressMessage::Completed(0, 1)));
    let (step, rest) = run.step(false);
    assert_eq!(step, DeleteStep::Over);
    assert!(rest.is_empty());
}

#[test]
fn paths_that_leave_the_root_are_refused() {
    for path in ["", "/etc", "../up", "a/../b", "./a"] {
        assert!(validated_diff_relative_path(path).is_err(), "{path}");
    }
    for path in ["a", "a/b", "a/./b", "...", ".hidden/x"] {
        assert_eq!(validated_diff_relative_path(path).as_deref(), Ok(path));
    }
    assert!(ensure_non_overlapping_diff_roots(&root("/a", 1), &root("/ab", 2)).is_ok());
    assert!(ensure_non_overlapping_diff_roots(&root("/a", 1), &root("/a/b", 2)).is_err());
    assert!(ensure_non_overlapping_diff_roots(&root("/a", 1), &root("/b", 1)).is_err());
}

fn snapshot(info: Option<DiffFileInfo>) -> Result<Snapshot, String> {
    Ok(Snapshot { info, missing: None })
}

fn nested_rows() -> Vec<DiffEntry> {
    vec![
        row(
            "dir",
            0,
            Some(info("/left/dir", 20, true)),
            Some(info("/right/dir", 21, true)),
            DiffStatus::DirModified,
        ),
        row(
            "dir/file.txt",
            1,
            Some(info("/left/dir/file.txt", 22, false)),
            Some(info("/right/dir/file.txt", 23, false)),
            DiffStatus::Modified,
        ),
        row(
            "other.txt",
            0,
            Some(info("/left/other.txt", 24, false)),
            None,
            DiffStatus::LeftOnly,
        ),
    ]
}

#[test]
fn a_finished_copy_refreshes_its_row_and_the_directories_above() {
    let mut app = app_with("/left", "/right", nested_rows());
    select(&mut app, "dir/file.txt");
    let state = app.diff_state.as_mut().unwrap();
    state.selected_files.insert("other.txt".to_string());
    state.copy_in_progress = true;
    state.pending_copy_path = Some("dir/file.txt".to_string());

    let scope = state.finish_copy_operation().unwrap();
    assert!(!state.copy_in_progress());
    assert_eq!((scope.target_index, scope.target_end, scope.target_depth), (1, 2, 1));
    let roots = state
        .capture_refreshed_roots(Ok(root("/left", 100)), Ok(root("/right", 200)))
        .unwrap();
    let target = PairFacts {
        left: snapshot(Some(info("/left/dir/file.txt", 22, false))),
        right: snapshot(Some(info("/right/dir/file.txt", 33, false))),
        evidence: CompareEvidence { links_equal: false, bytes_equal: true },
    };
    let fresh = targeted_row("dir/file.txt", scope.target_depth, target, CompareMethod::Content)
        .unwrap()
        .unwrap();
    assert_eq!(fresh.status, DiffStatus::Same);
    let rows = state.staged_rows(&scope, &vec![fresh]);
    assert_eq!(ancestor_keys("dir/file.txt"), ["dir"]);
    let above = vec![PairFacts {
        left: snapshot(Some(info("/left/dir", 20, true))),
        right: snapshot(Some(info("/right/dir", 21, true))),
        evidence: NO_EVIDENCE,
    }];
    let (rows, created) =
        refresh_diff_ancestor_entries(rows, "dir/file.txt", &above, CompareMethod::Content, true)
            .unwrap();
    assert!(created.left.is_empty() && created.right.is_empty());
    assert_eq!(rows[0].status, DiffStatus::DirSame);
    let previous = state.reconcile_install("dir/file.txt", rows, roots);
    let expanded = scope.expanded.clone();
    assert!(expanded.is_empty());
    state
        .reconcile_complete(
            &scope,
            previous,
            &NameSet::new(),
            Ok(root("/left", 100)),
            Ok(root("/right", 200)),
        )
        .unwrap();
    let shown: Vec<&str> = state
        .filtered_indices
        .iter()
        .map(|&index| state.all_entries[index].relative_path.as_str())
        .collect();
    assert_eq!(shown, ["dir", "dir/file.txt", "other.txt"]);
    assert_eq!(
        state.current_entry().map(|entry| entry.relative_path.as_str()),
        Some("dir/file.txt")
    );
    assert!(state.selected_files.contains("other.txt"));
}

#[test]
fn a_root_replaced_meanwhile_brings_the_rows_back() {
    let mut app = app_with("/left", "/right", nested_rows());
    let state = app.diff_state.as_mut().unwrap();
    state.pending_delete_path = Some("dir".to_string());
    let scope = state.finish_delete_operation().unwrap();
    assert_eq!(scope.expanded, ["dir"]);
    let roots = state
        .capture_refreshed_roots(Ok(root("/left", 100)), Ok(root("/right", 200)))
        .unwrap();
    let rows = state.staged_rows(&scope, &Vec::new());
    let previous = state.reconcile_install("dir", rows, roots);
    assert_eq!(state.all_entries.len(), 1);
    assert!(state.reopening_needs("dir").is_none());
    state.restore_expanded_directory("dir", Ok(Vec::new())).unwrap();
    let error = state
        .reconcile_complete(
            &scope,
            previous,
            &NameSet::new(),
            Ok(root("/left", 101)),
            Ok(root("/right", 200)),
        )
        .unwrap_err();
    assert_eq!(error, "A comparison root was replaced; run the comparison again");
    assert_eq!(state.all_entries.len(), 3);
    assert!(state.left_root_authorization.is_none());
    assert!(state.right_root_authorization.is_none());
}

#[test]
fn a_finished_operation_without_a_row_disables_further_changes() {
    let mut app = app_with("/left", "/right", nested_rows());
    let state = app.diff_state.as_mut().unwrap();
    state.pending_copy_path = Some("gone".to_string());
    assert_eq!(
        state.finish_copy_operation().err().as_deref(),
        Some("Completed operation target 'gone' is no longer in the comparison")
    );
    assert!(state.left_root_authorization.is_none());
    assert_eq!(
        state.finish_copy_operation().err().as_deref(),
        Some("Copy completion path is unavailable")
    );
    assert_eq!(
        state.finish_delete_operation().err().as_deref(),
        Some("Delete completion path is unavailable")
    );
}

#[test]
fn a_replaced_directory_above_ends_the_refresh() {
    let refresh = |left: Option<DiffFileInfo>, allow: bool| {
        let above = vec![PairFacts {
            left: snapshot(left),
            right: snapshot(Some(info("/right/dir", 21, true))),
            evidence: NO_EVIDENCE,
        }];
        let mut rows = nested_rows();
        if allow {
            rows[0].left = None;
        }
        refresh_diff_ancestor_entries(
            rows,
            "dir/file.txt",
            &above,
            CompareMethod::Content,
            allow,
        )
    };
    assert_eq!(
        refresh(Some(info("/left/dir", 77, true)), false).err().as_deref(),
        Some("DIFF left ancestor 'dir' was replaced; run the comparison again")
    );
    assert_eq!(
        refresh(None, false).err().as_deref(),
        Some("DIFF left ancestor 'dir' disappeared; run the comparison again")
    );
    let (rows, created) = refresh(Some(info("/left/dir", 77, true)), true).unwrap();
    assert_eq!(created.left, ["dir"]);
    assert!(created.right.is_empty());

    let mut rows = rows;
    rows[1].left = None;
    let places = rows_to_capture(&rows, &created.left, true);
    assert_eq!(places, [1]);
    let fresh = missing("/left", "dir/file.txt");
    refresh_created_ancestor_missing_authorizations(&mut rows, &places, &vec![Some(fresh)], true);
    assert!(rows[1].left_missing.is_some());
    assert!(rows[0].left_missing.is_none());
}

#[test]
fn a_directory_that_appeared_is_an_error_unless_some_were_made() {
    let mut rows = nested_rows();
    rows[0].left = None;
    let above = vec![PairFacts {
        left: snapshot(Some(info("/left/dir", 20, true))),
        right: snapshot(Some(info("/right/dir", 21, true))),
        evidence: NO_EVIDENCE,
    }];
    let error = refresh_diff_ancestor_entries(
        rows,
        "dir/file.txt",
        &above,
        CompareMethod::Content,
        false,
    );
    assert_eq!(
        error.err().as_deref(),
        Some("DIFF left ancestor 'dir' appeared unexpectedly; run the comparison again")
    );
}
