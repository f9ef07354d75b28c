use cokacdir::authorization::{
    DirectoryAuthorization, MissingPathAuthorization, PathAuthorization,
};
use cokacdir::diff_ancestors::{targeted_row, PairFacts, Snapshot};
use cokacdir::diff_build::SideName;
use cokacdir::diff_build_run::{BuildRun, Examined};
use cokacdir::diff_compare::CompareEvidence;
use cokacdir::diff_fold::LoadedChild;
use cokacdir::diff_reconcile::ReconcileScope;
use cokacdir::diff_state::{diff_path_is_within, DiffState};
use cokacdir::diff_types::{
    CompareMethod, DiffEntry, DiffFileInfo, DiffFilter, DiffStatus, FileTime,
};
use cokacdir::diff_view::{function_bar, BottomBar, ScreenKeys};
use cokacdir::names::NameSet;
use cokacdir::sorting::{SortBy, SortOrder};

const NOW: FileTime = FileTime { secs: 1_700_000_000, nanos: 0 };

const LEFT: u64 = 100;

const RIGHT: u64 = 200;

fn root(path: &str, inode: u64) -> DirectoryAuthorization {
    DirectoryAuthorization { resolved_path: path.to_string(), device: 1, inode }
}

fn info(path: &str, is_directory: bool) -> DiffFileInfo {
    let inode = path.bytes().fold(7u64, |sum, byte| sum.wrapping_mul(31) + byte as u64);
    DiffFileInfo {
        name: path.rsplit('/').next().unwrap().to_string(),
        size: if is_directory { 0 } else { 4 },
        modified: NOW,
        is_directory,
        is_symlink: false,
        full_path: path.to_string(),
        authorization: Some(PathAuthorization { device: 1, inode, stamp: 5, directory: is_directory }),
    }
}

fn missing(path: &str) -> MissingPathAuthorization {
    MissingPathAuthorization { root: root("/right", RIGHT), relative_path: path.to_string() }
}

fn left_only(path: &str, is_directory: bool) -> DiffEntry {
    DiffEntry {
        relative_path: path.to_string(),
        left: Some(info(&format!("/left/{path}"), is_directory)),
        right: None,
        status: DiffStatus::LeftOnly,
        is_directory,
        depth: path.matches('/').count(),
        children_not_loaded: is_directory,
        left_missing: None,
        right_missing: Some(missing(path)),
    }
}

fn on_both(path: &str, is_directory: bool, status: DiffStatus) -> DiffEntry {
    DiffEntry {
        relative_path: path.to_string(),
        left: Some(info(&format!("/left/{path}"), is_directory)),
        right: Some(info(&format!("/right/{path}"), is_directory)),
        status,
        is_directory,
        depth: path.matches('/').count(),
        children_not_loaded: false,
        left_missing: None,
        right_missing: None,
    }
}

fn child(directory: &str, name: &str, is_directory: bool) -> LoadedChild {
    LoadedChild {
        name: name.to_string(),
        leads_to_directory: is_directory,
        info: Some(info(&format!("/left/{directory}/{name}"), is_directory)),
        left_missing: None,
        right_missing: Some(missing(&format!("{directory}/{name}"))),
    }
}

fn state_with(rows: Vec<DiffEntry>) -> DiffState {
    let mut state = DiffState::new(
        "/left".to_string(),
        "/right".to_string(),
        CompareMethod::Content,
        SortBy::Name,
        SortOrder::Asc,
    );
    state.left_root_authorization = Some(root("/left", LEFT));
    state.right_root_authorization = Some(root("/right", RIGHT));
    state.build_diff_list(rows);
    state
}

fn current(state: &DiffState) -> Option<&str> {
    state.current_entry().map(|entry| entry.relative_path.as_str())
}

fn facts(left: bool, right: bool, path: &str, is_directory: bool, equal: bool) -> PairFacts {
    let side = |there: bool, side: &str| {
        Ok(Snapshot {
            info: if there { Some(info(&format!("/{side}/{path}"), is_directory)) } else { None },
            missing: if there { None } else { Some(missing(path)) },
        })
    };
    PairFacts {
        left: side(left, "left"),
        right: side(right, "right"),
        evidence: CompareEvidence { links_equal: false, bytes_equal: equal },
    }
}

/// Takes the outcome of an operation at the top level into the comparison.
fn reconcile(
    state: &mut DiffState,
    scope: &ReconcileScope,
    now: PairFacts,
    children: &dyn Fn(&str) -> Vec<LoadedChild>,
    gone: &NameSet,
) -> Result<(), String> {
    let roots =
        state.capture_refreshed_roots(Ok(root("/left", LEFT)), Ok(root("/right", RIGHT)))?;
    let fresh =
        targeted_row(&scope.relative_path, scope.target_depth, now, CompareMethod::Content)?;
    let rows = state.staged_rows(scope, &fresh.into_iter().collect());
    let previous = state.reconcile_install(&scope.relative_path, rows, roots);
    for path in &scope.expanded {
        let list = match state.reopening_needs(path) {
            Some(_) => children(path),
            None => Vec::new(),
        };
        if let Err(error) = state.restore_expanded_directory(path, Ok(list)) {
            state.reconcile_undo(previous);
            return Err(error);
        }
    }
    state.reconcile_complete(
        scope,
        previous,
        gone,
        Ok(root("/left", LEFT)),
        Ok(root("/right", RIGHT)),
    )
}

fn children_of(path: &str) -> Vec<LoadedChild> {
    match path {
        "dir" => vec![child("dir", "expanded", true), child("dir", "collapsed", true)],
        other => vec![child(other, "file.txt", false)],
    }
}

fn expanded_state() -> DiffState {
    let mut state = state_with(vec![left_only("dir", true)]);
    state.filter = DiffFilter::All;
    state.apply_filter();
    let mut job = state.expand_all_begin().unwrap();
    while !job.is_done() {
        let children = match job.load_needed(&state) {
            Some(row) => children_of(&state.all_entries[row].relative_path),
            None => Vec::new(),
        };
        state.expand_all_step(&mut job, children);
    }
    state.expand_all(&job);
    state.collapsed_dirs.insert("dir/collapsed".to_string());
    state.apply_filter();
    state
}

#[test]
fn targeted_reconciliation_preserves_expansion_and_unrelated_state() {
    let mut state = expanded_state();
    state.selected_files.insert("dir/expanded/file.txt".to_string());
    state.selected_files.insert("unrelated-selection.txt".to_string());
    state.copy_in_progress = true;
    state.pending_copy_path = Some("dir".to_string());
    let scope = state.finish_copy_operation().unwrap();
    reconcile(
        &mut state,
        &scope,
        facts(true, false, "dir", true, false),
        &children_of,
        &NameSet::new(),
    )
    .unwrap();

    assert!(!state.collapsed_dirs.contains("dir"));
    assert!(!state.collapsed_dirs.contains("dir/expanded"));
    assert!(state.collapsed_dirs.contains("dir/collapsed"));
    assert!(state.selected_files.contains("dir/expanded/file.txt"));
    assert!(state.selected_files.contains("unrelated-selection.txt"));
    assert!(!state.all_entries.iter().any(|entry| entry.relative_path == "unrelated-new"));

    let visible_paths: Vec<_> = state
        .filtered_indices
        .iter()
        .map(|&index| state.all_entries[index].relative_path.as_str())
        .collect();
    assert!(visible_paths.contains(&"dir/expanded/file.txt"));
    assert!(!visible_paths.contains(&"dir/collapsed/file.txt"));
}

#[test]
fn a_child_that_vanishes_while_a_directory_is_opened_again_brings_the_rows_back() {
    let mut state = expanded_state();
    let before: Vec<String> =
        state.all_entries.iter().map(|entry| entry.relative_path.clone()).collect();
    state.pending_copy_path = Some("dir".to_string());
    let scope = state.finish_copy_operation().unwrap();
    let error = reconcile(
        &mut state,
        &scope,
        facts(true, false, "dir", true, false),
        &|path| {
            let mut children = children_of(path);
            if path == "dir/expanded" {
                children.push(child(path, "b.txt", false));
                children.push(child(path, "a.txt", false));
                children[1].info = None;
                children[2].info = None;
            }
            children
        },
        &NameSet::new(),
    )
    .unwrap_err();
    assert_eq!(error, "Expanded DIFF entry 'dir/expanded/a.txt' changed while it was refreshed");
    let after: Vec<String> =
        state.all_entries.iter().map(|entry| entry.relative_path.clone()).collect();
    assert_eq!(after, before);
}

#[test]
fn a_directory_that_cannot_be_read_again_is_not_opened() {
    let mut state = state_with(vec![left_only("dir", true)]);
    assert_eq!(
        state.restore_expanded_directory("dir", Err("denied".to_string())),
        Err("denied".to_string())
    );
    assert!(state.all_entries[0].children_not_loaded);
    assert_eq!(state.lazy_load_children_checked(0, Ok(children_of("dir"))), Ok(()));
    let paths: Vec<&str> =
        state.all_entries.iter().map(|entry| entry.relative_path.as_str()).collect();
    assert_eq!(paths, ["dir", "dir/collapsed", "dir/expanded"]);
    assert!(!state.all_entries[0].children_not_loaded);
    assert!(state.collapsed_dirs.contains("dir/expanded"));
}

#[test]
fn cursor_moves_to_the_next_surviving_row_and_keeps_its_visual_offset() {
    let names = ["a.txt", "b.txt", "c.txt", "d.txt"];
    let mut state = state_with(names.iter().map(|name| left_only(name, false)).collect());
    state.apply_filter();
    state.visible_height = 2;
    state.selected_index = 2;
    state.scroll_offset = 1;
    assert_eq!(current(&state), Some("c.txt"));

    state.copy_in_progress = true;
    state.pending_copy_path = Some("c.txt".to_string());
    let scope = state.finish_copy_operation().unwrap();
    reconcile(
        &mut state,
        &scope,
        facts(true, true, "c.txt", false, true),
        &children_of,
        &NameSet::new(),
    )
    .unwrap();

    assert_eq!(current(&state), Some("d.txt"));
    assert_eq!(state.selected_index.saturating_sub(state.scroll_offset), 1);
    assert!(!state.is_comparing);
}

#[test]
fn partial_delete_keeps_the_cursor_on_the_still_visible_target() {
    let mut state = state_with(vec![on_both("target.txt", false, DiffStatus::Modified)]);
    state.apply_filter();
    state.delete_in_progress = true;
    state.pending_delete_path = Some("target.txt".to_string());
    let scope = state.finish_delete_operation().unwrap();
    reconcile(
        &mut state,
        &scope,
        facts(false, true, "target.txt", false, false),
        &children_of,
        &NameSet::new(),
    )
    .unwrap();

    let current = state.current_entry().unwrap();
    assert_eq!(current.relative_path, "target.txt");
    assert_eq!(current.status, DiffStatus::RightOnly);
    assert!(!state.delete_in_progress());
    assert!(!state.is_comparing);
}

#[test]
fn two_sided_delete_removes_only_the_target_entry_and_its_selection() {
    let mut state = state_with(vec![
        on_both("target", true, DiffStatus::DirSame),
        on_both("target/child.txt", false, DiffStatus::Same),
        left_only("unrelated.txt", false),
    ]);
    state.filter = DiffFilter::All;
    state.apply_filter();
    state.selected_files.insert("target".to_string());
    state.selected_files.insert("target/child.txt".to_string());
    state.selected_files.insert("unrelated.txt".to_string());

    let mut gone = NameSet::new();
    gone.insert("target".to_string());
    gone.insert("target/child.txt".to_string());
    state.delete_in_progress = true;
    state.pending_delete_path = Some("target".to_string());
    let scope = state.finish_delete_operation().unwrap();
    reconcile(
        &mut state,
        &scope,
        facts(false, false, "target", true, false),
        &children_of,
        &gone,
    )
    .unwrap();

    assert!(!state
        .all_entries
        .iter()
        .any(|entry| diff_path_is_within(&entry.relative_path, "target")));
    assert!(!state.selected_files.contains("target"));
    assert!(!state.selected_files.contains("target/child.txt"));
    assert!(state.selected_files.contains("unrelated.txt"));
    assert_eq!(current(&state), Some("unrelated.txt"));
}

#[test]
fn deeply_nested_comparison_uses_an_explicit_stack() {
    const DEPTH: usize = 700;
    let directory = || {
        vec![SideName {
            name: "d".to_string(),
            leads_to_directory: true,
            size: Some(0),
            modified: Some(NOW),
        }]
    };
    let leaf = || {
        vec![SideName {
            name: "leaf".to_string(),
            leads_to_directory: false,
            size: Some(4),
            modified: Some(NOW),
        }]
    };
    let mut run = BuildRun::start(
        &directory(),
        &directory(),
        CompareMethod::Content,
        SortBy::Name,
        SortOrder::Asc,
    );
    while let Some(request) = run.next_request() {
        let is_directory = request.name == "d";
        let level = request.relative_path.matches('/').count() + 1;
        let below = || {
            if !is_directory {
                Vec::new()
            } else if level < DEPTH {
                directory()
            } else {
                leaf()
            }
        };
        let found = Examined {
            left: Some(info(&format!("/left/{}", request.relative_path), is_directory)),
            right: Some(info(&format!("/right/{}", request.relative_path), is_directory)),
            left_missing: None,
            right_missing: None,
            evidence: CompareEvidence { links_equal: false, bytes_equal: true },
            left_names: below(),
            right_names: below(),
        };
        run.examined(&request, found).unwrap();
    }
    let mut state = state_with(Vec::new());
    state.build_diff_list(run.entries);

    assert_eq!(state.all_entries.len(), DEPTH + 1);
    assert_eq!(state.all_entries.last().unwrap().status, DiffStatus::Same);
    assert_eq!(state.all_entries.last().unwrap().depth, DEPTH);
}

fn keys() -> ScreenKeys {
    ScreenKeys {
        up: "\u{2191}".to_string(),
        down: "\u{2193}".to_string(),
        expand: "\u{2192}".to_string(),
        collapse: "\u{2190}".to_string(),
        open: "Enter".to_string(),
        copy: "Shift+C".to_string(),
        delete: "Del".to_string(),
        expand_all: "e".to_string(),
        collapse_all: "c".to_string(),
        filter: "f".to_string(),
        by_name: "n".to_string(),
        by_size: "s".to_string(),
        by_date: "d".to_string(),
        by_type: "y".to_string(),
        close: "Esc".to_string(),
    }
}

#[test]
fn function_bar_exposes_diff_copy_and_delete_at_80_columns() {
    let whole: String = function_bar(keys())
        .iter()
        .map(|shortcut| format!("{}{}", shortcut.key, shortcut.label))
        .collect();
    let row: String = whole.chars().take(80).collect();
    assert!(row.contains("Shift+C:copy"), "got: {row:?}");
    assert!(row.contains("Del:delete"), "got: {row:?}");
    assert!(row.starts_with("\u{2191}/\u{2193}nav \u{2192}:open \u{2190}:close Enter:view "));
    assert!(whole.ends_with("e:expand c:collapse f:filter name size date y:type Esc:back"));
}

#[test]
fn comparison_progress_displays_an_operation_result_message() {
    let mut state = DiffState::new(
        "left".to_string(),
        "right".to_string(),
        CompareMethod::Content,
        SortBy::Name,
        SortOrder::Asc,
    );
    state.is_comparing = true;
    match state.bottom_bar(Some("Copy completed")) {
        BottomBar::Message(row) => assert!(row.contains("Copy completed"), "got: {row:?}"),
        other => panic!("got: {other:?}"),
    }
    assert!(matches!(state.bottom_bar(None), BottomBar::CancelKey));
    state.is_comparing = false;
    assert!(matches!(state.bottom_bar(None), BottomBar::Shortcuts));
}
