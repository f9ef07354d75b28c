use cokacdir::authorization::PathAuthorization;
use cokacdir::diff_ancestors::{refresh_diff_ancestor_entries, PairFacts, Snapshot};
use cokacdir::diff_build::SideName;
use cokacdir::diff_build_run::{BuildRun, Examined};
use cokacdir::diff_compare::CompareEvidence;
use cokacdir::diff_fold::LoadedChild;
use cokacdir::diff_reconcile::ReconcileScope;
use cokacdir::diff_state::{diff_path_is_within, diff_subtree_end, DiffState};
use cokacdir::diff_tree::resort_flat_tree;
use cokacdir::diff_types::{
    diff_status_has_difference, CompareMethod, DiffEntry, DiffFileInfo, DiffFilter, DiffStatus,
    FileTime,
};
use cokacdir::sorting::{SortBy, SortOrder};

const NOW: FileTime = FileTime { secs: 1_700_000_000, nanos: 0 };

/// A small tree: the names of each directory with their sizes, directories without.
const LEFT: [(&str, &str, Option<u64>); 8] = [
    ("", "b", None),
    ("", "a", None),
    ("", "top.txt", Some(9)),
    ("a", "same.txt", Some(4)),
    ("a", "inner", None),
    ("a/inner", "changed.txt", Some(1)),
    ("b", "same.txt", Some(4)),
    ("", "left", None),
];

const RIGHT: [(&str, &str, Option<u64>); 7] = [
    ("", "a", None),
    ("", "b", None),
    ("a", "same.txt", Some(4)),
    ("a", "inner", None),
    ("a/inner", "changed.txt", Some(2)),
    ("b", "same.txt", Some(4)),
    ("", "right.txt", Some(3)),
];

fn side_names(tree: &[(&str, &str, Option<u64>)], dir: &str) -> Vec<SideName> {
    tree.iter()
        .filter(|(parent, _, _)| *parent == dir)
        .map(|(_, name, size)| SideName {
            name: name.to_string(),
            leads_to_directory: size.is_none(),
            size: *size,
            modified: Some(NOW),
        })
        .collect()
}

fn file_info(path: &str, size: u64, is_directory: bool) -> DiffFileInfo {
    DiffFileInfo {
        name: path.rsplit('/').next().unwrap().to_string(),
        size,
        modified: NOW,
        is_directory,
        is_symlink: false,
        full_path: format!("/{}", path),
        authorization: Some(PathAuthorization {
            device: 1,
            inode: path.len() as u64,
            stamp: 3,
            directory: is_directory,
        }),
    }
}

fn look_up(tree: &[(&str, &str, Option<u64>)], path: &str) -> Option<DiffFileInfo> {
    tree.iter()
        .find(|(parent, name, _)| match parent.is_empty() {
            true => *name == path,
            false => format!("{}/{}", parent, name) == path,
        })
        .map(|(_, _, size)| file_info(path, size.unwrap_or(0), size.is_none()))
}

fn found_at(path: &str) -> Examined {
    let left = look_up(&LEFT, path);
    let right = look_up(&RIGHT, path);
    let bytes_equal = match (&left, &right) {
        (Some(l), Some(r)) => l.size == r.size,
        _ => false,
    };
    Examined {
        left,
        right,
        left_missing: None,
        right_missing: None,
        evidence: CompareEvidence { links_equal: false, bytes_equal },
        left_names: side_names(&LEFT, path),
        right_names: side_names(&RIGHT, path),
    }
}

fn compared(sort_by: SortBy, sort_order: SortOrder) -> Vec<DiffEntry> {
    let mut run = BuildRun::start(
        &side_names(&LEFT, ""),
        &side_names(&RIGHT, ""),
        CompareMethod::Content,
        sort_by,
        sort_order,
    );
    while let Some(request) = run.next_request() {
        let found = found_at(&request.relative_path);
        run.examined(&request, found).unwrap();
    }
    run.entries
}

fn paths(rows: &[DiffEntry]) -> Vec<&str> {
    rows.iter().map(|row| row.relative_path.as_str()).collect()
}

fn status_at(rows: &[DiffEntry], path: &str) -> DiffStatus {
    rows.iter().find(|row| row.relative_path == path).unwrap().status
}

fn is_tree(rows: &[DiffEntry]) -> bool {
    rows.iter().enumerate().all(|(j, row)| {
        row.depth == 0
            || rows[..j]
                .iter()
                .rev()
                .find(|above| above.depth < row.depth)
                .map_or(false, |above| {
                    above.is_directory
                        && above.depth + 1 == row.depth
                        && diff_path_is_within(&row.relative_path, &above.relative_path)
                })
    })
}

fn is_settled(rows: &Vec<DiffEntry>) -> bool {
    (0..rows.len()).all(|i| {
        let below = &rows[i + 1..diff_subtree_end(rows, i)];
        let differs = below.iter().any(|row| diff_status_has_difference(row.status));
        match rows[i].status {
            DiffStatus::DirModified => differs,
            DiffStatus::DirSame => !differs,
            _ => true,
        }
    })
}

#[test]
fn a_comparison_lists_both_trees() {
    let rows = compared(SortBy::Name, SortOrder::Asc);
    assert_eq!(
        paths(&rows),
        [
            "a",
            "a/inner",
            "a/inner/changed.txt",
            "a/same.txt",
            "b",
            "b/same.txt",
            "left",
            "right.txt",
            "top.txt",
        ]
    );
    assert_eq!(status_at(&rows, "a"), DiffStatus::DirModified);
    assert_eq!(status_at(&rows, "a/inner"), DiffStatus::DirModified);
    assert_eq!(status_at(&rows, "a/inner/changed.txt"), DiffStatus::Modified);
    assert_eq!(status_at(&rows, "a/same.txt"), DiffStatus::Same);
    assert_eq!(status_at(&rows, "b"), DiffStatus::DirSame);
    assert_eq!(status_at(&rows, "left"), DiffStatus::LeftOnly);
    assert_eq!(status_at(&rows, "right.txt"), DiffStatus::RightOnly);
    assert_eq!(status_at(&rows, "top.txt"), DiffStatus::LeftOnly);
    assert!(rows[6].children_not_loaded);
    assert!(is_tree(&rows));
    assert!(is_settled(&rows));
}

#[test]
fn sorting_again_gives_what_a_sorted_comparison_gives() {
    let rows = compared(SortBy::Name, SortOrder::Asc);
    let turned = resort_flat_tree(&rows, SortBy::Name, SortOrder::Desc);
    assert_eq!(
        paths(&turned),
        [
            "left",
            "b",
            "b/same.txt",
            "a",
            "a/inner",
            "a/inner/changed.txt",
            "a/same.txt",
            "top.txt",
            "right.txt",
        ]
    );
    assert_eq!(paths(&turned), paths(&compared(SortBy::Name, SortOrder::Desc)));
    assert!(is_tree(&turned));
    assert!(is_settled(&turned));
    for sort_by in [SortBy::Name, SortBy::Type, SortBy::Size, SortBy::Modified] {
        for sort_order in [SortOrder::Asc, SortOrder::Desc] {
            let once = resort_flat_tree(&rows, sort_by, sort_order);
            let twice = resort_flat_tree(&once, sort_by, sort_order);
            assert_eq!(paths(&once), paths(&twice));
            let top: Vec<bool> =
                once.iter().filter(|row| row.depth == 0).map(|row| row.is_directory).collect();
            assert_eq!(top, [true, true, true, false, false]);
        }
    }
    let by_time = resort_flat_tree(&turned, SortBy::Modified, SortOrder::Desc);
    assert_eq!(paths(&by_time)[..2], ["a", "a/inner"]);
}

fn on_screen(rows: Vec<DiffEntry>) -> DiffState {
    let mut state = DiffState::new(
        "left".to_string(),
        "right".to_string(),
        CompareMethod::Content,
        SortBy::Name,
        SortOrder::Asc,
    );
    state.filter = DiffFilter::All;
    state.all_entries = rows;
    state.apply_filter();
    state
}

#[test]
fn reading_in_a_directory_keeps_the_tree() {
    let mut state = on_screen(compared(SortBy::Name, SortOrder::Asc));
    let child = |name: &str, is_directory: bool| LoadedChild {
        name: name.to_string(),
        leads_to_directory: is_directory,
        info: Some(file_info(&format!("left/{}", name), 1, is_directory)),
        left_missing: None,
        right_missing: None,
    };
    state.lazy_load_children(6, vec![child("z.txt", false), child("deep", true)]);
    assert_eq!(paths(&state.all_entries)[6..10], ["left", "left/deep", "left/z.txt", "right.txt"]);
    assert_eq!(status_at(&state.all_entries, "left/deep"), DiffStatus::LeftOnly);
    assert!(!state.all_entries[6].children_not_loaded);
    assert!(is_tree(&state.all_entries));
    assert!(is_settled(&state.all_entries));
}

#[test]
fn every_shown_row_has_its_directories_shown() {
    let mut state = on_screen(compared(SortBy::Name, SortOrder::Asc));
    for filter in [
        DiffFilter::All,
        DiffFilter::DifferentOnly,
        DiffFilter::LeftOnly,
        DiffFilter::RightOnly,
    ] {
        state.filter = filter;
        state.apply_filter();
        let shown: Vec<&str> = state
            .filtered_indices
            .iter()
            .map(|i| state.all_entries[*i].relative_path.as_str())
            .collect();
        for path in &shown {
            if let Some((dir, _)) = path.rsplit_once('/') {
                assert!(shown.contains(&dir));
            }
        }
    }
}

#[test]
fn refreshing_a_directory_settles_those_above_it() {
    let rows = compared(SortBy::Name, SortOrder::Asc);
    let state = on_screen(rows);
    // The file that differed was copied: its directory is compared anew.
    let row = DiffEntry {
        relative_path: "a/inner".to_string(),
        left: Some(file_info("a/inner", 0, true)),
        right: Some(file_info("a/inner", 0, true)),
        status: DiffStatus::DirSame,
        is_directory: true,
        depth: 1,
        children_not_loaded: false,
        left_missing: None,
        right_missing: None,
    };
    let mut run = BuildRun::start_below(
        row,
        &side_names(&LEFT, "a/inner"),
        &side_names(&RIGHT, "a/inner"),
        CompareMethod::Content,
        SortBy::Name,
        SortOrder::Asc,
    );
    while let Some(request) = run.next_request() {
        let mut found = found_at(&request.relative_path);
        found.right = found.left.as_ref().map(|_| file_info(&request.relative_path, 1, false));
        found.evidence.bytes_equal = true;
        run.examined(&request, found).unwrap();
    }
    assert_eq!(paths(&run.entries), ["a/inner", "a/inner/changed.txt"]);
    assert_eq!(run.entries[0].status, DiffStatus::DirSame);
    let scope = ReconcileScope {
        relative_path: "a/inner".to_string(),
        target_index: 1,
        target_end: diff_subtree_end(&state.all_entries, 1),
        target_depth: 1,
        anchor: state.capture_cursor_anchor(),
        expanded: Vec::new(),
    };
    let staged = state.staged_rows(&scope, &run.entries);
    assert!(is_tree(&staged));
    assert!(!is_settled(&staged));
    let directory = || Ok(Snapshot { info: Some(file_info("a", 0, true)), missing: None });
    let facts = vec![PairFacts {
        left: directory(),
        right: directory(),
        evidence: CompareEvidence { links_equal: false, bytes_equal: false },
    }];
    let (fresh, _) =
        refresh_diff_ancestor_entries(staged, "a/inner", &facts, CompareMethod::Content, false)
            .unwrap();
    assert_eq!(status_at(&fresh, "a"), DiffStatus::DirSame);
    assert!(is_tree(&fresh));
    assert!(is_settled(&fresh));
}
