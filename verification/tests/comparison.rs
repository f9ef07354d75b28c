use cokacdir::diff_compare::{
    compare_files, read_exact_or_eof, CompareEvidence, ReadOutcome,
};
use cokacdir::diff_scan::{make_file_info, ItemFacts};
use cokacdir::diff_state::{DiffCompletion, DiffState};
use cokacdir::diff_tree::resort_flat_tree;
use cokacdir::diff_types::{
    CompareMethod, DiffEntry, DiffFileInfo, DiffFilter, DiffStatus, FileTime,
};
use cokacdir::sorting::{SortBy, SortOrder};

const NOW: FileTime = FileTime { secs: 1_700_000_000, nanos: 0 };

fn comparison() -> DiffState {
    DiffState::new(
        "left".to_string(),
        "right".to_string(),
        CompareMethod::Content,
        SortBy::Name,
        SortOrder::Asc,
    )
}

#[test]
fn read_error_is_not_reported_as_eof() {
    let mut buffer: Vec<u8> = Vec::new();
    assert!(read_exact_or_eof(&mut buffer, 8, ReadOutcome::Failed("broken".to_string())).is_err());
}

#[test]
fn completed_comparison_prunes_only_stale_selections() {
    let mut state = comparison();
    state.selected_files.insert("still-present".to_string());
    state.selected_files.insert("removed".to_string());
    let entry = DiffEntry {
        relative_path: "still-present".to_string(),
        left: None,
        right: None,
        status: DiffStatus::LeftOnly,
        is_directory: false,
        depth: 0,
        children_not_loaded: false,
        left_missing: None,
        right_missing: None,
    };
    state.is_comparing = true;

    assert!(state.poll(Vec::new(), DiffCompletion::Finished(vec![entry])));
    assert_eq!(state.selected_files.len(), 1);
    assert!(state.selected_files.contains("still-present"));
}

#[test]
fn symlink_and_regular_file_are_not_equal_even_with_same_bytes() {
    let facts = |is_symlink: bool| ItemFacts {
        is_symlink,
        leads_to_directory: false,
        length: 10,
        modified: NOW,
        first_seen: None,
        last_seen: None,
    };
    let left = make_file_info("link", "/tmp/link", Some(facts(true))).unwrap();
    let right = make_file_info("regular", "/tmp/regular", Some(facts(false))).unwrap();
    let same_bytes = CompareEvidence { links_equal: false, bytes_equal: true };

    assert!(!compare_files(&left, &right, CompareMethod::Content, same_bytes));
}

#[test]
fn deeply_nested_resort_uses_an_explicit_stack() {
    const DEPTH: usize = 20_000;
    let entries: Vec<DiffEntry> = (0..DEPTH)
        .map(|depth| DiffEntry {
            relative_path: depth.to_string(),
            left: None,
            right: None,
            status: DiffStatus::DirSame,
            is_directory: true,
            depth,
            children_not_loaded: false,
            left_missing: None,
            right_missing: None,
        })
        .collect();

    let sorted = resort_flat_tree(&entries, SortBy::Name, SortOrder::Asc);

    assert_eq!(sorted.len(), DEPTH);
    assert_eq!(sorted.last().unwrap().depth, DEPTH - 1);
}

#[test]
fn iterative_resort_keeps_children_with_their_parent() {
    let make_entry = |path: &str, name: &str, depth: usize| DiffEntry {
        relative_path: path.to_string(),
        left: Some(DiffFileInfo {
            name: name.to_string(),
            size: 0,
            modified: NOW,
            is_directory: true,
            is_symlink: false,
            full_path: path.to_string(),
            authorization: None,
        }),
        right: None,
        status: DiffStatus::LeftOnly,
        is_directory: true,
        depth,
        children_not_loaded: false,
        left_missing: None,
        right_missing: None,
    };
    let entries = vec![
        make_entry("b", "b", 0),
        make_entry("b/child", "child-b", 1),
        make_entry("a", "a", 0),
        make_entry("a/child", "child-a", 1),
    ];

    let sorted = resort_flat_tree(&entries, SortBy::Name, SortOrder::Asc);
    let paths: Vec<&str> = sorted.iter().map(|entry| entry.relative_path.as_str()).collect();

    assert_eq!(paths, ["a", "a/child", "b", "b/child"]);
}

#[test]
fn left_on_file_focuses_and_collapses_its_parent() {
    let entry = |relative_path: &str, is_directory: bool, depth: usize| DiffEntry {
        relative_path: relative_path.to_string(),
        left: None,
        right: None,
        status: if is_directory {
            DiffStatus::DirModified
        } else {
            DiffStatus::Modified
        },
        is_directory,
        depth,
        children_not_loaded: false,
        left_missing: None,
        right_missing: None,
    };
    let mut state = comparison();
    state.filter = DiffFilter::All;
    state.all_entries = vec![
        entry("src", true, 0),
        entry("src/ui", true, 1),
        entry("src/ui/help.rs", false, 2),
        entry("src/ui/nested", true, 2),
        entry("src/ui/nested/view.rs", false, 3),
        entry("src/app.rs", false, 1),
    ];
    state.apply_filter();
    state.selected_index = state
        .filtered_indices
        .iter()
        .position(|&index| state.all_entries[index].relative_path == "src/ui/help.rs")
        .unwrap();

    state.collapse_one_level();

    assert_eq!(
        state.current_entry().map(|entry| entry.relative_path.as_str()),
        Some("src/ui")
    );
    assert!(state.collapsed_dirs.contains("src/ui"));
    assert!(state.collapsed_dirs.contains("src/ui/nested"));
    let visible_paths: Vec<&str> = state
        .filtered_indices
        .iter()
        .map(|&index| state.all_entries[index].relative_path.as_str())
        .collect();
    assert_eq!(visible_paths, ["src", "src/ui", "src/app.rs"]);
}
