use cokacdir::app_state::App;
use cokacdir::authorization::{
    DirectoryAuthorization, DirectoryIdentity, MissingPathAuthorization, PathAuthorization,
    TreeAuthorization,
};
use cokacdir::dialogs::{DialogType, GitLogDiffState, GitLogEntry, Screen};
use cokacdir::diff_fold::LoadedChild;
use cokacdir::diff_input::{DiffFollowUp, DiffScreenAction};
use cokacdir::diff_items::{
    authorized_comparison_roots, capture_expected_diff_side,
    ensure_selected_trees_do_not_contain_other_root, CaptureOutcome, SideFacts,
};
use cokacdir::diff_state::{DiffAuthorizedItem, DiffState};
use cokacdir::diff_types::{
    diff_status_has_difference, CompareMethod, DiffEntry, DiffFileInfo, DiffFilter, DiffStatus,
    FileTime,
};
use cokacdir::diff_view::{
    column_heading, cursor_look, fill_left, fill_right, get_entry_look, header_columns, CursorLook,
    EntryLook,
};
use cokacdir::names::NameSet;
use cokacdir::navigation::Places;
use cokacdir::panel::{FileItem, RemoteEndpoint};
use cokacdir::screens::{git_diff_dirs, GitDiffJob};
use cokacdir::settings::{CrossVolumeMoveVerification, Settings};
use cokacdir::settings_flow::ThemeFile;
use cokacdir::sorting::{SortBy, SortOrder};

const NOW: FileTime = FileTime { secs: 1_700_000_000, nanos: 0 };

fn places(readable: &[&str]) -> Places {
    let mut set = NameSet::new();
    for path in readable {
        set.insert(path.to_string());
    }
    Places { home: "/home".to_string(), root: "/".to_string(), readable: set }
}

fn app() -> App {
    let settings = Settings {
        panels: Vec::new(),
        active_panel_index: 0,
        theme_name: "light".to_string(),
        diff_compare_method: "Modified_Time".to_string(),
        cross_volume_move_verification: CrossVolumeMoveVerification::Standard,
        bookmarked_path: Vec::new(),
        tar_path: None,
        remote_profiles: Vec::new(),
        extension_handlers: Vec::new(),
        telegram_polling_time: 2_500,
        encrypt_split_size: 1_800,
    };
    let theme = ThemeFile { path: None, modified: None };
    App::new("/one", "/two", &places(&["/one", "/two"]), settings, theme)
}

fn message(app: &App) -> &str {
    app.message.as_deref().unwrap_or("")
}

fn info(path: &str, is_directory: bool, size: u64) -> DiffFileInfo {
    DiffFileInfo {
        name: path.rsplit('/').next().unwrap().to_string(),
        size,
        modified: NOW,
        is_directory,
        is_symlink: false,
        full_path: path.to_string(),
        authorization: None,
    }
}

fn row(path: &str, is_directory: bool, size: u64, status: DiffStatus) -> DiffEntry {
    let unread = is_directory && status == DiffStatus::LeftOnly;
    DiffEntry {
        relative_path: path.to_string(),
        left: Some(info(&format!("/one/{path}"), is_directory, size)),
        right: if status == DiffStatus::LeftOnly {
            None
        } else {
            Some(info(&format!("/two/{path}"), is_directory, size))
        },
        status,
        is_directory,
        depth: path.matches('/').count(),
        children_not_loaded: unread,
        left_missing: None,
        right_missing: None,
    }
}

/// A comparison of a directory with two files, a directory that only one side has,
/// and two files beside them.
fn comparing() -> App {
    let mut app = app();
    assert!(app.enter_diff_screen("/one".to_string(), "/two".to_string()));
    let state = app.diff_state.as_mut().unwrap();
    state.build_diff_list(vec![
        row("d", true, 0, DiffStatus::DirModified),
        row("d/a", false, 9, DiffStatus::Modified),
        row("d/b", false, 1, DiffStatus::Same),
        row("e", true, 0, DiffStatus::LeftOnly),
        row("x", false, 5, DiffStatus::Modified),
        row("y", false, 2, DiffStatus::Modified),
    ]);
    state.apply_filter();
    app
}

fn press(app: &mut App, action: DiffScreenAction) -> DiffFollowUp {
    app.handle_input(Some(action), Vec::new())
}

fn shown(app: &App) -> Vec<&str> {
    let state = app.diff_state.as_ref().unwrap();
    state
        .filtered_indices
        .iter()
        .map(|&i| state.all_entries[i].relative_path.as_str())
        .collect()
}

fn cursor(app: &App) -> &str {
    let state = app.diff_state.as_ref().unwrap();
    state.current_entry().unwrap().relative_path.as_str()
}

fn dir(name: &str) -> FileItem {
    FileItem {
        name: name.to_string(),
        display_name: None,
        is_directory: true,
        is_symlink: false,
        size: 0,
        modified: NOW,
        permissions: String::new(),
    }
}

#[test]
fn a_comparison_starts_from_two_panels() {
    let mut app = app();
    assert!(app.start_diff("F8", "Esc"));
    let state = app.diff_state.as_ref().unwrap();
    assert_eq!((state.left_root.as_str(), state.right_root.as_str()), ("/one", "/two"));
    assert_eq!(state.compare_method, CompareMethod::ModifiedTime);
    assert_eq!(state.filter, DiffFilter::DifferentOnly);
    assert_eq!(app.current_screen, Screen::DiffScreen);

    let mut app = self::app();
    app.panels[1].path = "/one/".to_string();
    assert!(!app.start_diff("F8", "Esc"));
    assert_eq!(message(&app), "Both paths are the same");
    app.panels.pop();
    assert!(!app.start_diff("F8", "Esc"));
    assert_eq!(message(&app), "Need at least 2 panels for diff");
    app.panels[0].remote_display =
        Some(RemoteEndpoint { user: "kim".to_string(), host: "h".to_string(), port: 22 });
    assert!(!app.start_diff("F8", "Esc"));
    assert_eq!(message(&app), "Diff is not supported for remote panels");
}

#[test]
fn a_comparison_starts_from_two_marked_directories() {
    let mut app = app();
    app.panels[0].files = vec![dir("p"), dir("q"), dir("r")];
    app.panels[0].selected_files.insert("p".to_string());
    app.panels[0].selected_files.insert("r".to_string());
    assert!(app.start_diff("F8", "Esc"));
    let state = app.diff_state.as_ref().unwrap();
    assert_eq!((state.left_root.as_str(), state.right_root.as_str()), ("/one/p", "/one/r"));
    assert!(app.panels[0].selected_files.is_empty());
}

#[test]
fn of_three_panels_two_are_chosen() {
    let mut app = app();
    app.add_panel(&places(&["/one", "/two"]));
    app.panels[1].path = "/three".to_string();
    assert!(!app.start_diff("F8", "Esc"));
    assert_eq!(message(&app), "Select second panel for diff (F8) or Esc to cancel");
    assert!(!app.start_diff("F8", "Esc"));
    assert_eq!(message(&app), "Select a different panel for diff");
    app.active_panel_index = 0;
    assert!(app.start_diff("F8", "Esc"));
    let state = app.diff_state.as_ref().unwrap();
    assert_eq!(state.left_root, "/three");
    assert_eq!(state.right_root, "/one");
    assert!(app.diff_first_panel.is_none());
}

#[test]
fn the_cursor_follows_the_keys() {
    let mut app = comparing();
    assert_eq!(shown(&app), ["d", "e", "x", "y"]);
    press(&mut app, DiffScreenAction::MoveDown);
    assert_eq!(cursor(&app), "e");
    press(&mut app, DiffScreenAction::GoEnd);
    assert_eq!(cursor(&app), "y");
    press(&mut app, DiffScreenAction::MoveDown);
    assert_eq!(cursor(&app), "y");
    app.diff_state.as_mut().unwrap().visible_height = 3;
    press(&mut app, DiffScreenAction::PageUp);
    assert_eq!(cursor(&app), "e");
    app.diff_state.as_mut().unwrap().visible_height = 2;
    press(&mut app, DiffScreenAction::PageDown);
    assert_eq!(cursor(&app), "x");
    press(&mut app, DiffScreenAction::GoHome);
    assert_eq!(cursor(&app), "d");
    press(&mut app, DiffScreenAction::MoveUp);
    assert_eq!(cursor(&app), "d");
}

#[test]
fn directories_open_and_close() {
    let mut app = comparing();
    press(&mut app, DiffScreenAction::Open);
    assert_eq!(shown(&app), ["d", "d/a", "e", "x", "y"]);
    press(&mut app, DiffScreenAction::Open);
    assert_eq!(shown(&app), ["d", "e", "x", "y"]);
    press(&mut app, DiffScreenAction::ExpandDir);
    press(&mut app, DiffScreenAction::MoveDown);
    assert_eq!(cursor(&app), "d/a");
    press(&mut app, DiffScreenAction::CollapseDir);
    assert_eq!(cursor(&app), "d");
    assert_eq!(shown(&app), ["d", "e", "x", "y"]);
    press(&mut app, DiffScreenAction::ExpandDir);
    press(&mut app, DiffScreenAction::CollapseAll);
    assert_eq!(shown(&app), ["d", "e", "x", "y"]);
}

#[test]
fn the_children_of_a_one_sided_directory_are_read_when_it_opens() {
    let mut app = comparing();
    press(&mut app, DiffScreenAction::MoveDown);
    assert_eq!(app.diff_state.as_ref().unwrap().load_needed(), Some(3));
    let child = |name: &str, is_directory: bool| LoadedChild {
        name: name.to_string(),
        leads_to_directory: is_directory,
        info: Some(info(&format!("/one/e/{name}"), is_directory, 1)),
        left_missing: None,
        right_missing: None,
    };
    app.handle_input(
        Some(DiffScreenAction::ExpandDir),
        vec![child("n", false), child("m", false), child("s", true)],
    );
    assert_eq!(shown(&app), ["d", "e", "e/s", "e/m", "e/n", "x", "y"]);
    let state = app.diff_state.as_ref().unwrap();
    assert!(!state.all_entries[3].children_not_loaded);
    assert!(state.all_entries[4].children_not_loaded);
    assert_eq!(state.all_entries[5].status, DiffStatus::LeftOnly);
    assert_eq!(state.all_entries[5].depth, 1);
    assert!(state.load_needed().is_none());
}

#[test]
fn rows_are_marked_filtered_and_sorted() {
    let mut app = comparing();
    press(&mut app, DiffScreenAction::ToggleSelect);
    assert!(app.diff_state.as_ref().unwrap().selected_files.contains("d"));
    press(&mut app, DiffScreenAction::ToggleSelect);
    assert!(app.diff_state.as_ref().unwrap().selected_files.is_empty());
    press(&mut app, DiffScreenAction::CycleFilter);
    assert_eq!(app.diff_state.as_ref().unwrap().filter, DiffFilter::LeftOnly);
    assert_eq!(shown(&app), ["e"]);
    press(&mut app, DiffScreenAction::CycleFilter);
    assert!(shown(&app).is_empty());
    press(&mut app, DiffScreenAction::CycleFilter);
    press(&mut app, DiffScreenAction::SortBySize);
    assert_eq!(shown(&app), ["d", "e", "y", "x"]);
    press(&mut app, DiffScreenAction::SortBySize);
    assert_eq!(app.diff_state.as_ref().unwrap().sort_order, SortOrder::Desc);
    assert_eq!(shown(&app).last(), Some(&"y"));
    press(&mut app, DiffScreenAction::SortByName);
    let state = app.diff_state.as_ref().unwrap();
    assert_eq!((state.sort_by, state.sort_order), (SortBy::Name, SortOrder::Asc));
    assert_eq!(shown(&app), ["d", "e", "x", "y"]);
}

#[test]
fn a_file_is_shown_side_by_side() {
    let mut app = comparing();
    press(&mut app, DiffScreenAction::GoEnd);
    press(&mut app, DiffScreenAction::Open);
    assert_eq!(app.current_screen, Screen::DiffFileView);
    let view = app.diff_file_view_state.as_ref().unwrap();
    assert_eq!((view.left_path.as_str(), view.right_path.as_str()), ("/one/y", "/two/y"));
    assert_eq!(view.file_name, "y");
}

#[test]
fn some_keys_leave_work_to_be_done() {
    let mut app = comparing();
    assert_eq!(press(&mut app, DiffScreenAction::CopyEntry), DiffFollowUp::AskCopy);
    assert_eq!(press(&mut app, DiffScreenAction::DeleteEntry), DiffFollowUp::AskDelete);
    assert_eq!(press(&mut app, DiffScreenAction::ExpandAll), DiffFollowUp::ExpandAll);
    assert_eq!(app.handle_input(None, Vec::new()), DiffFollowUp::Nothing);
    assert_eq!(press(&mut app, DiffScreenAction::Close), DiffFollowUp::Nothing);
    assert_eq!(app.current_screen, Screen::FilePanel);
    assert!(app.diff_state.is_none());
    assert_eq!(press(&mut app, DiffScreenAction::MoveUp), DiffFollowUp::Nothing);
}

#[test]
fn a_running_comparison_can_only_be_closed() {
    let mut app = comparing();
    let state = app.diff_state.as_mut().unwrap();
    state.start_comparison(None, None);
    assert!(state.is_comparing && state.all_entries.is_empty());
    assert_eq!(press(&mut app, DiffScreenAction::CopyEntry), DiffFollowUp::Nothing);
    press(&mut app, DiffScreenAction::CycleFilter);
    assert_eq!(app.diff_state.as_ref().unwrap().filter, DiffFilter::DifferentOnly);
    assert_eq!(press(&mut app, DiffScreenAction::Close), DiffFollowUp::StopComparing);
    assert!(app.diff_state.is_none());
    let mut app = comparing();
    let state = app.diff_state.as_mut().unwrap();
    state.start_comparison(None, None);
    state.cancel();
    assert!(!state.is_comparing);
}

fn root(path: &str, inode: u64) -> DirectoryAuthorization {
    DirectoryAuthorization { resolved_path: path.to_string(), device: 1, inode }
}

fn seen(stamp: u64) -> PathAuthorization {
    PathAuthorization { device: 1, inode: 9, stamp, directory: false }
}

fn item(stamp: u64, below: Vec<DirectoryIdentity>) -> DiffAuthorizedItem {
    DiffAuthorizedItem {
        parent: root("/one", 1),
        item: seen(stamp),
        tree: Some(TreeAuthorization { directories: below, stamp }),
    }
}

#[test]
fn roots_are_looked_at_again() {
    let mut state = DiffState::new(
        "/one".to_string(),
        "/two".to_string(),
        CompareMethod::Content,
        SortBy::Name,
        SortOrder::Asc,
    );
    assert_eq!(
        authorized_comparison_roots(&state, Ok(()), Ok(())).unwrap_err(),
        "Diff left root identity is unavailable; restart the comparison"
    );
    state.left_root_authorization = Some(root("/one", 1));
    assert_eq!(
        authorized_comparison_roots(&state, Ok(()), Ok(())).unwrap_err(),
        "Diff right root identity is unavailable; restart the comparison"
    );
    state.right_root_authorization = Some(root("/two", 2));
    let changed = || Err("changed".to_string());
    assert_eq!(authorized_comparison_roots(&state, Ok(()), changed()).unwrap_err(), "changed");
    let (left, right) = authorized_comparison_roots(&state, Ok(()), Ok(())).unwrap();
    assert_eq!((left.inode, right.inode), (1, 2));
}

#[test]
fn a_tree_may_not_hold_the_other_root() {
    let (left, right) = (root("/one", 1), root("/two", 2));
    let inside = |inode: u64| Some(item(5, vec![DirectoryIdentity { device: 1, inode }]));
    let refused =
        ensure_selected_trees_do_not_contain_other_root(&inside(2), &None, &left, &right);
    assert_eq!(
        refused.unwrap_err(),
        "Copy and delete are disabled when a selected directory contains the other comparison root"
    );
    assert!(
        ensure_selected_trees_do_not_contain_other_root(&inside(1), &inside(2), &left, &right)
            .is_ok()
    );
}

#[test]
fn a_side_must_be_what_was_compared() {
    let capture = |expected: Option<u64>, absent_known: bool, current: CaptureOutcome| {
        let expected = expected.map(|stamp| DiffFileInfo {
            authorization: if stamp == 0 { None } else { Some(seen(stamp)) },
            ..info("/one/a", false, 1)
        });
        let missing = if absent_known {
            Some(MissingPathAuthorization {
                root: root("/one", 1),
                relative_path: "a".to_string(),
            })
        } else {
            None
        };
        let facts = SideFacts { current, absent: Ok(()) };
        capture_expected_diff_side(&expected, &missing, facts, "left")
    };
    let found = |stamp: u64| CaptureOutcome::Found(item(stamp, Vec::new()));
    assert!(capture(Some(5), false, found(5)).unwrap().0.is_some());
    assert_eq!(
        capture(Some(5), false, found(6)).unwrap_err(),
        "Diff left item changed since the comparison; close and reopen it before continuing"
    );
    assert_eq!(
        capture(Some(5), false, CaptureOutcome::NotFound).unwrap_err(),
        "Diff left item disappeared since the comparison; close and reopen it before continuing"
    );
    assert_eq!(
        capture(Some(0), false, found(5)).unwrap_err(),
        "Diff left item identity is unavailable; close and reopen the comparison"
    );
    assert_eq!(
        capture(Some(5), false, CaptureOutcome::Failed("denied".to_string())).unwrap_err(),
        "denied"
    );
    assert_eq!(
        capture(None, false, CaptureOutcome::NotFound).unwrap_err(),
        "Diff left missing-path identity is unavailable; restart the comparison"
    );
    let (nothing, missing) = capture(None, true, CaptureOutcome::NotFound).unwrap();
    assert!(nothing.is_none());
    assert_eq!(missing.unwrap().relative_path, "a");
}

#[test]
fn rows_look_by_their_status() {
    assert_eq!(get_entry_look(DiffStatus::LeftOnly, true, true), EntryLook::LeftOnly);
    assert_eq!(get_entry_look(DiffStatus::LeftOnly, true, false), EntryLook::Empty);
    assert_eq!(get_entry_look(DiffStatus::Same, false, true), EntryLook::Empty);
    assert_eq!(cursor_look(DiffStatus::DirModified), CursorLook::Modified);
    assert_eq!(cursor_look(DiffStatus::RightOnly), CursorLook::OneSided);
    assert!(!diff_status_has_difference(DiffStatus::DirSame));
    assert!(diff_status_has_difference(DiffStatus::LeftOnly));
    assert_eq!(fill_left("ab", 4), "  ab");
    assert_eq!(fill_right("ab", 4), "ab  ");
    assert_eq!(fill_right("abcde", 4), "abcde");
    assert_eq!(header_columns(80), 34);
    assert_eq!(column_heading(35), " Name             Size         Date");
}

#[test]
fn commits_are_compared_side_by_side() {
    let mut app = app();
    let entry = || GitLogEntry { hash: "abc1234".to_string(), subject: "First".to_string() };
    app.show_git_log_diff_dialog(false, None, Vec::new());
    assert_eq!(message(&app), "Not a git repository");
    app.show_git_log_diff_dialog(true, None, vec![entry()]);
    assert_eq!(message(&app), "Failed to get git repo root");
    app.show_git_log_diff_dialog(true, Some("/p/repo".to_string()), Vec::new());
    assert_eq!(message(&app), "No git commits found");
    app.show_git_log_diff_dialog(true, Some("/p/repo".to_string()), vec![entry()]);
    assert_eq!(app.dialog.as_ref().unwrap().dialog_type, DialogType::GitLogDiff);
    let choose = |app: &mut App, hashes: [&str; 2]| {
        app.git_log_diff_state = Some(GitLogDiffState {
            repo_path: "/p/repo".to_string(),
            project_name: "repo".to_string(),
            log_entries: Vec::new(),
            selected_index: 0,
            scroll_offset: 0,
            selected_commits: hashes.iter().map(|hash| hash.to_string()).collect(),
            visible_height: 20,
        });
        app.execute_git_log_diff()
    };
    assert!(choose(&mut app, ["abc1234", "--all"]).is_none());
    assert_eq!(message(&app), "Invalid commit hash");
    let job = choose(&mut app, ["abc1234", "def5678"]).unwrap();
    assert_eq!(app.remote_spinner.as_ref().unwrap().message, "Preparing diff...");
    let (first, second) = git_diff_dirs("/home/kim", &job);
    assert_eq!(first, "/home/kim/.cokacdir/diff/repo_abc1234");
    assert_eq!(second, "/home/kim/.cokacdir/diff/repo_def5678");
    let GitDiffJob { project_name, .. } = job;
    assert_eq!(project_name, "repo");
}

#[test]
fn directories_are_searched_and_encrypted() {
    let mut app = app();
    assert!(app.execute_search("  ").is_none());
    assert_eq!(message(&app), "Please enter a search term");
    assert_eq!(app.execute_search("x").as_deref(), Some("/one"));
    assert_eq!(app.remote_spinner.as_ref().unwrap().message, "Searching...");
    assert!(app.execute_search("x").is_none());
    app.show_decrypt_dialog(&vec!["a".to_string()]);
    assert_eq!(message(&app), "No .cokacenc files to decrypt");
    app.show_decrypt_dialog(&vec!["a.cokacenc".to_string(), "b".to_string()]);
    assert_eq!(app.dialog.as_ref().unwrap().message, "Decrypt 1 .cokacenc file(s) in /one?");
    assert!(app.execute_encrypt(7, true, Err("no key".to_string())).is_none());
    assert_eq!(message(&app), "Key error: no key");
    assert_eq!(app.settings.encrypt_split_size, 7);
    let job = app.execute_encrypt(8, true, Ok(())).unwrap();
    assert_eq!((job.dir.as_str(), job.split_size_mb, job.use_md5), ("/one", 8, true));
    assert_eq!(app.execute_decrypt(Ok(())).as_deref(), Some("/one"));
    app.show_dedup_screen();
    assert_eq!(
        app.dialog.as_ref().unwrap().message,
        "WARNING: This will PERMANENTLY DELETE duplicate files in /one. This action cannot be \
         undone. Proceed?"
    );
}

#[test]
fn the_file_under_the_cursor_is_shown() {
    let mut app = app();
    app.panels[0].files = vec![FileItem { is_directory: false, ..dir("a.txt") }, dir("..")];
    app.panels[0].selected_index = 0;
    assert_eq!(app.show_file_info(), Some(("/one/a.txt".to_string(), false)));
    assert_eq!(app.current_screen, Screen::FileInfo);
    app.show_handler_dialog(Some("vim"));
    let pending = app.pending_binary_file.as_ref().unwrap();
    assert_eq!((pending.path.as_str(), pending.extension.as_str()), ("/one/a.txt", "txt"));
    app.panels[0].selected_index = 1;
    assert!(app.show_file_info().is_none());
    assert_eq!(message(&app), "Select a file for info");
    app.panels[0].files[0].name = "a".to_string();
    app.panels[0].selected_index = 0;
    app.show_handler_dialog(None);
    assert_eq!(message(&app), "No extension - cannot set handler");
}
