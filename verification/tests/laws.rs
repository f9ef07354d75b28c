use cokacdir::app_state::App;
use cokacdir::archive::{
    read_bounded_line, read_bounded_tail, tar_creation_options, tar_extraction_options,
    tar_listing_options, validate_archive_entry_path, LineStep,
};
use cokacdir::archive_clean::{CleanRun, PermissionStep, UnpackedKind};
use cokacdir::archive_lines::TarSizes;
use cokacdir::archive_names::{extract_dir_name, is_archive_file};
use cokacdir::archive_run::{choose_archiver, PublishError, TarAction, TarRun};
use cokacdir::authorization::{DirectoryAuthorization, PathAuthorization};
use cokacdir::creation::RenameStart;
use cokacdir::deletion::{delete_report, DeleteOutcome};
use cokacdir::diff_anchor::DiffCursorAnchor;
use cokacdir::diff_build::SideName;
use cokacdir::diff_build_run::{BuildRun, Examined};
use cokacdir::diff_compare::{
    byte_compare, compare_chunks, compare_files, compare_need, ChunkVerdict, CompareEvidence, CompareNeed,
};
use cokacdir::diff_scan::{make_file_info, CountRun, ItemFacts};
use cokacdir::diff_state::{DiffProgressMsg, DiffState};
use cokacdir::diff_types::{
    parse_compare_method, CompareMethod, DiffEntry, DiffFileInfo, DiffFilter, DiffStatus,
    FileTime,
};
use cokacdir::diff_view::{
    column_heading, fit_text, fitted_heading, sanitize_message, shorten,
};
use cokacdir::dup_run::{generate_dup_filename, DupRun};
use cokacdir::fuzzy::fuzzy_match;
use cokacdir::handler::{
    extension_of_path, handler_command, is_binary_file, HandlerRun, HandlerStep,
};
use cokacdir::names::NameSet;
use cokacdir::navigation::{get_valid_path, Places};
use cokacdir::panel::{sort_items, FileItem};
use cokacdir::paths::{name_of_path, parent_of_path, path_starts_with};
use cokacdir::progress::{FileOperationProgress, FileOperationType, ProgressMessage};
use cokacdir::remote_cache::remote_cache_path_for_endpoint;
use cokacdir::remote_connect::{
    parse_port, RemoteAuth, RemoteConnectState, RemoteField, RemoteProfile,
};
use cokacdir::remote_path::{
    normalized_remote_child_path, normalized_remote_path, remote_parent_path, resolve_remote_path,
};
use cokacdir::settings::{CrossVolumeMoveVerification, Settings, SettingsState};
use cokacdir::settings_flow::ThemeFile;
use cokacdir::sorting::{
    parse_sort_by, parse_sort_order, sort_by_to_string, sort_order_to_string, SortBy, SortOrder,
};
use cokacdir::untar_run::build_untar_args;
use std::path::Path;

const NOW: FileTime = FileTime { secs: 1_700_000_000, nanos: 0 };

fn places(readable: &[&str]) -> Places {
    let mut set = NameSet::new();
    for path in readable {
        set.insert(path.to_string());
    }
    Places { home: "/home".to_string(), root: "/".to_string(), readable: set }
}

fn settings() -> Settings {
    Settings {
        panels: Vec::new(),
        active_panel_index: 0,
        theme_name: "light".to_string(),
        diff_compare_method: "content".to_string(),
        cross_volume_move_verification: CrossVolumeMoveVerification::Standard,
        bookmarked_path: Vec::new(),
        tar_path: None,
        remote_profiles: Vec::new(),
        extension_handlers: Vec::new(),
        telegram_polling_time: 2_500,
        encrypt_split_size: 1_800,
    }
}

fn no_theme_file() -> ThemeFile {
    ThemeFile { path: None, modified: None }
}

fn app_on(path: &str) -> App {
    App::new(path, path, &places(&[path]), settings(), no_theme_file())
}

fn file(name: &str, size: u64) -> FileItem {
    FileItem {
        name: name.to_string(),
        display_name: None,
        is_directory: false,
        is_symlink: false,
        size,
        modified: NOW,
        permissions: String::new(),
    }
}

fn directory(path: &str) -> DirectoryAuthorization {
    DirectoryAuthorization { resolved_path: path.to_string(), device: 1, inode: 2 }
}

fn seen(inode: u64) -> PathAuthorization {
    PathAuthorization { device: 1, inode, stamp: 3, directory: false }
}

fn names(list: &[&str]) -> NameSet {
    let mut set = NameSet::new();
    for name in list {
        set.insert(name.to_string());
    }
    set
}

fn texts(list: &[&str]) -> Vec<String> {
    list.iter().map(|text| text.to_string()).collect()
}

#[test]
fn closing_an_added_panel_restores_the_panels() {
    let mut app = app_on("/a");
    app.switch_panel();
    app.add_panel(&places(&["/home"]));
    assert_eq!(app.panels.len(), 3);
    assert_eq!(app.active_panel_index, 2);
    app.close_panel();
    assert_eq!(app.panels.len(), 2);
    assert_eq!(app.active_panel_index, 1);
}

#[test]
fn switching_goes_around_all_panels() {
    let mut app = app_on("/a");
    app.add_panel(&places(&["/home"]));
    let start = app.active_panel_index;
    for _ in 0..app.panels.len() {
        app.switch_panel();
    }
    assert_eq!(app.active_panel_index, start);
    app.switch_panel_right();
    app.switch_panel_left();
    assert_eq!(app.active_panel_index, start);
}

#[test]
fn a_line_is_complete_at_its_newline() {
    let mut line = Vec::new();
    assert_eq!(
        read_bounded_line(&mut line, true, &b"abc\nrest".to_vec(), 32),
        LineStep::Finished { has_line: true, consumed: 4 }
    );
    let mut long = Vec::new();
    assert_eq!(
        read_bounded_line(&mut long, true, &b"abc".to_vec(), 32),
        LineStep::More { consumed: 3 }
    );
    assert_eq!(long, b"abc");
    assert_eq!(
        read_bounded_line(&mut long, false, &b"de\nf".to_vec(), 32),
        LineStep::Finished { has_line: true, consumed: 3 }
    );
    assert_eq!(long, b"abcde\n");
    assert_eq!(
        read_bounded_line(&mut long, true, &b"f\n".to_vec(), 32),
        LineStep::Finished { has_line: true, consumed: 2 }
    );
    assert_eq!(long, b"f\n");
    let mut none = Vec::new();
    assert_eq!(
        read_bounded_line(&mut none, true, &Vec::new(), 32),
        LineStep::Finished { has_line: false, consumed: 0 }
    );
}

#[test]
fn the_tail_does_not_depend_on_the_pieces() {
    let whole = read_bounded_tail(&vec![b"abcdefgh".to_vec()], 5);
    let pieces = read_bounded_tail(&vec![b"ab".to_vec(), b"cdefg".to_vec(), b"h".to_vec()], 5);
    assert_eq!(whole, "defgh");
    assert_eq!(whole, pieces);
    assert_eq!(read_bounded_tail(&vec![vec![0xff, b'a']], 5), "\u{FFFD}a");
}

#[test]
fn archive_options_follow_the_name() {
    assert_eq!(tar_extraction_options("a.tar.gz"), "xvfz");
    assert_eq!(tar_extraction_options("a.tbz2"), "xvfj");
    assert_eq!(tar_extraction_options("a.txz"), "xvfJ");
    assert_eq!(tar_extraction_options("a.tar"), "xvf");
    assert_eq!(tar_listing_options("a.tgz"), "tfz");
    assert_eq!(tar_creation_options("a.tar.xz"), "cvfpJ");
    assert!(validate_archive_entry_path(&b"".to_vec()).is_err());
    assert!(build_untar_args("a.tar", "/a.tar").iter().all(|arg| !arg.contains("preserve")
        || arg.contains("no")));
}

#[test]
fn special_permissions_are_taken_away() {
    let mut run = CleanRun::start("/x".to_string());
    assert_eq!(run.next_path().as_deref(), Some("/x"));
    let step = run.strip_special_permission_bits(
        "/x",
        UnpackedKind::Directory,
        0o42755,
        texts(&["/x/a", "/x/b"]),
    );
    assert_eq!(step, Ok(PermissionStep::SetDirectory(0o40755)));
    assert_eq!(run.next_path().as_deref(), Some("/x/b"));
    assert_eq!(
        run.strip_special_permission_bits("/x/b", UnpackedKind::File, 0o104755, Vec::new()),
        Ok(PermissionStep::SetFile(0o100755))
    );
    assert_eq!(
        run.strip_special_permission_bits("/x/a", UnpackedKind::File, 0o644, Vec::new()),
        Ok(PermissionStep::Keep)
    );
    assert_eq!(
        run.strip_special_permission_bits("/x/l", UnpackedKind::Link, 0o120777, Vec::new()),
        Ok(PermissionStep::Keep)
    );
    assert_eq!(
        run.strip_special_permission_bits("/x/p", UnpackedKind::Special, 0o644, Vec::new()),
        Err("archive created a special file: /x/p".to_string())
    );
}

#[test]
fn the_directory_of_an_archive_has_no_archive_end() {
    assert_eq!(extract_dir_name("photos.tar.gz"), "photos");
    assert_eq!(extract_dir_name("photos.tar"), "photos");
    assert_eq!(extract_dir_name("photos.zip"), "photos.zip");
    assert!(is_archive_file("a.tgz"));
    assert!(is_archive_file("A.TAR"));
    assert!(!is_archive_file("a.zip"));
}

#[test]
fn an_archive_run_tells_its_end_once() {
    let mut run = TarRun::start("a.tar".to_string(), texts(&["f"]), Vec::new());
    let mut said = Vec::new();
    let (messages, action) = run.begin(false);
    said.extend(messages);
    assert!(matches!(action, TarAction::Probe));
    let (messages, action) = run.probed(Some("tar".to_string()), false);
    said.extend(messages);
    assert!(matches!(action, TarAction::OpenOutput));
    let (messages, action) = run.opened(Ok(()), false);
    said.extend(messages);
    assert!(matches!(action, TarAction::Measure));
    let mut sizes = TarSizes::new();
    sizes.record("./f".to_string(), false, 10);
    let (messages, action) = run.measured(sizes, false);
    said.extend(messages);
    let args = match action {
        TarAction::Run { program, args } => {
            assert_eq!(program, "tar");
            args
        }
        _ => panic!("the archiver is run"),
    };
    assert!(args.iter().any(|arg| arg == "./f"));
    let (messages, action) = run.started(Ok(()));
    said.extend(messages);
    assert!(matches!(action, TarAction::ReadLine));
    let (messages, _) = run.line(Some("./f"), false);
    said.extend(messages);
    let (messages, action) = run.line(None, false);
    said.extend(messages);
    assert!(matches!(action, TarAction::Wait));
    let (messages, action) = run.waited(Ok(true), false);
    said.extend(messages);
    assert!(matches!(action, TarAction::Publish));
    said.extend(run.published(Ok(())));
    let ends = said.iter().filter(|m| matches!(m, ProgressMessage::Completed(_, _))).count();
    assert_eq!(ends, 1);
    assert!(matches!(said.last(), Some(ProgressMessage::Completed(1, 0))));
}

#[test]
fn a_taken_archive_name_fails_the_run() {
    let mut run = TarRun::start("a.tar".to_string(), texts(&["f"]), Vec::new());
    run.begin(false);
    run.probed(Some("tar".to_string()), false);
    run.opened(Ok(()), false);
    run.measured(TarSizes::new(), false);
    run.started(Ok(()));
    run.line(None, false);
    run.waited(Ok(true), false);
    let said = run.published(Err(PublishError::AlreadyExists));
    assert!(said.iter().any(|m| matches!(m, ProgressMessage::Error(_, _))));
    assert!(matches!(said.last(), Some(ProgressMessage::Completed(0, 1))));
}

#[test]
fn the_archiver_is_the_first_that_works() {
    assert_eq!(choose_archiver(Some("/opt/tar"), true, true, true).as_deref(), Some("/opt/tar"));
    assert_eq!(choose_archiver(None, false, true, true).as_deref(), Some("gtar"));
    assert_eq!(choose_archiver(None, false, false, true).as_deref(), Some("tar"));
    assert_eq!(choose_archiver(None, false, false, false), None);
}

#[test]
fn renaming_selects_the_name_before_its_extension() {
    let mut app = app_on("/tmp/work");
    app.active_panel_mut().load_files_local(Some(vec![file("photo.jpg", 1)]), NOW, (0, 0));
    app.move_cursor(1);
    app.show_rename_dialog(Ok(directory("/tmp/work")), Ok(seen(5)));
    let dialog = app.dialog.as_ref().unwrap();
    assert_eq!(dialog.input, "photo.jpg");
    assert_eq!(dialog.selection, Some((0, 5)));
    match app.execute_rename("picture.jpg", Ok(())) {
        RenameStart::Local { old_path, new_path, .. } => {
            assert_eq!(old_path, "/tmp/work/photo.jpg");
            assert_eq!(new_path, "/tmp/work/picture.jpg");
        }
        _ => panic!("the file is renamed"),
    }
}

#[test]
fn a_deletion_succeeds_only_where_all_are_gone() {
    let paths = texts(&["/a", "/b"]);
    let gone = || DeleteOutcome::Deleted { warnings: Vec::new() };
    assert!(delete_report(&paths, &vec![gone(), gone()]).is_ok());
    assert!(delete_report(&paths, &vec![gone(), DeleteOutcome::Failed("busy".to_string())])
        .is_err());
    assert!(delete_report(
        &paths,
        &vec![gone(), DeleteOutcome::DirectoryChanged("moved".to_string())]
    )
    .is_err());
}

fn info(name: &str, size: u64, is_directory: bool) -> DiffFileInfo {
    DiffFileInfo {
        name: name.to_string(),
        size,
        modified: NOW,
        is_directory,
        is_symlink: false,
        full_path: format!("/{}", name),
        authorization: None,
    }
}

fn entry(path: &str, depth: usize, is_directory: bool, status: DiffStatus) -> DiffEntry {
    DiffEntry {
        relative_path: path.to_string(),
        left: Some(info(path, 1, is_directory)),
        right: None,
        status,
        is_directory,
        depth,
        children_not_loaded: false,
        left_missing: None,
        right_missing: None,
    }
}

fn comparison(rows: Vec<DiffEntry>) -> DiffState {
    let mut state = DiffState::new(
        "left".to_string(),
        "right".to_string(),
        CompareMethod::Content,
        SortBy::Name,
        SortOrder::Asc,
    );
    state.filter = DiffFilter::All;
    state.all_entries = rows;
    state.apply_filter();
    state
}

#[test]
fn the_cursor_stays_on_a_row_that_survives() {
    let rows = || {
        (0..20)
            .map(|i| entry(&format!("f{:02}", i), 0, false, DiffStatus::Modified))
            .collect::<Vec<_>>()
    };
    let mut state = comparison(rows());
    state.adjust_scroll(5);
    state.selected_index = 12;
    state.adjust_scroll(5);
    let anchor: DiffCursorAnchor = state.capture_cursor_anchor();
    state.all_entries.remove(3);
    state.apply_filter();
    state.restore_cursor_anchor(&anchor);
    assert_eq!(
        state.current_entry().map(|e| e.relative_path.as_str()),
        Some("f12")
    );
    assert!(state.scroll_offset <= state.selected_index);
    assert!(state.selected_index < state.scroll_offset + 5);
}

#[test]
fn a_removed_row_hands_the_cursor_to_the_next_one() {
    let mut state = comparison(vec![
        entry("a", 0, false, DiffStatus::Modified),
        entry("b", 0, false, DiffStatus::Modified),
        entry("c", 0, false, DiffStatus::Modified),
    ]);
    state.selected_index = 1;
    let anchor = state.capture_cursor_anchor();
    state.all_entries.remove(1);
    state.apply_filter();
    state.restore_cursor_anchor(&anchor);
    assert_eq!(state.current_entry().map(|e| e.relative_path.as_str()), Some("c"));
}

fn side(name: &str, leads_to_directory: bool) -> SideName {
    SideName {
        name: name.to_string(),
        leads_to_directory,
        size: Some(1),
        modified: Some(NOW),
    }
}

fn examined(left: Option<DiffFileInfo>, right: Option<DiffFileInfo>, same: bool) -> Examined {
    Examined {
        left,
        right,
        left_missing: None,
        right_missing: None,
        evidence: CompareEvidence { links_equal: false, bytes_equal: same },
        left_names: Vec::new(),
        right_names: Vec::new(),
    }
}

#[test]
fn a_directory_is_modified_where_something_below_differs() {
    let mut run = BuildRun::start(
        &vec![side("dir", true), side("same", false)],
        &vec![side("dir", true), side("same", false), side("right", false)],
        CompareMethod::Content,
        SortBy::Name,
        SortOrder::Asc,
    );
    let mut asked = Vec::new();
    while let Some(request) = run.next_request() {
        asked.push(request.relative_path.clone());
        let found = match request.relative_path.as_str() {
            "dir" => {
                let mut found =
                    examined(Some(info("dir", 0, true)), Some(info("dir", 0, true)), false);
                found.left_names = vec![side("f", false)];
                found.right_names = vec![side("f", false)];
                found
            }
            "dir/f" => examined(Some(info("f", 3, false)), Some(info("f", 3, false)), false),
            "same" => examined(Some(info("same", 3, false)), Some(info("same", 3, false)), true),
            _ => examined(None, Some(info("right", 3, false)), false),
        };
        run.examined(&request, found).unwrap();
    }
    assert_eq!(asked, ["dir", "dir/f", "right", "same"]);
    let rows: Vec<(&str, DiffStatus, usize)> = run
        .entries
        .iter()
        .map(|e| (e.relative_path.as_str(), e.status, e.depth))
        .collect();
    assert_eq!(
        rows,
        [
            ("dir", DiffStatus::DirModified, 0),
            ("dir/f", DiffStatus::Modified, 1),
            ("right", DiffStatus::RightOnly, 0),
            ("same", DiffStatus::Same, 0),
        ]
    );
}

#[test]
fn a_strict_run_refuses_a_name_that_vanished() {
    let row = DiffEntry {
        right: Some(info("dir", 0, true)),
        status: DiffStatus::DirSame,
        ..entry("dir", 0, true, DiffStatus::DirSame)
    };
    let mut run = BuildRun::start_below(
        row,
        &vec![side("f", false)],
        &Vec::new(),
        CompareMethod::Content,
        SortBy::Name,
        SortOrder::Asc,
    );
    let request = run.next_request().unwrap();
    assert_eq!(request.relative_path, "dir/f");
    assert_eq!(
        run.examined(&request, examined(None, None, false)),
        Err("DIFF left entry 'dir/f' changed while it was refreshed".to_string())
    );
}

#[test]
fn comparing_is_symmetric_and_needs_no_more_than_it_must() {
    let evidence = CompareEvidence { links_equal: false, bytes_equal: true };
    let a = info("a", 5, false);
    let mut b = info("b", 5, false);
    b.modified = FileTime { secs: NOW.secs + 1, nanos: 0 };
    for method in [
        CompareMethod::Content,
        CompareMethod::ModifiedTime,
        CompareMethod::ContentAndTime,
    ] {
        assert_eq!(
            compare_files(&a, &b, method, evidence),
            compare_files(&b, &a, method, evidence)
        );
    }
    assert_eq!(compare_need(&a, &b, CompareMethod::Content), CompareNeed::Bytes);
    assert_eq!(
        compare_need(&a, &b, CompareMethod::ModifiedTime),
        CompareNeed::Decided(false)
    );
    assert_eq!(compare_chunks(&vec![1, 2], &vec![1, 3]), ChunkVerdict::Different);
    assert_eq!(compare_chunks(&vec![1, 2], &vec![1, 2]), ChunkVerdict::Undecided);
    assert_eq!(compare_chunks(&Vec::new(), &Vec::new()), ChunkVerdict::Same);
    let same = |a: &[&[u8]], b: &[&[u8]]| {
        a.iter().zip(b).find_map(|(a, b)| byte_compare(Ok(a.to_vec()), Ok(b.to_vec())))
    };
    assert_eq!(same(&[&[1, 2], &[3], &[]], &[&[1, 2], &[3], &[]]), Some(true));
    assert_eq!(same(&[&[1, 2], &[3], &[]], &[&[1, 2], &[4], &[]]), Some(false));
    assert_eq!(same(&[&[1, 2], &[]], &[&[1, 2], &[3], &[]]), Some(false));
    assert_eq!(same(&[&[1, 2]], &[&[1, 2]]), None);
    assert_eq!(byte_compare(Err("broken".to_string()), Ok(Vec::new())), Some(false));
    assert_eq!(byte_compare(Ok(Vec::new()), Err("broken".to_string())), Some(false));
}

#[test]
fn a_link_to_a_directory_is_not_gone_into() {
    let facts = ItemFacts {
        is_symlink: true,
        leads_to_directory: true,
        length: 9,
        modified: NOW,
        first_seen: Some(seen(1)),
        last_seen: Some(seen(2)),
    };
    let link = make_file_info("l", "/l", Some(facts)).unwrap();
    assert!(!link.is_directory);
    assert_eq!(link.size, 9);
    assert!(link.authorization.is_none());
    assert!(make_file_info("l", "/l", None).is_none());
}

#[test]
fn counting_goes_into_directories_of_both_sides() {
    let mut run = CountRun::start();
    assert_eq!(run.next_directory(false).as_deref(), Some(""));
    let message = run.listed("", &texts(&["a", "b"]), &texts(&["b", "c"]), &names(&["a", "b"]));
    assert!(matches!(message, DiffProgressMsg::Counting(3)));
    assert_eq!(run.next_directory(false).as_deref(), Some("b"));
    run.listed("b", &texts(&["x"]), &texts(&["x"]), &names(&["x"]));
    assert_eq!(run.count, 4);
    assert_eq!(run.next_directory(true), None);
    assert_eq!(run.next_directory(false), None);
}

#[test]
fn collapsed_directories_hide_what_is_below() {
    let mut state = comparison(vec![
        entry("d", 0, true, DiffStatus::DirModified),
        entry("d/f", 1, false, DiffStatus::Modified),
        entry("g", 0, false, DiffStatus::Same),
    ]);
    assert_eq!(state.filtered_indices, [0, 1, 2]);
    state.collapsed_dirs.insert("d".to_string());
    state.apply_filter();
    assert_eq!(state.filtered_indices, [0, 2]);
    state.collapsed_dirs.remove("d");
    state.filter = DiffFilter::DifferentOnly;
    state.apply_filter();
    assert_eq!(state.filtered_indices, [0, 1]);
    assert!(state.has_differences());
}

#[test]
fn marking_twice_is_nothing() {
    let mut state = comparison(vec![entry("f", 0, false, DiffStatus::Modified)]);
    state.toggle_selection();
    assert!(state.selected_files.contains("f"));
    state.toggle_selection();
    assert!(state.selected_files.is_empty());
}

#[test]
fn filters_go_round() {
    let mut filter = DiffFilter::All;
    let mut seen = Vec::new();
    for _ in 0..4 {
        seen.push(filter.display_name().to_string());
        filter = filter.next();
    }
    assert_eq!(filter, DiffFilter::All);
    assert_eq!(seen, ["All", "Different Only", "Left Only", "Right Only"]);
    assert_eq!(parse_compare_method("Modified_Time"), CompareMethod::ModifiedTime);
    assert_eq!(parse_compare_method("CONTENTANDTIME"), CompareMethod::ContentAndTime);
    assert_eq!(parse_compare_method("anything"), CompareMethod::Content);
}

#[test]
fn the_screen_says_what_it_shows() {
    let mut state = comparison(vec![
        entry("d", 0, true, DiffStatus::DirModified),
        entry("d/f", 1, false, DiffStatus::LeftOnly),
    ]);
    state.selected_files.insert("d/f".to_string());
    assert_eq!(
        state.status_bar(),
        " Filter: All | Compare: Content | Total: 2 Different: 1 Left: 1 Right: 0 | Selected: 1"
    );
    assert_eq!(state.comparing_status(), " Counting files...");
    state.progress_total = 8;
    assert_eq!(state.comparing_status(), " Counting files... (8)");
    state.progress_count = 3;
    assert_eq!(state.comparing_status(), " Comparing... 3/8");
    let row = state.all_entries[1].clone();
    assert_eq!(state.row_label(&row, row.left.as_ref().unwrap()), "*    d/f");
    let dir = state.all_entries[0].clone();
    assert_eq!(state.row_label(&dir, dir.left.as_ref().unwrap()), " \u{25BC} d/");
    state.collapsed_dirs.insert("d".to_string());
    assert_eq!(state.row_label(&dir, dir.left.as_ref().unwrap()), " \u{25B6} d/");
    assert_eq!(state.visible_rows(1), [0]);
    assert_eq!(sanitize_message("a\u{1b}[31m\u{9b}b\n"), "a [31m b ");
    assert_eq!(column_heading(40), " Name                  Size         Date");
}

#[test]
fn wide_characters_take_two_columns() {
    assert_eq!(shorten("abcd", 4, "d"), "abcd");
    assert_eq!(shorten("\u{4F60}\u{597D}x", 4, "x"), "...x");
    assert_eq!(shorten("\u{4F60}\u{597D}", 4, "x"), "\u{4F60}\u{597D}");
    assert_eq!(fit_text("abc", 9, 4, "c"), "...c");
    assert_eq!(fitted_heading(10, "Date"), "...Date");
}

#[test]
fn a_copy_in_place_gets_a_free_name() {
    assert_eq!(generate_dup_filename("a.txt", &names(&["a.txt"]), 5), "a_dup.txt");
    assert_eq!(
        generate_dup_filename("a.txt", &names(&["a.txt", "a_dup.txt"]), 5),
        "a_dup2.txt"
    );
    assert_eq!(generate_dup_filename("plain", &names(&[]), 5), "plain_dup");
}

#[test]
fn a_pattern_matches_its_characters_in_order() {
    assert!(fuzzy_match("src/ui/app.rs", "sua"));
    assert!(!fuzzy_match("ABC", "abc"));
    assert!(!fuzzy_match("abc", "acb"));
    assert!(fuzzy_match("abc", ""));
}

#[test]
fn handlers_are_tried_in_turn() {
    let plain = handler_command("vlc {{FILEPATH}}");
    assert!(!plain.background);
    let background = handler_command("@vlc {{FILEPATH}}");
    assert!(background.background);
    assert_eq!(handler_command("true").command, "true");
    let (mut run, step) = HandlerRun::start(texts(&["first", "second"]));
    assert!(matches!(step, HandlerStep::Run(_)));
    assert!(matches!(run.ran(Err("missing".to_string())), HandlerStep::Run(_)));
    assert!(matches!(run.ran(Ok(true)), HandlerStep::Opened));
    assert!(matches!(
        HandlerRun::start(Vec::new()).1,
        HandlerStep::NoHandler
    ));
    assert!(is_binary_file(&vec![b'a', 0, b'b']));
    assert!(!is_binary_file(&b"plain text".to_vec()));
}

#[test]
fn a_valid_path_can_be_read() {
    let readable = names(&["/home", "/"]);
    assert_eq!(get_valid_path("/home/x/y", "/", "/", &readable), "/home");
    assert!(path_starts_with("/home/x", "/home"));
    assert!(!path_starts_with("/homex", "/home"));
    assert_eq!(parent_of_path("/home/x").as_deref(), Some("/home"));
    assert_eq!(parent_of_path("/"), None);
    assert_eq!(name_of_path("/home/x/").as_deref(), Some("x"));
    assert_eq!(name_of_path("/"), None);
}

#[test]
fn sorting_keeps_every_line() {
    let items = vec![file("b", 1), file("a", 3), file("C", 2)];
    let by_name: Vec<String> = sort_items(items, SortBy::Name, SortOrder::Asc)
        .into_iter()
        .map(|f| f.name)
        .collect();
    assert_eq!(by_name, ["a", "b", "C"]);
    let items = vec![file("b", 1), file("a", 3), file("C", 2)];
    let by_size: Vec<String> = sort_items(items, SortBy::Size, SortOrder::Desc)
        .into_iter()
        .map(|f| f.name)
        .collect();
    assert_eq!(by_size, ["a", "C", "b"]);
}

#[test]
fn an_operation_ends_once() {
    let mut progress = FileOperationProgress::new(FileOperationType::Copy);
    progress.is_active = true;
    assert!(!progress.poll(
        vec![
            ProgressMessage::Error("f".to_string(), "no".to_string()),
            ProgressMessage::Completed(1, 1),
        ],
        false,
        true,
    ));
    let result = progress.result.as_ref().unwrap();
    assert_eq!((result.success_count, result.failure_count), (1, 1));
    assert_eq!(result.last_error.as_deref(), Some("no"));
    assert!(!progress.poll(Vec::new(), true, true));
    assert_eq!(progress.result.as_ref().unwrap().last_error.as_deref(), Some("no"));
}

fn profile() -> RemoteProfile {
    RemoteProfile {
        name: "work".to_string(),
        host: "example.org".to_string(),
        port: 2222,
        user: "me".to_string(),
        auth: RemoteAuth::KeyFile { path: "/k".to_string(), passphrase: None },
        default_path: "/srv".to_string(),
    }
}

#[test]
fn a_profile_survives_the_form() {
    let state = RemoteConnectState::from_profile(&profile(), 0, None);
    let back = state.to_profile(None);
    assert_eq!(back.host, "example.org");
    assert_eq!(back.port, 2222);
    assert_eq!(back.user, "me");
    assert!(matches!(back.auth, RemoteAuth::KeyFile { path, passphrase: None } if path == "/k"));
    assert_eq!(parse_port("65535"), Some(65535));
    assert_eq!(parse_port("65536"), None);
    assert_eq!(parse_port(""), None);
    let mut form = RemoteConnectState::new();
    form.selected_field = form.next_field();
    form.selected_field = form.prev_field();
    assert_eq!(form.selected_field, RemoteField::Host);
}

#[test]
fn cached_files_have_names_of_their_own() {
    let path = remote_cache_path_for_endpoint("/c", "u", "h", None, 22, "/a.txt");
    assert_eq!(path.len(), "/c/".len() + 64 + ".txt".len());
    assert!(path.ends_with(".txt"));
    assert_ne!(path, remote_cache_path_for_endpoint("/c", "u2", "h", None, 22, "/a.txt"));
    assert_ne!(path, remote_cache_path_for_endpoint("/c", "u", "h2", None, 22, "/a.txt"));
    assert_ne!(path, remote_cache_path_for_endpoint("/c", "u", "h", None, 22, "/b.txt"));
}

#[test]
fn remote_paths_are_normalized_once() {
    let once = normalized_remote_path("\\a\\b\\");
    assert_eq!(normalized_remote_path(&once), once);
    assert_eq!(resolve_remote_path("/a/b", "../../../x").unwrap(), "/x");
    assert_eq!(resolve_remote_path("/a/b", "/c/./d").unwrap(), "/c/d");
    let child = normalized_remote_child_path("/a", "b").unwrap();
    assert_eq!(remote_parent_path(&child), "/a");
}

#[test]
fn the_assistant_gives_the_focus_back() {
    let mut app = app_on("/tmp/work");
    let path = app.show_ai_screen(&places(&["/home"]));
    assert_eq!(path.as_deref(), Some("/tmp/work"));
    assert!(app.is_ai_mode());
    assert_eq!(app.active_panel_index, 1);
    app.close_ai_screen();
    assert!(!app.is_ai_mode());
    assert_eq!(app.active_panel_index, 0);
}

#[test]
fn the_line_to_the_parent_is_never_picked() {
    let mut app = app_on("/tmp/work");
    app.active_panel_mut().load_files_local(
        Some(vec![file("a.rs", 1), file("b.rs", 1), file("c.txt", 1)]),
        NOW,
        (0, 0),
    );
    app.toggle_selection();
    assert!(app.active_panel().selected_files.is_empty());
    app.toggle_all_selection();
    assert_eq!(app.active_panel().selected_files.len(), 3);
    assert!(!app.active_panel().selected_files.contains(".."));
    app.toggle_all_selection();
    assert!(app.active_panel().selected_files.is_empty());
}

#[test]
fn settings_go_round_and_back() {
    let mut state = SettingsState::new(&settings(), &texts(&["b", "a"]));
    let first = state.current_theme().to_string();
    state.next_theme();
    assert_ne!(state.current_theme(), first);
    state.prev_theme();
    assert_eq!(state.current_theme(), first);
    let method = state.current_diff_method().to_string();
    state.next_diff_method();
    state.prev_diff_method();
    assert_eq!(state.current_diff_method(), method);
    state.themes.clear();
    state.theme_index = usize::MAX;
    state.next_theme();
    assert_eq!(state.theme_index, usize::MAX);
}

#[test]
fn bookmarking_twice_is_nothing() {
    let mut app = app_on("/tmp/work");
    app.toggle_bookmark(String::new());
    assert_eq!(app.settings.bookmarked_path, ["/tmp/work"]);
    app.toggle_bookmark(String::new());
    assert!(app.settings.bookmarked_path.is_empty());
}

#[test]
fn sort_words_survive() {
    for sort_by in [SortBy::Name, SortBy::Size, SortBy::Modified, SortBy::Type] {
        assert_eq!(parse_sort_by(&sort_by_to_string(sort_by)), sort_by);
    }
    for order in [SortOrder::Asc, SortOrder::Desc] {
        assert_eq!(parse_sort_order(&sort_order_to_string(order)), order);
    }
    assert_eq!(parse_sort_by("SIZE"), SortBy::Size);
}

#[test]
fn paths_split_as_the_host_splits_them() {
    let paths = [
        "", "/", "//", ".", "./", "..", "/.", "/..", "a", "a/", "a/.", "a/./", "./a", "././a",
        "a/..", "/a", "/a/", "//a", "/a/.", "/a/./.", "a/b", "a//b", "a/./b", "/a/b.txt", "../a",
        ".hidden", "/x/.hidden", "a.tar.gz", "a.", "..a",
    ];
    for path in paths {
        let host = Path::new(path);
        let name = host.file_name().map(|name| name.to_str().unwrap().to_string());
        assert_eq!(name_of_path(path), name, "name of {path:?}");
        assert_eq!(
            parent_of_path(path).as_deref().map(Path::new),
            host.parent(),
            "parent of {path:?}"
        );
        let extension = host.extension().map(|end| end.to_str().unwrap().to_string());
        assert_eq!(extension_of_path(path), extension, "extension of {path:?}");
        for base in paths {
            assert_eq!(
                path_starts_with(path, base),
                host.starts_with(base),
                "{path:?} below {base:?}"
            );
        }
    }
}

#[test]
fn a_file_without_an_extension_has_no_handler() {
    let app = app_on("/a");
    let handlers = || Some(texts(&["vim {{FILEPATH}}"]));
    assert!(matches!(app.try_extension_handler("/a/Makefile", handlers()).1, HandlerStep::NoHandler));
    assert!(matches!(app.try_extension_handler("/a/b.txt", None).1, HandlerStep::NoHandler));
    match app.try_extension_handler("/a/b.txt", handlers()).1 {
        HandlerStep::Run(command) => {
            assert_eq!(command.command, "vim \"$COKACDIR_HANDLER_FILEPATH\"");
        }
        other => panic!("got: {other:?}"),
    }
}

#[test]
fn a_copy_reports_how_much_of_all_files_is_done() {
    let mut run = DupRun::start(Vec::new(), false);
    run.measured(Ok((100, 3)));
    run.completed_bytes = 40;
    run.completed_files = 1;
    let told = run.progressed(5, 20);
    assert!(matches!(told[0], ProgressMessage::FileProgress(5, 20)));
    assert!(matches!(told[1], ProgressMessage::TotalProgress(1, 3, 45, 100)));
    assert_eq!(told.len(), 2);
}

#[test]
fn going_up_finds_the_way_back() {
    let mut app = app_on("/home/kim/work");
    let (list, read) = app.go_to_parent();
    assert!(list.is_none() && read);
    assert_eq!(app.active_panel().path, "/home/kim");
    let line = |name: &str| FileItem {
        name: name.to_string(),
        display_name: None,
        is_directory: true,
        is_symlink: false,
        size: 0,
        modified: FileTime { secs: 0, nanos: 0 },
        permissions: String::new(),
    };
    app.panels[0].load_files_local(
        Some(vec![line("zoo"), line("work"), line("art")]),
        FileTime { secs: 0, nanos: 0 },
        (0, 0),
    );
    assert_eq!(app.active_panel().current_file().unwrap().name, "work");
}
