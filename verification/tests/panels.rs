use cokacdir::app_state::{App, SearchResultItem};
use cokacdir::dialogs::{Dialog, DialogType, Screen, ThemeWatchState};
use cokacdir::diff_types::FileTime;
use cokacdir::goto::{resolve_typed_path, GotoStep};
use cokacdir::names::NameSet;
use cokacdir::navigation::{path_candidates, EnterRequest, FileFacts, OpenAction, Places};
use cokacdir::opening::{EditStart, ViewStart};
use cokacdir::panel::{
    ConnectionStatus, FileItem, PanelState, RemoteContext, RemoteEndpoint, SftpFileEntry,
};
use cokacdir::remote_connect::{RemoteAuth, RemoteProfile};
use cokacdir::screens::{git_diff_result, GitDiffJob, LayOut};
use cokacdir::settings::{CrossVolumeMoveVerification, Settings};
use cokacdir::settings_flow::ThemeFile;
use cokacdir::sorting::{SortBy, SortOrder};

const NOW: FileTime = FileTime { secs: 1_700_000_000, nanos: 0 };

fn places(readable: &[&str]) -> Places {
    let mut set = NameSet::new();
    for path in readable {
        set.insert(path.to_string());
    }
    Places { home: "/home".to_string(), root: "/".to_string(), readable: set }
}

fn settings() -> Settings {
    Settings {
        panels: Vec::new(),
        active_panel_index: 0,
        theme_name: "light".to_string(),
        diff_compare_method: "content".to_string(),
        cross_volume_move_verification: CrossVolumeMoveVerification::Standard,
        bookmarked_path: Vec::new(),
        tar_path: None,
        remote_profiles: Vec::new(),
        extension_handlers: Vec::new(),
        telegram_polling_time: 2_500,
        encrypt_split_size: 1_800,
    }
}

fn profile() -> RemoteProfile {
    RemoteProfile {
        name: "box".to_string(),
        host: "example.org".to_string(),
        port: 22,
        user: "kim".to_string(),
        auth: RemoteAuth::Password { password: "SECRET-REDACTED".to_string() },
        default_path: "/".to_string(),
    }
}

fn item(name: &str, is_directory: bool) -> FileItem {
    FileItem {
        name: name.to_string(),
        display_name: None,
        is_directory,
        is_symlink: false,
        size: if is_directory { 0 } else { 7 },
        modified: NOW,
        permissions: String::new(),
    }
}

fn app_with(path: &str, files: Vec<FileItem>) -> App {
    let mut app = App::new(
        path,
        "/other",
        &places(&[path, "/other"]),
        settings(),
        ThemeFile { path: None, modified: None },
    );
    app.panels[0].files = files;
    app
}

fn remote_app(path: &str, files: Vec<FileItem>) -> App {
    let mut app = app_with(path, files);
    app.panels[0].remote_ctx =
        Some(RemoteContext { profile: profile(), status: ConnectionStatus::Connected });
    app.panels[0].remote_display = Some(RemoteEndpoint {
        user: "kim".to_string(),
        host: "example.org".to_string(),
        port: 22,
    });
    app
}

fn facts() -> FileFacts {
    FileFacts {
        size: 7,
        size_text: "0.0".to_string(),
        is_image: false,
        inline_images: false,
        true_color: false,
        is_binary: false,
    }
}

fn message(app: &App) -> &str {
    app.message.as_deref().unwrap_or("")
}

fn dialog(app: &App) -> &Dialog {
    app.dialog.as_ref().unwrap()
}

fn set(list: &[&str]) -> NameSet {
    let mut r = NameSet::new();
    for name in list {
        r.insert(name.to_string());
    }
    r
}

#[test]
fn entering_a_directory_goes_into_it() {
    let mut app = app_with("/home/kim", vec![item("..", true), item("docs", true)]);
    app.panels[0].selected_index = 1;
    app.panels[0].selected_files.insert("docs".to_string());
    assert!(matches!(app.enter_selected(false), EnterRequest::ReadPanel));
    assert_eq!(app.panels[0].path, "/home/kim/docs");
    assert_eq!(app.panels[0].selected_index, 0);
    assert!(app.panels[0].selected_files.is_empty());
}

#[test]
fn entering_the_parent_remembers_where_it_came_from() {
    let mut app = app_with("/home/kim", vec![item("..", true)]);
    assert!(matches!(app.enter_selected(false), EnterRequest::ReadPanel));
    assert_eq!(app.panels[0].path, "/home");
    assert_eq!(app.panels[0].pending_focus.as_deref(), Some("kim"));

    let mut app = app_with("/", vec![item("..", true)]);
    assert!(matches!(app.enter_selected(false), EnterRequest::Nothing));
    assert_eq!(app.panels[0].path, "/");
    assert!(app.panels[0].pending_focus.is_none());
}

#[test]
fn entering_a_remote_directory_lists_it() {
    let mut app = remote_app("/srv/data", vec![item("..", true), item("logs", true)]);
    match app.enter_selected(false) {
        EnterRequest::List(job) => assert_eq!(job.list_path, "/srv"),
        other => panic!("got: {other:?}"),
    }
    assert_eq!(app.panels[0].pending_focus.as_deref(), Some("data"));
    assert!(app.remote_spinner.is_some());

    let mut app = remote_app("/srv/data", vec![item("..", true), item("logs", true)]);
    app.panels[0].selected_index = 1;
    match app.enter_selected(false) {
        EnterRequest::List(job) => assert_eq!(job.list_path, "/srv/data/logs"),
        other => panic!("got: {other:?}"),
    }
}

#[test]
fn a_remote_name_with_a_separator_is_refused() {
    let mut app = remote_app("/srv", vec![item("a\\b", true)]);
    assert!(matches!(app.enter_selected(false), EnterRequest::Nothing));
    assert_eq!(message(&app), "Remote entry has an unsafe or ambiguous name");
}

#[test]
fn entering_a_file_opens_it() {
    let mut app = app_with("/home/kim", vec![item("a.txt", false)]);
    match app.enter_selected(false) {
        EnterRequest::OpenLocal { path, name } => {
            assert_eq!(path, "/home/kim/a.txt");
            assert_eq!(name, "a.txt");
        }
        other => panic!("got: {other:?}"),
    }
    let mut app = remote_app("/srv", vec![item("a.png", false)]);
    assert!(matches!(app.enter_selected(false), EnterRequest::Edit));
    match app.enter_selected(true) {
        EnterRequest::RemoteImage { name, size, remote_path } => {
            assert_eq!((name.as_str(), size, remote_path.as_str()), ("a.png", 7, "/srv/a.png"));
        }
        other => panic!("got: {other:?}"),
    }
}

#[test]
fn files_are_opened_by_what_they_are() {
    let mut app = app_with("/d", Vec::new());
    let open = |app: &mut App, name: &str, facts: &FileFacts| {
        app.open_by_default(format!("/d/{name}"), name, facts)
    };
    assert_eq!(open(&mut app, "a.tar.gz", &facts()), OpenAction::Extract);
    assert_eq!(open(&mut app, "a.txt", &facts()), OpenAction::Edit);
    assert!(app.dialog.is_none());

    let large = FileFacts { size: 52_428_801, size_text: "50.0".to_string(), ..facts() };
    assert_eq!(open(&mut app, "a.txt", &large), OpenAction::Asked);
    assert_eq!(dialog(&app).dialog_type, DialogType::LargeFileConfirm);
    assert_eq!(dialog(&app).message, "This file is 50.0MB. Open anyway?");
    assert_eq!(dialog(&app).selected_button, 1);
    assert_eq!(app.pending_large_file.as_deref(), Some("/d/a.txt"));
    assert_eq!(app.execute_open_large_file().as_deref(), Some("/d/a.txt"));

    let just = FileFacts { size: 52_428_800, ..facts() };
    assert_eq!(open(&mut app, "a.txt", &just), OpenAction::Edit);

    let large_image = FileFacts { is_image: true, ..large };
    assert_eq!(open(&mut app, "a.png", &large_image), OpenAction::Asked);
    assert_eq!(dialog(&app).dialog_type, DialogType::LargeImageConfirm);
    assert_eq!(dialog(&app).message, "This image is 50.0MB. Open anyway?");

    let image = FileFacts { is_image: true, ..facts() };
    assert_eq!(open(&mut app, "a.png", &image), OpenAction::Asked);
    assert_eq!(dialog(&app).dialog_type, DialogType::TrueColorWarning);
    assert_eq!(dialog(&app).message, "Terminal doesn't support true color. Open anyway?");

    for shown in [
        FileFacts { is_image: true, true_color: true, ..facts() },
        FileFacts { is_image: true, inline_images: true, ..facts() },
    ] {
        app.current_screen = Screen::FilePanel;
        assert_eq!(open(&mut app, "a.png", &shown), OpenAction::Image);
        assert_eq!(app.current_screen, Screen::ImageViewer);
    }

    let binary = FileFacts { is_binary: true, ..facts() };
    assert_eq!(open(&mut app, "a.bin", &binary), OpenAction::Asked);
    assert_eq!(dialog(&app).dialog_type, DialogType::BinaryFileHandler);
    assert_eq!(dialog(&app).message, "bin");
    assert_eq!(app.pending_binary_file.as_ref().unwrap().extension, "bin");
}

#[test]
fn viewing_needs_a_local_file() {
    let mut app = remote_app("/srv", vec![item("a.txt", false)]);
    assert!(matches!(app.view_file(&facts()), ViewStart::Nothing));
    assert_eq!(
        message(&app),
        "Cannot view remote files directly. Use copy to download first."
    );
    let mut app = app_with("/d", vec![item("sub", true), item("a.txt", false)]);
    assert!(matches!(app.view_file(&facts()), ViewStart::Nothing));
    assert_eq!(message(&app), "Select a file to view");
    app.panels[0].selected_index = 1;
    assert!(matches!(app.view_file(&facts()), ViewStart::Load { path } if path == "/d/a.txt"));
    let image = FileFacts { is_image: true, true_color: true, ..facts() };
    assert!(matches!(app.view_file(&image), ViewStart::Image { path } if path == "/d/a.txt"));
    let large = FileFacts { size: 52_428_801, size_text: "50.0".to_string(), ..image };
    assert!(matches!(app.view_file(&large), ViewStart::Nothing));
    assert_eq!(dialog(&app).dialog_type, DialogType::LargeImageConfirm);
    assert_eq!(app.execute_open_large_image().as_deref(), Some("/d/a.txt"));
    app.viewer_loaded(Err("denied".to_string()));
    assert_eq!(message(&app), "Cannot read file: denied");
}

#[test]
fn editing_needs_a_file() {
    let mut app = app_with("/d", vec![item("sub", true), item("a.txt", false)]);
    assert!(matches!(app.edit_file(Ok("/cache".to_string()), None), EditStart::Nothing));
    assert_eq!(message(&app), "Select a file to edit");
    app.panels[0].selected_index = 1;
    let start = app.edit_file(Ok("/cache".to_string()), None);
    assert!(matches!(start, EditStart::Load { path } if path == "/d/a.txt"));
}

#[test]
fn a_remote_file_is_fetched_before_it_is_edited() {
    let mut app = remote_app("/srv", vec![item("a.txt", false)]);
    match app.edit_file(Ok("/cache".to_string()), None) {
        EditStart::Download(job) => {
            assert_eq!(job.file_name, "a.txt");
            assert_eq!(job.remote_path, "/srv/a.txt");
            assert!(job.tmp_path.starts_with("/cache/"));
            assert!(job.tmp_path.ends_with(".txt"));
            assert!(job.for_editor);
        }
        other => panic!("got: {other:?}"),
    }
    assert!(app.pending_remote_open.is_some());
    assert!(app.file_operation_progress.is_some());
    assert_eq!(dialog(&app).dialog_type, DialogType::Progress);

    let mut app = remote_app("/srv", vec![item("a.txt", false)]);
    assert!(matches!(app.edit_file(Err("no cache".to_string()), None), EditStart::Nothing));
    assert_eq!(message(&app), "no cache");
}

#[test]
fn going_to_a_path_stops_at_what_can_be_read() {
    assert_eq!(path_candidates("/a/b"), ["/a/b", "/a", "/"]);
    assert_eq!(resolve_typed_path("~/x", Some("/home/kim"), "/d"), "/home/kim/x");
    assert_eq!(resolve_typed_path("x", Some("/home/kim"), "/d"), "/d/x");
    assert_eq!(resolve_typed_path("/x", None, "/d"), "/x");

    let mut app = app_with("/d", Vec::new());
    assert!(app.goto_checked("/a/b", "/", &set(&["/a/b"])));
    assert_eq!(app.panels[0].path, "/a/b");
    assert_eq!(message(&app), "Moved to: /a/b");
    assert!(app.goto_checked("/a/b/c", "/", &set(&["/a"])));
    assert_eq!(message(&app), "Moved to nearest valid: /a");
    assert!(!app.goto_checked("/a", "/", &set(&["/a"])));
    assert_eq!(message(&app), "Already at: /a");
    assert!(!app.goto_checked("/a/x", "/", &set(&["/a"])));
    assert_eq!(message(&app), "Error: Path not found or not accessible");
    assert!(!app.goto_resolved(None, "/", &set(&[])));
    assert_eq!(message(&app), "Error: Invalid path");
    assert!(app.goto_resolved(Some("/z"), "/", &set(&["/z"])));
    assert_eq!(app.panels[0].path, "/z");
}

#[test]
fn a_typed_path_is_checked_or_resolved() {
    let mut app = app_with("/d", Vec::new());
    match app.execute_goto("x", None, None, Some("/home/kim"), true) {
        GotoStep::Check(path) => assert_eq!(path, "/d/x"),
        other => panic!("got: {other:?}"),
    }
    match app.execute_goto("x/../y", None, None, Some("/home/kim"), true) {
        GotoStep::Resolve(path) => assert_eq!(path, "/d/x/../y"),
        other => panic!("got: {other:?}"),
    }
    let mut app = remote_app("/srv", Vec::new());
    match app.execute_goto("logs/../data", None, None, None, false) {
        GotoStep::List(job) => assert_eq!(job.list_path, "/srv/data"),
        other => panic!("got: {other:?}"),
    }
}

#[test]
fn going_home_and_up() {
    let mut app = app_with("/a/b", Vec::new());
    assert!(app.goto_home(Some("/home/kim".to_string())));
    assert_eq!(app.panels[0].path, "/home/kim");
    assert!(!app.goto_home(None));
    let (list, read) = app.go_to_parent();
    assert!(list.is_none() && read);
    assert_eq!(app.panels[0].path, "/home");
    assert_eq!(app.panels[0].pending_focus.as_deref(), Some("kim"));
    app.goto_directory_with_focus("/x", Some("f".to_string()));
    assert_eq!(app.panels[0].path, "/x");
    assert_eq!(app.panels[0].pending_focus.as_deref(), Some("f"));
}

#[test]
fn a_search_result_leads_to_its_directory() {
    let mut app = app_with("/d", Vec::new());
    app.search_result_state.results = vec![SearchResultItem {
        full_path: "/d/sub/f.txt".to_string(),
        relative_path: "sub/f.txt".to_string(),
        name: "f.txt".to_string(),
        is_directory: false,
    }];
    app.search_result_state.active = true;
    app.current_screen = Screen::SearchResult;
    assert!(app.goto_search_result());
    assert_eq!(app.panels[0].path, "/d/sub");
    assert_eq!(app.panels[0].pending_focus.as_deref(), Some("f.txt"));
    assert_eq!(app.current_screen, Screen::FilePanel);
}

#[test]
fn files_of_one_extension_are_marked_together() {
    let files = vec![
        item("..", true),
        item("a.TXT", false),
        item("b.txt", false),
        item("c.md", false),
        item("d.txt", true),
    ];
    let mut app = app_with("/d", files);
    app.panels[0].selected_index = 1;
    app.select_by_extension();
    assert_eq!(message(&app), "Selected 2 .txt file(s)");
    assert_eq!(app.panels[0].selected_files.len(), 2);
    assert!(app.panels[0].selected_files.contains("a.TXT"));
    app.select_by_extension();
    assert_eq!(message(&app), "Deselected 2 .txt file(s)");
    assert!(app.panels[0].selected_files.is_empty());

    app.execute_advanced_search(&vec![true, true, false, true, false]);
    assert_eq!(message(&app), "Found 2 matching file(s)");
    assert!(app.panels[0].selected_files.contains("c.md"));
    assert!(!app.panels[0].selected_files.contains(".."));
    app.execute_advanced_search(&vec![true, false, false, false, false]);
    assert_eq!(message(&app), "No files match the criteria");
    assert!(app.panels[0].selected_files.is_empty());
}

#[test]
fn moving_with_the_mark_key_marks_the_way() {
    let files = vec![item("..", true), item("a", false), item("b", false)];
    let mut app = app_with("/d", files);
    app.move_cursor_with_selection(1);
    assert_eq!(app.panels[0].selected_index, 1);
    assert!(app.panels[0].selected_files.is_empty());
    app.move_cursor_with_selection(1);
    assert_eq!(app.panels[0].selected_index, 2);
    assert!(app.panels[0].selected_files.contains("a"));
}

#[test]
fn a_listing_is_sorted_and_keeps_its_focus() {
    let mut panel = PanelState::with_settings("/d", "size", "desc", &places(&["/d"]));
    assert_eq!((panel.sort_by, panel.sort_order), (SortBy::Size, SortOrder::Desc));
    let mut small = item("small", false);
    small.size = 1;
    panel.pending_focus = Some("small".to_string());
    panel.load_files_local(
        Some(vec![small, item("big", false), item("sub", true)]),
        NOW,
        (100, 40),
    );
    let names: Vec<&str> = panel.files.iter().map(|file| file.name.as_str()).collect();
    assert_eq!(names, ["..", "sub", "big", "small"]);
    assert_eq!(panel.current_file().unwrap().name, "small");
    assert_eq!((panel.disk_total, panel.disk_available), (100, 40));
    assert!(panel.pending_focus.is_none());
    assert_eq!(panel.display_path("kim@example.org:/d".to_string()), "/d");

    panel.load_files_local(None, NOW, (0, 0));
    assert_eq!(panel.files.len(), 1);
    assert_eq!(panel.selected_index, 0);
}

#[test]
fn a_failed_remote_listing_tells_the_panel() {
    let mut app = remote_app("/srv", Vec::new());
    let entry = SftpFileEntry {
        name: "logs".to_string(),
        is_directory: true,
        is_symlink: false,
        size: 0,
        modified: NOW,
        permissions: "rwxr-xr-x".to_string(),
    };
    app.panels[0].load_files_remote(Ok(vec![entry]), NOW);
    let names: Vec<&str> = app.panels[0].files.iter().map(|file| file.name.as_str()).collect();
    assert_eq!(names, ["..", "logs"]);
    app.panels[0].load_files_remote(Err("gone".to_string()), NOW);
    assert!(matches!(
        &app.panels[0].remote_ctx.as_ref().unwrap().status,
        ConnectionStatus::Disconnected(error) if error == "gone"
    ));
}

#[test]
fn choosing_a_sort_reads_a_local_panel_again() {
    let mut app = app_with("/d", vec![item("b", false), item("a", false)]);
    assert!(app.toggle_sort_by_size(NOW));
    assert_eq!((app.panels[0].sort_by, app.panels[0].sort_order), (SortBy::Size, SortOrder::Asc));
    assert!(app.toggle_sort_by_size(NOW));
    assert_eq!(app.panels[0].sort_order, SortOrder::Desc);
    assert!(app.toggle_sort_by_date(NOW));
    assert_eq!((app.panels[0].sort_by, app.panels[0].sort_order), (SortBy::Modified, SortOrder::Asc));
    assert!(app.toggle_sort_by_type(NOW));
    assert!(app.toggle_sort_by_name(NOW));
    assert_eq!(app.panels[0].sort_by, SortBy::Name);
}

#[test]
fn more_panels_than_fit_are_left_out() {
    let mut app = app_with("/d", Vec::new());
    app.active_panel_index = 1;
    let paths: Vec<String> = (0..12).map(|i| format!("/p{i}")).collect();
    let places = places(&paths.iter().map(String::as_str).collect::<Vec<_>>());
    app.set_panels_from_paths(paths, &places);
    assert_eq!(app.panels.len(), 10);
    assert_eq!(app.active_panel_index, 0);
    assert_eq!(app.target_panel().path, "/p1");
    app.set_panels_from_paths(Vec::new(), &places);
    assert_eq!(app.panels.len(), 10);
}

#[test]
fn a_new_panel_stands_where_it_can_read() {
    let here = places(&["/d", "/home"]);
    assert_eq!(PanelState::new("/d", &here).path, "/d");
    assert_eq!(PanelState::new("/d/gone/deeper", &here).path, "/d");
    assert_eq!(PanelState::new("/gone", &here).path, "/home");
    assert_eq!(PanelState::new("/gone", &places(&["/d"])).path, "/");
    let panel = PanelState::with_settings("/d/gone", "size", "desc", &here);
    assert_eq!((panel.path.as_str(), panel.sort_by), ("/d", SortBy::Size));

    let mut app = app_with("/d", Vec::new());
    app.panels[0].path = "/srv/of/another/machine".to_string();
    app.add_panel(&here);
    assert_eq!(app.panels[1].path, "/home");
    assert_eq!(app.active_panel_index, 1);
    app.set_panels_from_paths(vec!["/gone".to_string(), "/d/gone".to_string()], &here);
    let paths: Vec<&str> = app.panels.iter().map(|panel| panel.path.as_str()).collect();
    assert_eq!(paths, ["/home", "/d"]);
    app.set_panels_from_paths(vec!["/d".to_string()], &here);
    app.panels[0].path = "/d/gone".to_string();
    assert_eq!(app.show_ai_screen(&here).as_deref(), Some("/d/gone"));
    assert_eq!(app.panels[1].path, "/d");
}

#[test]
fn a_theme_file_is_looked_at_every_tenth_time() {
    let mut watch = ThemeWatchState::watch_theme(Some("/t.json".to_string()), Some(5));
    for _ in 0..9 {
        assert!(!watch.is_due());
        assert!(!watch.check_for_changes(Some(Some(6))));
    }
    assert!(watch.is_due());
    assert!(watch.check_for_changes(Some(Some(6))));
    assert_eq!(watch.last_modified, Some(6));
    watch.update_theme(None, Some(9));
    assert_eq!(watch.last_modified, None);
    assert_eq!(watch.check_counter, 0);
}

#[test]
fn nine_calls_pass_between_two_looks_at_a_theme_file() {
    let mut watch = ThemeWatchState::watch_theme(Some("/t.json".to_string()), None);
    let mut looks = Vec::new();
    for call in 1..=1000u32 {
        if watch.is_due() {
            looks.push(call);
        }
        watch.check_for_changes(Some(None));
    }
    assert_eq!(looks, (1..=100).map(|n| n * 10).collect::<Vec<u32>>());

    let mut watch = ThemeWatchState {
        theme_path: Some("/t.json".to_string()),
        last_modified: None,
        check_counter: 250,
    };
    for _ in 0..9 {
        assert!(!watch.check_for_changes(Some(Some(7))));
        assert_eq!(watch.last_modified, None);
    }
    assert!(watch.check_for_changes(Some(Some(7))));
    assert_eq!(watch.last_modified, Some(7));
}

#[test]
fn screens_open_their_dialogs() {
    let mut app = app_with("/d", vec![item("..", true), item("a.txt", false)]);
    app.show_mkdir_dialog();
    assert_eq!(dialog(&app).dialog_type, DialogType::Mkdir);
    app.show_mkfile_dialog();
    assert_eq!(dialog(&app).dialog_type, DialogType::Mkfile);
    app.show_search_dialog();
    assert_eq!(dialog(&app).dialog_type, DialogType::Search);
    app.show_goto_dialog(String::new());
    assert_eq!(dialog(&app).dialog_type, DialogType::Goto);
    assert_eq!(dialog(&app).input, "/d");
    let completion = dialog(&app).completion.as_ref().unwrap();
    assert!(completion.suggestions.is_empty());
    assert_eq!(completion.selected_index, 0);
    assert!(!completion.visible);
    app.show_help();
    assert_eq!(app.current_screen, Screen::Help);
    app.show_process_manager();
    assert_eq!(app.current_screen, Screen::ProcessManager);
    app.show_system_info();
    assert_eq!(app.current_screen, Screen::SystemInfo);
    assert!(app.show_git_screen(false).is_none());
    assert_eq!(message(&app), "Not a git repository");
    assert_eq!(app.show_git_screen(true).as_deref(), Some("/d"));
    assert_eq!(app.current_screen, Screen::GitScreen);
    assert_eq!(app.execute_dedup(), "/d");
    assert_eq!(app.current_screen, Screen::DedupScreen);
    app.enter_diff_file_view("/l".to_string(), "/r".to_string(), "f".to_string());
    assert_eq!(app.current_screen, Screen::DiffFileView);
}

#[test]
fn commits_are_laid_out_for_a_comparison() {
    let job = GitDiffJob {
        repo_path: "/repo".to_string(),
        project_name: "repo".to_string(),
        hash1: "abc".to_string(),
        hash2: "def".to_string(),
    };
    let result = |home: Option<&str>, made: bool, first: LayOut, second: LayOut| {
        git_diff_result(home, made, first, second, &job)
    };
    let home = Some("/home/kim");
    assert_eq!(
        result(home, true, LayOut::Done, LayOut::Done),
        Ok((
            "/home/kim/.cokacdir/diff/repo_abc".to_string(),
            "/home/kim/.cokacdir/diff/repo_def".to_string()
        ))
    );
    let failed = |r: Result<(String, String), String>| r.unwrap_err();
    assert_eq!(
        failed(result(None, true, LayOut::Done, LayOut::Done)),
        "Failed to get home directory"
    );
    assert_eq!(
        failed(result(home, false, LayOut::Done, LayOut::Done)),
        "Failed to create diff directory"
    );
    assert_eq!(
        failed(result(home, true, LayOut::NotCopied, LayOut::Done)),
        "Failed to copy repository"
    );
    assert_eq!(
        failed(result(home, true, LayOut::Done, LayOut::NotCheckedOut)),
        "Failed to checkout def"
    );
}

#[test]
fn an_editor_is_chosen_and_told() {
    let mut app = app_with("/d", Vec::new());
    assert_eq!(app.choose_vscode(true, true).as_deref(), Some("code"));
    assert_eq!(app.choose_vscode(false, true).as_deref(), Some("code-insiders"));
    assert!(app.choose_vscode(false, false).is_none());
    assert_eq!(message(&app), "VS Code not found (tried: code, code-insiders)");
    app.open_in_vscode("code", Ok(()));
    assert_eq!(message(&app), "Opened in code: /d");
    app.open_in_vscode("code", Err("denied".to_string()));
    assert_eq!(message(&app), "Failed to open code: denied");
    app.open_in_finder(Ok(()));
    assert_eq!(message(&app), "Opened in Finder: /d");
    app.open_in_explorer(Err("denied".to_string()));
    assert_eq!(message(&app), "Failed to open: denied");
}
