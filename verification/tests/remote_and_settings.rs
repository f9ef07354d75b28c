use cokacdir::app_state::{
    App, EditorLink, RemoteEditEndpoint, RemoteEditOrigin, RemoteFileVersion, RemoteSpinner,
    SearchResultItem,
};
use cokacdir::dialogs::{DialogType, Screen};
use cokacdir::diff_types::FileTime;
use cokacdir::goto::{GotoStep, RemoteAddress};
use cokacdir::names::NameSet;
use cokacdir::navigation::Places;
use cokacdir::opening::{download_connected, download_ended, download_preparing, download_progressed};
use cokacdir::panel::{ConnectionStatus, RemoteContext, RemoteEndpoint, SftpFileEntry};
use cokacdir::progress::ProgressMessage;
use cokacdir::remote_cache::{remote_cache_path_in, remote_cache_suffix};
use cokacdir::remote_connect::{
    RemoteAuth, RemoteAuthType, RemoteConnectState, RemoteField, RemoteProfile,
};
use cokacdir::remote_ops::{connection_result, RemoteGoto, RemoteSaveStatus};
use cokacdir::settings::{CrossVolumeMoveVerification, PanelSettings, Settings};
use cokacdir::settings_flow::ThemeFile;
use cokacdir::sorting::{SortBy, SortOrder};
use cokacdir::spinner::{
    EditorReply, KnownEndpoint, PanelOpOutcome, RemoteSpinnerResult, SpinnerEvent, SpinnerFollowUp,
};

const NOW: FileTime = FileTime { secs: 1_700_000_000, nanos: 0 };

fn places(readable: &[&str]) -> Places {
    let mut set = NameSet::new();
    for path in readable {
        set.insert(path.to_string());
    }
    Places { home: "/home".to_string(), root: "/".to_string(), readable: set }
}

fn settings() -> Settings {
    Settings {
        panels: Vec::new(),
        active_panel_index: 0,
        theme_name: "light".to_string(),
        diff_compare_method: "content".to_string(),
        cross_volume_move_verification: CrossVolumeMoveVerification::Standard,
        bookmarked_path: Vec::new(),
        tar_path: None,
        remote_profiles: Vec::new(),
        extension_handlers: Vec::new(),
        telegram_polling_time: 2_500,
        encrypt_split_size: 1_800,
    }
}

fn profile() -> RemoteProfile {
    RemoteProfile {
        name: "box".to_string(),
        host: "example.org".to_string(),
        port: 22,
        user: "kim".to_string(),
        auth: RemoteAuth::Password { password: "pw".to_string() },
        default_path: "/srv".to_string(),
    }
}

fn context() -> RemoteContext {
    RemoteContext { profile: profile(), status: ConnectionStatus::Connected }
}

fn no_theme() -> ThemeFile {
    ThemeFile { path: None, modified: None }
}

fn app() -> App {
    App::new("/d", "/other", &places(&["/d", "/other"]), settings(), no_theme())
}

fn remote_app(path: &str) -> App {
    let mut app = app();
    app.panels[0].path = path.to_string();
    app.panels[0].remote_ctx = Some(context());
    app.panels[0].remote_display = Some(RemoteEndpoint {
        user: "kim".to_string(),
        host: "example.org".to_string(),
        port: 22,
    });
    app
}

fn entry(name: &str) -> SftpFileEntry {
    SftpFileEntry {
        name: name.to_string(),
        is_directory: false,
        is_symlink: false,
        size: 3,
        modified: NOW,
        permissions: String::new(),
    }
}

fn known() -> KnownEndpoint {
    KnownEndpoint {
        has_profile: true,
        bookmarked: true,
        bookmark: "kim@example.org:/srv".to_string(),
    }
}

fn message(app: &App) -> &str {
    app.message.as_deref().unwrap_or("")
}

/// Lets work in the background end with a result.
fn end(app: &mut App, result: RemoteSpinnerResult, reply: Option<EditorReply>) -> SpinnerFollowUp {
    app.remote_spinner = Some(RemoteSpinner { message: "Working...".to_string() });
    app.poll_remote_spinner(SpinnerEvent::Done(result), &known(), reply, NOW)
}

fn panel_op(outcome: PanelOpOutcome) -> RemoteSpinnerResult {
    RemoteSpinnerResult::PanelOp { ctx: context(), panel_idx: 0, outcome }
}

fn editor() -> EditorLink {
    EditorLink {
        file_path: "/cache/a".to_string(),
        remote_origin: Some(RemoteEditOrigin {
            panel_index: 0,
            remote_path: "/srv/a".to_string(),
            endpoint: RemoteEditEndpoint {
                user: "kim".to_string(),
                host: "example.org".to_string(),
                port: 22,
            },
            edit_session_id: 5,
            expected_version: RemoteFileVersion { size: 1, modified: 2 },
        }),
        remote_dirty: true,
        remote_save_generation: 3,
        pending_close_after_remote_save: Some(3),
        exit_confirm_open: false,
        message: String::new(),
        message_timer: 0,
    }
}

#[test]
fn connecting_is_begun_once() {
    let mut app = app();
    let host = || Ok("example.org".to_string());
    assert!(app.connect_remote_panel(&profile(), Err("bad host".to_string()), "/").is_none());
    assert_eq!(message(&app), "bad host");
    assert!(app.connect_remote_panel(&profile(), host(), "/a\0").is_none());
    assert_eq!(message(&app), "Remote path contains a NUL byte");
    let job = app.connect_remote_panel(&profile(), host(), "a/../b").unwrap();
    assert_eq!((job.path.as_str(), job.panel_idx), ("/b", 0));
    assert_eq!(
        app.remote_spinner.as_ref().unwrap().message,
        "Connecting to kim@example.org..."
    );
    assert!(app.connect_remote_panel(&profile(), host(), "/").is_none());
}

#[test]
fn a_connection_falls_back_to_the_root() {
    let path = || "/gone".to_string();
    let none = || Err("no such directory".to_string());
    let first = connection_result(profile(), path(), Ok(vec![entry("a")]), none()).unwrap();
    assert_eq!(first.path, "/gone");
    assert!(first.fallback_msg.is_none());
    let second = connection_result(profile(), path(), none(), Ok(Vec::new())).unwrap();
    assert_eq!(second.path, "/");
    assert_eq!(
        second.fallback_msg.as_deref(),
        Some("Path not found: /gone \u{2014} moved to /")
    );
    assert_eq!(
        connection_result(profile(), path(), none(), Err("lost".to_string())).unwrap_err(),
        "Connection failed: lost"
    );
}

#[test]
fn a_new_connection_is_put_into_the_settings() {
    let mut app = app();
    app.remote_spinner = Some(RemoteSpinner { message: "Connecting...".to_string() });
    let success =
        connection_result(profile(), "/srv".to_string(), Ok(vec![entry("a")]), Err(String::new()));
    let unknown = KnownEndpoint { has_profile: false, bookmarked: false, ..known() };
    let left = app.poll_remote_spinner(
        SpinnerEvent::Done(RemoteSpinnerResult::Connected { result: success, panel_idx: 0 }),
        &unknown,
        None,
        NOW,
    );
    assert!(app.panels[0].is_remote());
    assert_eq!(app.panels[0].path, "/srv");
    assert_eq!(app.settings.remote_profiles.len(), 1);
    assert_eq!(app.settings.bookmarked_path, ["kim@example.org:/srv"]);
    let report = left.report.unwrap();
    assert!(report.previous.is_some());
    app.report_connection(report, Err("disk full".to_string()), None, no_theme());
    assert_eq!(
        message(&app),
        "Connected to kim@example.org, but could not confirm durable saving of the profile or \
         bookmark: disk full; disk could not be reread; the last known settings were restored"
    );
    assert!(app.settings.remote_profiles.is_empty());

    let left = end(
        &mut app,
        RemoteSpinnerResult::Connected { result: Err("refused".to_string()), panel_idx: 0 },
        None,
    );
    assert!(left.report.is_none());
    assert_eq!(message(&app), "refused");
}

#[test]
fn a_fallback_is_told_in_a_dialog() {
    let mut app = app();
    let success = connection_result(
        profile(),
        "/gone".to_string(),
        Err(String::new()),
        Ok(Vec::new()),
    );
    let left =
        end(&mut app, RemoteSpinnerResult::Connected { result: success, panel_idx: 0 }, None);
    app.report_connection(left.report.unwrap(), Ok(()), None, no_theme());
    let dialog = app.dialog.as_ref().unwrap();
    assert_eq!(dialog.dialog_type, DialogType::ExtensionHandlerError);
    assert_eq!(dialog.message, "Path not found: /gone \u{2014} moved to /");
}

#[test]
fn work_that_is_lost_is_told() {
    let mut app = app();
    app.editor_state = Some(editor());
    app.remote_spinner = Some(RemoteSpinner { message: "Uploading...".to_string() });
    app.poll_remote_spinner(SpinnerEvent::Waiting, &known(), None, NOW);
    assert!(app.remote_spinner.is_some());
    app.poll_remote_spinner(SpinnerEvent::Lost, &known(), None, NOW);
    assert!(app.remote_spinner.is_none());
    assert_eq!(message(&app), "Remote operation failed unexpectedly");
    let editor = app.editor_state.as_ref().unwrap();
    assert!(editor.exit_confirm_open);
    assert!(editor.pending_close_after_remote_save.is_none());
}

#[test]
fn an_operation_of_a_panel_lists_it_again() {
    let mut app = remote_app("/srv");
    app.panels[0].remote_ctx = None;
    app.panels[1].selected_files.insert("x".to_string());
    let left = end(
        &mut app,
        panel_op(PanelOpOutcome::Simple {
            message: Ok("Created file: a".to_string()),
            pending_focus: Some("a".to_string()),
            reload: true,
        }),
        None,
    );
    assert_eq!(message(&app), "Created file: a");
    assert_eq!(app.panels[0].pending_focus.as_deref(), Some("a"));
    assert!(left.reload_local && left.retry_upload);
    assert_eq!(left.list.unwrap().list_path, "/srv");
    assert!(app.panels[1].selected_files.is_empty());
    assert_eq!(app.remote_spinner.as_ref().unwrap().message, "Loading...");

    let mut app = remote_app("/srv");
    end(
        &mut app,
        panel_op(PanelOpOutcome::Simple {
            message: Err("denied".to_string()),
            pending_focus: Some("a".to_string()),
            reload: false,
        }),
        None,
    );
    assert_eq!(message(&app), "Error: denied");
    assert!(app.panels[0].pending_focus.is_none());
}

#[test]
fn an_upload_is_told_in_the_editor() {
    let mut app = remote_app("/srv");
    app.current_screen = Screen::FileEditor;
    app.editor_state = Some(editor());
    let saved = |status: RemoteSaveStatus| {
        panel_op(PanelOpOutcome::RemoteSave {
            status,
            remote_path: "/srv/a".to_string(),
            edit_session_id: 5,
            generation: 3,
            reload: true,
        })
    };
    let version = RemoteFileVersion { size: 1, modified: 9 };
    let current = EditorReply { is_current: true, closes: true, dirty: false };
    let left = end(&mut app, saved(RemoteSaveStatus::Complete(version)), Some(current));
    let editor_state = app.editor_state.as_ref().unwrap();
    assert_eq!(editor_state.message, "Saved & uploaded to remote!");
    assert_eq!(editor_state.message_timer, 30);
    assert!(left.close_editor && left.retry_upload && left.list.is_some());

    let failed = EditorReply { is_current: true, closes: false, dirty: true };
    let left = end(
        &mut app,
        saved(RemoteSaveStatus::Failed("denied".to_string())),
        Some(failed),
    );
    let editor_state = app.editor_state.as_ref().unwrap();
    assert_eq!(editor_state.message, "Error: Saved locally, upload failed: denied");
    assert_eq!(editor_state.message_timer, 50);
    assert!(!left.retry_upload && left.list.is_none());

    let stale = EditorReply { is_current: false, closes: false, dirty: true };
    end(&mut app, saved(RemoteSaveStatus::Complete(version)), Some(stale));
    assert_eq!(
        app.editor_state.as_ref().unwrap().message,
        "Previous upload finished; latest local save still needs upload"
    );
}

#[test]
fn a_failed_listing_goes_back() {
    let mut app = remote_app("/srv/new");
    end(
        &mut app,
        panel_op(PanelOpOutcome::ListDir {
            entries: Err("gone".to_string()),
            path: "/srv/new".to_string(),
            old_path: Some("/srv".to_string()),
        }),
        None,
    );
    assert_eq!(app.panels[0].path, "/srv");
    assert_eq!(message(&app), "Error: gone");
    end(
        &mut app,
        panel_op(PanelOpOutcome::ListDir {
            entries: Ok(vec![entry("b"), entry("a")]),
            path: "/srv".to_string(),
            old_path: None,
        }),
        None,
    );
    let names: Vec<&str> = app.panels[0].files.iter().map(|file| file.name.as_str()).collect();
    assert_eq!(names, ["..", "a", "b"]);
}

#[test]
fn other_work_comes_to_its_end() {
    let mut app = remote_app("/srv");
    let left = end(
        &mut app,
        panel_op(PanelOpOutcome::DirExists { exists: true, target_entry: "/x".to_string() }),
        None,
    );
    assert_eq!(left.goto.as_deref(), Some("/x"));
    end(
        &mut app,
        panel_op(PanelOpOutcome::DirExists { exists: false, target_entry: "/x".to_string() }),
        None,
    );
    assert_eq!(app.dialog.as_ref().unwrap().message, "Path not found: /x");

    let mut app = self::app();
    end(
        &mut app,
        RemoteSpinnerResult::LocalOp { message: Ok("Deleted 2 file(s)".to_string()), reload: false },
        None,
    );
    assert_eq!(message(&app), "Deleted 2 file(s)");
    let search = |results: Vec<SearchResultItem>| RemoteSpinnerResult::SearchComplete {
        results,
        search_term: "x".to_string(),
        base_path: "/d".to_string(),
    };
    end(&mut app, search(Vec::new()), None);
    assert_eq!(message(&app), "No files found matching \"x\"");
    let found = SearchResultItem {
        full_path: "/d/x".to_string(),
        relative_path: "x".to_string(),
        name: "x".to_string(),
        is_directory: false,
    };
    end(&mut app, search(vec![found]), None);
    assert_eq!(app.current_screen, Screen::SearchResult);
    assert!(app.search_result_state.active);
    let left = end(
        &mut app,
        RemoteSpinnerResult::GitDiffComplete {
            result: Ok(("/one".to_string(), "/two".to_string())),
        },
        None,
    );
    assert!(left.compare);
    assert_eq!(app.current_screen, Screen::DiffScreen);
}

#[test]
fn a_waiting_save_is_uploaded_by_its_panel() {
    let mut app = remote_app("/srv");
    app.editor_state = Some(editor());
    let request = app.pending_remote_editor_upload(true).unwrap();
    assert_eq!((request.remote_path.as_str(), request.generation), ("/srv/a", 3));
    let job = app.start_pending_remote_editor_upload(request, Ok(())).unwrap();
    assert_eq!(job.request.local_path, "/cache/a");
    assert_eq!(app.remote_spinner.as_ref().unwrap().message, "Uploading...");
    assert_eq!(app.editor_state.as_ref().unwrap().message, "Uploading latest local save...");
    assert!(app.pending_remote_editor_upload(true).is_none());
}

#[test]
fn leaving_a_remote_machine_goes_home() {
    let mut app = remote_app("/srv");
    app.disconnect_remote_panel("/home/kim".to_string());
    assert!(!app.panels[0].is_remote());
    assert_eq!(app.panels[0].path, "/home/kim");
    assert_eq!(message(&app), "Disconnected from remote server");
}

#[test]
fn a_remote_path_goes_to_a_known_machine_or_asks() {
    let mut app = app();
    let known = profile();
    match app.execute_goto_remote("kim", "example.org", None, 22, "/", Some(&known)) {
        RemoteGoto::Profile { path, .. } => assert_eq!(path, "/srv"),
        other => panic!("got: {other:?}"),
    }
    match app.execute_goto_remote("kim", "example.org", None, 22, "/x", Some(&known)) {
        RemoteGoto::Profile { path, .. } => assert_eq!(path, "/x"),
        other => panic!("got: {other:?}"),
    }
    assert!(matches!(
        app.execute_goto_remote("", "EXAMPLE.org", Some("example.org"), 2222, "/x", None),
        RemoteGoto::Asked
    ));
    assert_eq!(app.dialog.as_ref().unwrap().message, "Connect to @EXAMPLE.org:2222");
    let form = app.remote_connect_state.as_ref().unwrap();
    assert_eq!(form.selected_field, RemoteField::User);
    assert_eq!(form.host, "example.org");
    assert_eq!(form.port, "2222");
    let address = RemoteAddress {
        user: "kim".to_string(),
        host: "example.org".to_string(),
        canonical: None,
        port: 22,
        path: "/y".to_string(),
    };
    match app.execute_goto("kim@example.org:/y", Some(address), Some(&known), None, false) {
        GotoStep::Machine(RemoteGoto::Profile { path, .. }) => assert_eq!(path, "/y"),
        other => panic!("got: {other:?}"),
    }
    let mut app = remote_app("/srv");
    assert_eq!(app.execute_goto_remote_relative("../x").unwrap().list_path, "/x");
    assert!(app.execute_goto_remote_relative("y").is_none());
    let mut app = remote_app("/srv");
    assert!(app.execute_goto_remote_relative("a\0").is_none());
    assert_eq!(message(&app), "Remote path contains a NUL byte");
}

#[test]
fn the_form_edits_the_field_with_the_focus() {
    let mut form = RemoteConnectState::from_parsed("kim", "example.org", None, 22, "/x");
    assert!(form.is_auth_type_field());
    form.toggle_auth_type();
    assert_eq!(form.auth_type, RemoteAuthType::KeyFile);
    form.selected_field = RemoteField::Host;
    form.active_field_mut().push_str(".net");
    assert_eq!(form.active_field_value(), "example.org.net");
}

#[test]
fn a_download_tells_how_far_it_is() {
    assert!(matches!(
        &download_preparing("example.org")[0],
        ProgressMessage::Preparing(text) if text == "Connecting to example.org..."
    ));
    let told = download_connected("a", 9, Ok(()));
    assert!(matches!(told[2], ProgressMessage::TotalProgress(0, 1, 0, 9)));
    let told = download_connected("a", 9, Err("refused".to_string()));
    assert!(matches!(
        &told[0],
        ProgressMessage::Error(name, text) if name == "a" && text == "Connection failed: refused"
    ));
    assert!(matches!(told[1], ProgressMessage::Completed(0, 1)));
    let told = download_progressed(4, 9);
    assert!(matches!(told[0], ProgressMessage::FileProgress(4, 9)));
    assert!(matches!(told[1], ProgressMessage::TotalProgress(0, 1, 4, 9)));
    let told = download_ended("a", 9, Ok(()));
    assert!(matches!(told[1], ProgressMessage::TotalProgress(1, 1, 9, 9)));
    assert!(matches!(told[2], ProgressMessage::Completed(1, 0)));
}

#[test]
fn a_copy_of_a_remote_file_keeps_a_harmless_extension() {
    assert_eq!(remote_cache_suffix("/srv/a.tar.gz"), ".gz");
    assert_eq!(remote_cache_suffix("/srv.d/a"), "");
    assert_eq!(remote_cache_suffix("/srv/a.b c"), "");
    assert_eq!(remote_cache_suffix("/srv/a.12345678901234567"), "");
    let path = remote_cache_path_in("/cache", &profile(), None, "/srv/a.txt");
    assert_eq!(path.len(), "/cache/".len() + 64 + ".txt".len());
    assert_ne!(path, remote_cache_path_in("/cache", &profile(), None, "/srv/b.txt"));
    assert_ne!(path, remote_cache_path_in("/cache", &profile(), Some("h"), "/srv/a.txt"));
}

fn panel_settings(path: &str, sort_by: &str, sort_order: &str) -> PanelSettings {
    PanelSettings {
        start_path: Some(path.to_string()),
        sort_by: sort_by.to_string(),
        sort_order: sort_order.to_string(),
    }
}

#[test]
fn the_program_starts_on_the_panels_of_its_settings() {
    let start = |panels: Vec<PanelSettings>, active: usize, paths: &[&str]| {
        let settings = Settings { panels, active_panel_index: active, ..settings() };
        let paths = paths.iter().map(|path| path.to_string()).collect();
        let places = places(&["/cwd", "/home", "/home/kim", "/x"]);
        App::with_settings(settings, paths, "/cwd", &places, no_theme())
    };
    let app = start(Vec::new(), 7, &[]);
    let paths: Vec<&str> = app.panels.iter().map(|panel| panel.path.as_str()).collect();
    assert_eq!(paths, ["/cwd", "/home"]);
    assert_eq!(app.active_panel_index, 1);
    let app = start(
        vec![panel_settings("~", "SIZE", "desc"), panel_settings("/x", "odd", "odd")],
        1,
        &["/home/kim", "/x"],
    );
    assert_eq!((app.panels[0].sort_by, app.panels[0].sort_order), (SortBy::Size, SortOrder::Desc));
    assert_eq!((app.panels[1].sort_by, app.panels[1].sort_order), (SortBy::Name, SortOrder::Asc));
    assert_eq!(app.panels[0].path, "/home/kim");
    assert_eq!(app.active_panel_index, 1);
    let many: Vec<PanelSettings> = (0..12).map(|_| panel_settings("/x", "name", "asc")).collect();
    assert_eq!(start(many, 0, &["/x"; 12]).panels.len(), 12);
    let app = start(vec![panel_settings("/deleted", "name", "asc")], 0, &["/x/deleted"]);
    assert_eq!(app.panels[0].path, "/x");
    let app = start(vec![panel_settings("/deleted", "name", "asc")], 0, &["/deleted"]);
    assert_eq!(app.panels[0].path, "/home");
}

#[test]
fn the_panels_are_kept_in_the_settings() {
    let mut app = remote_app("/srv");
    app.panels[1].sort_by = SortBy::Type;
    app.active_panel_index = 1;
    assert_eq!(
        app.save_settings(Err("bad json".to_string()), "/home").unwrap_err(),
        "refusing to replace unreadable settings: bad json"
    );
    let on_disk = Settings { theme_name: "dark".to_string(), ..settings() };
    let merged = app.save_settings(Ok(on_disk), "/home").unwrap();
    assert_eq!(merged.theme_name, "dark");
    assert_eq!(merged.active_panel_index, 1);
    assert_eq!(merged.panels[0].start_path.as_deref(), Some("/home"));
    assert_eq!(merged.panels[1].start_path.as_deref(), Some("/other"));
    assert_eq!(merged.panels[1].sort_by, "type");
}

#[test]
fn settings_are_taken_over_when_they_are_read_again() {
    let mut app = app();
    let (taken, _) = app.reload_settings(Err("bad".to_string()), no_theme());
    assert!(!taken);
    assert_eq!(message(&app), "Settings error: bad");
    let changed = Settings {
        theme_name: "dark".to_string(),
        panels: vec![panel_settings("/d", "size", "asc"), panel_settings("/o", "name", "asc")],
        ..settings()
    };
    let (taken, reload) = app.reload_settings(Ok(changed), no_theme());
    assert!(taken);
    assert_eq!(message(&app), "Settings reloaded");
    assert_eq!(app.theme, "dark");
    assert_eq!(app.panels[0].sort_by, SortBy::Size);
    assert_eq!(reload, [true, false]);
    assert!(App::is_settings_file("/c/./settings.json", Some("/c/settings.json")));
    assert!(!App::is_settings_file("/c/settings.json", None));
}

#[test]
fn the_settings_dialog_is_applied_or_left() {
    let mut app = app();
    assert!(app.apply_settings_from_dialog(no_theme()).is_none());
    app.show_settings_dialog(&vec!["dark.json".to_string()]);
    assert_eq!(app.dialog.as_ref().unwrap().dialog_type, DialogType::Settings);
    let state = app.settings_state.as_mut().unwrap();
    state.next_diff_method();
    state.toggle_move_verification();
    let previous = app.apply_settings_from_dialog(no_theme()).unwrap();
    assert_eq!(previous.diff_compare_method, "content");
    assert_eq!(app.settings.diff_compare_method, "modified_time");
    assert_eq!(
        app.settings.cross_volume_move_verification,
        CrossVolumeMoveVerification::Strict
    );
    assert!(app.dialog.is_none() && app.settings_state.is_none());
    app.settings_dialog_saved(previous, Ok(()), None, no_theme());
    assert_eq!(message(&app), "Settings saved!");
    app.show_settings_dialog(&Vec::new());
    app.cancel_settings_dialog();
    assert!(app.settings_state.is_none());
}

#[test]
fn a_bookmark_that_cannot_be_written_is_taken_back() {
    let mut app = app();
    let (previous, told) = app.toggle_bookmark(String::new());
    assert_eq!(told, "Bookmark added: /d");
    assert_eq!(app.settings.bookmarked_path, ["/d"]);
    app.bookmark_saved(previous, &told, Err("full".to_string()), None, no_theme());
    assert!(app.settings.bookmarked_path.is_empty());
    assert!(message(&app).starts_with("Could not confirm bookmark durability (full"));
    let (previous, told) = app.toggle_bookmark(String::new());
    app.bookmark_saved(previous, &told, Ok(()), None, no_theme());
    assert_eq!(message(&app), "Bookmark added: /d");
}
