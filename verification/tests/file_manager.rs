use cokacdir::app_state::{App, RemoteFileVersion};
use cokacdir::archive::{
    read_bounded_line, read_bounded_tail, tar_extraction_options, validate_archive_entry_path,
    LineStep, MAX_TAR_ERROR_TAIL_BYTES,
};
use cokacdir::archive_names::process_error_message;
use cokacdir::authorization::{DirectoryAuthorization, NamedAuthorization, PathAuthorization};
use cokacdir::clipboard::ClipboardSources;
use cokacdir::dialogs::{Clipboard, ClipboardOperation, DialogType, Screen};
use cokacdir::diff_types::FileTime;
use cokacdir::handler::{
    substitute_handler_filepath, substitute_handler_filepath_windows, HANDLER_FILEPATH_ENV,
};
use cokacdir::names::NameSet;
use cokacdir::navigation::{get_valid_path, Places};
use cokacdir::panel::{FileItem, PanelState};
use cokacdir::paste::{local_clipboard_authorization_map, PasteRequest};
use cokacdir::progress::{
    FileOperationPhase, FileOperationProgress, FileOperationType, ProgressMessage,
};
use cokacdir::remote_cache::remote_cache_path_for_endpoint;
use cokacdir::remote_ops::{remote_upload_save_status, RemoteSaveStatus, UploadFileOutcome};
use cokacdir::remote_path::{
    normalized_remote_child_path, remote_parent_path, resolve_remote_path,
};
use cokacdir::settings::{
    move_verification_policy, CrossVolumeMoveVerification, MoveVerification, Settings,
    SettingsState,
};
use cokacdir::settings_flow::ThemeFile;
use cokacdir::sorting::{SortBy, SortOrder};
use std::path::Path;

const NOW: FileTime = FileTime { secs: 1_700_000_000, nanos: 0 };

fn places(readable: &[&str]) -> Places {
    let mut set = NameSet::new();
    for path in readable {
        set.insert(path.to_string());
    }
    Places { home: "/home".to_string(), root: "/".to_string(), readable: set }
}

fn settings() -> Settings {
    Settings {
        panels: Vec::new(),
        active_panel_index: 0,
        theme_name: "light".to_string(),
        diff_compare_method: "content".to_string(),
        cross_volume_move_verification: CrossVolumeMoveVerification::Standard,
        bookmarked_path: Vec::new(),
        tar_path: None,
        remote_profiles: Vec::new(),
        extension_handlers: Vec::new(),
        telegram_polling_time: 2_500,
        encrypt_split_size: 1_800,
    }
}

fn no_theme_file() -> ThemeFile {
    ThemeFile { path: None, modified: None }
}

fn app_on(path: &str) -> App {
    App::new(path, path, &places(&[path]), settings(), no_theme_file())
}

fn file(name: &str, size: u64) -> FileItem {
    FileItem {
        name: name.to_string(),
        display_name: None,
        is_directory: false,
        is_symlink: false,
        size,
        modified: NOW,
        permissions: String::new(),
    }
}

fn listed_app(path: &str, names: &[&str]) -> App {
    let mut app = app_on(path);
    for panel in app.panels.iter_mut() {
        let items = names.iter().map(|name| file(name, 7)).collect();
        panel.load_files_local(Some(items), NOW, (0, 0));
    }
    app
}

fn past_parent(app: &mut App) {
    if app.active_panel().files.first().map(|f| f.name.as_str()) == Some("..") {
        app.move_cursor(1);
    }
}

fn seen(inode: u64) -> PathAuthorization {
    PathAuthorization { device: 1, inode, stamp: 3, directory: false }
}

fn directory_seen(path: &str) -> DirectoryAuthorization {
    DirectoryAuthorization { resolved_path: path.to_string(), device: 1, inode: 2 }
}

fn sources(names: &[&str], resolved: &str) -> ClipboardSources {
    ClipboardSources {
        items: names
            .iter()
            .map(|name| NamedAuthorization { name: name.to_string(), authorization: seen(9) })
            .collect(),
        directory: Some(directory_seen(resolved)),
    }
}

fn cut_clipboard(files: &[&str], source: &str) -> Clipboard {
    Clipboard {
        files: files.iter().map(|name| name.to_string()).collect(),
        source_path: source.to_string(),
        operation: ClipboardOperation::Cut,
        source_remote_profile: None,
        source_authorizations: Vec::new(),
        source_directory_authorization: None,
    }
}

#[test]
fn remote_cache_key_never_uses_remote_bytes_as_path_components() {
    let root = Path::new("/application-owned/cache");
    let path = remote_cache_path_for_endpoint(
        "/application-owned/cache",
        "../../user/escape",
        "host/../../outside",
        None,
        22,
        "/../../etc/passwd/../../../payload.rs",
    );
    let path = Path::new(&path);
    assert_eq!(path.parent(), Some(root));
    let name = path.file_name().unwrap().to_string_lossy();
    assert!(name.ends_with(".rs"));
    assert!(name[..64].bytes().all(|byte| byte.is_ascii_hexdigit()));
    assert!(!name.contains(".."));
    assert!(!name.contains("user"));
    assert!(!name.contains("host"));
}

#[test]
fn remote_cache_key_separates_ports_and_rejects_unsafe_extensions() {
    let root = Path::new("cache");
    let port_22 = remote_cache_path_for_endpoint("cache", "user", "host", Some("host"), 22, "/work/file.rs");
    let port_2222 = remote_cache_path_for_endpoint("cache", "user", "host", Some("host"), 2222, "/work/file.rs");
    assert_ne!(port_22, port_2222);

    let unsafe_suffix = remote_cache_path_for_endpoint(
        "cache",
        "user",
        "host",
        Some("host"),
        22,
        "/work/file.bad/../../escape",
    );
    let unsafe_suffix = Path::new(&unsafe_suffix);
    assert_eq!(unsafe_suffix.parent(), Some(root));
    assert_eq!(unsafe_suffix.file_name().unwrap().len(), 64);
}

#[test]
fn remote_cache_key_canonicalizes_bracketed_ipv6_hosts() {
    assert_eq!(
        remote_cache_path_for_endpoint("cache", "user", "::1", Some("::1"), 22, "/work/file.txt"),
        remote_cache_path_for_endpoint("cache", "user", "[::1]", Some("::1"), 22, "/work/file.txt")
    );
}

#[test]
fn remote_child_path_normalizes_sftp_separators_and_rejects_ambiguous_names() {
    assert_eq!(
        normalized_remote_child_path("\\home\\user", "file.txt").unwrap(),
        "/home/user/file.txt"
    );
    assert_eq!(normalized_remote_child_path("/", "file.txt").unwrap(), "/file.txt");
    assert!(normalized_remote_child_path("/home", "../file").is_err());
    assert!(normalized_remote_child_path("/home", "a\\b").is_err());
    assert_eq!(remote_parent_path("\\home\\user"), "/home");
    assert_eq!(resolve_remote_path("\\home\\user", "..\\other").unwrap(), "/home/other");
}

#[test]
fn committed_upload_warning_is_not_a_failed_remote_save() {
    let version = RemoteFileVersion { size: 7, modified: 7 };
    assert_eq!(
        remote_upload_save_status(Ok(UploadFileOutcome::CommittedWithWarning {
            bytes: 7,
            version: version.clone(),
            warning: "mode could not be restored".to_string(),
        })),
        RemoteSaveStatus::CommittedWithWarning {
            version,
            warning: "mode could not be restored".to_string(),
        }
    );
    assert_eq!(
        remote_upload_save_status(Err("publish failed".to_string())),
        RemoteSaveStatus::Failed("publish failed".to_string())
    );
}

#[test]
fn extension_handler_placeholder_is_safe_in_all_supported_quote_contexts() {
    assert_eq!(
        substitute_handler_filepath("printf '%s' {{FILEPATH}}"),
        format!("printf '%s' \"${}\"", HANDLER_FILEPATH_ENV)
    );
    assert_eq!(
        substitute_handler_filepath("printf '%s' \"{{FILEPATH}}\""),
        format!("printf '%s' \"${}\"", HANDLER_FILEPATH_ENV)
    );
    assert_eq!(
        substitute_handler_filepath("printf '%s' '{{FILEPATH}}'"),
        format!("printf '%s' ''\"${}\"''", HANDLER_FILEPATH_ENV)
    );
}

#[test]
fn windows_extension_handler_placeholder_preserves_existing_quotes() {
    assert_eq!(
        substitute_handler_filepath_windows("viewer {{FILEPATH}}"),
        format!("viewer \"%{}%\"", HANDLER_FILEPATH_ENV)
    );
    assert_eq!(
        substitute_handler_filepath_windows("viewer \"{{FILEPATH}}\""),
        format!("viewer \"%{}%\"", HANDLER_FILEPATH_ENV)
    );
}

fn readable(paths: &[&str]) -> NameSet {
    let mut set = NameSet::new();
    for path in paths {
        set.insert(path.to_string());
    }
    set
}

#[test]
fn test_get_valid_path_existing() {
    let readable = readable(&["/tmp/work", "/tmp"]);
    assert_eq!(get_valid_path("/tmp/work", "/tmp", "/", &readable), "/tmp/work");
}

#[test]
fn test_get_valid_path_nonexistent_uses_parent() {
    let readable = readable(&["/tmp/work", "/tmp"]);
    assert_eq!(get_valid_path("/tmp/work/does_not_exist", "/tmp", "/", &readable), "/tmp/work");
}

#[test]
fn test_get_valid_path_fallback() {
    let readable = readable(&["/tmp", "/"]);
    let result = get_valid_path("/nonexistent/path/that/does/not/exist", "/tmp", "/", &readable);
    assert!(readable.contains(&result));
}

#[test]
fn test_get_valid_path_root() {
    let readable = readable(&["/tmp", "/"]);
    assert_eq!(get_valid_path("/", "/tmp", "/", &readable), "/");
}

#[test]
fn test_panel_state_initialization() {
    let mut panel = PanelState::new("/tmp/work", &places(&["/tmp/work"]));
    let mut subdir = file("subdir", 0);
    subdir.is_directory = true;
    let items = vec![file("file1.txt", 7), file("file2.txt", 7), subdir];
    panel.load_files_local(Some(items), NOW, (0, 0));

    assert_eq!(panel.path, "/tmp/work");
    assert!(!panel.files.is_empty());
    assert_eq!(panel.selected_index, 0);
    assert!(panel.selected_files.is_empty());
    assert_eq!(panel.sort_by, SortBy::Name);
    assert_eq!(panel.sort_order, SortOrder::Asc);
    let names: Vec<&str> = panel.files.iter().map(|f| f.name.as_str()).collect();
    assert_eq!(names, ["..", "subdir", "file1.txt", "file2.txt"]);
}

#[test]
fn test_panel_state_has_parent_entry() {
    let mut panel = PanelState::new("/tmp/work/subdir", &places(&["/tmp/work/subdir"]));
    panel.load_files_local(Some(Vec::new()), NOW, (10, 5));

    assert!(panel.files.iter().any(|f| f.name == ".."));
    assert_eq!(panel.disk_total, 10);
    assert_eq!(panel.disk_available, 5);
}

#[test]
fn test_panel_state_current_file() {
    let mut panel = PanelState::new("/tmp/work", &places(&["/tmp/work"]));
    panel.load_files_local(Some(vec![file("test.txt", 7)]), NOW, (0, 0));

    let current = panel.current_file();
    assert!(current.is_some());
}

#[test]
fn test_panel_state_toggle_sort() {
    let mut panel = PanelState::new("/tmp/work", &places(&["/tmp/work"]));
    panel.load_files_local(Some(vec![file("a.txt", 7), file("b.txt", 7)]), NOW, (0, 0));

    assert_eq!(panel.sort_by, SortBy::Name);
    assert_eq!(panel.sort_order, SortOrder::Asc);

    panel.toggle_sort(SortBy::Name, NOW);
    assert_eq!(panel.sort_by, SortBy::Name);
    assert_eq!(panel.sort_order, SortOrder::Desc);

    panel.toggle_sort(SortBy::Size, NOW);
    assert_eq!(panel.sort_by, SortBy::Size);
    assert_eq!(panel.sort_order, SortOrder::Asc);
}

#[test]
fn test_app_initialization() {
    let app = App::new(
        "/tmp/work/first",
        "/tmp/work/second",
        &places(&["/tmp/work/first", "/tmp/work/second"]),
        settings(),
        no_theme_file(),
    );

    assert_eq!(app.panels[0].path, "/tmp/work/first");
    assert_eq!(app.panels[1].path, "/tmp/work/second");
    assert_eq!(app.active_panel_index, 0);
    assert_eq!(app.current_screen, Screen::FilePanel);
    assert!(app.dialog.is_none());
    assert!(app.message.is_none());
}

#[test]
fn test_show_tar_dialog_defaults_to_tar_archive() {
    let mut app = listed_app("/tmp/work", &["file.txt"]);
    app.active_panel_mut().selected_files.insert("file.txt".to_string());

    app.show_tar_dialog();

    let dialog = app.dialog.as_ref().unwrap();
    assert_eq!(dialog.dialog_type, DialogType::Tar);
    assert_eq!(dialog.input, "file.txt.tar");
}

#[test]
fn test_app_switch_panel() {
    let mut app = App::new(
        "/tmp/work/panel1",
        "/tmp/work/panel2",
        &places(&["/tmp/work/panel1", "/tmp/work/panel2"]),
        settings(),
        no_theme_file(),
    );

    assert_eq!(app.active_panel_index, 0);

    app.switch_panel();
    assert_eq!(app.active_panel_index, 1);

    app.switch_panel();
    assert_eq!(app.active_panel_index, 0);
}

#[test]
fn test_app_cursor_movement() {
    let mut app = listed_app("/tmp/work", &["file1.txt", "file2.txt", "file3.txt"]);

    let initial_index = app.active_panel().selected_index;

    app.move_cursor(1);
    assert_eq!(app.active_panel().selected_index, initial_index + 1);

    app.move_cursor(-1);
    assert_eq!(app.active_panel().selected_index, initial_index);
}

#[test]
fn test_app_cursor_bounds() {
    let mut app = listed_app("/tmp/work", &["file.txt"]);

    app.move_cursor(1000);
    let len = app.active_panel().files.len();
    assert!(app.active_panel().selected_index < len);

    app.move_cursor(-1000);
    assert_eq!(app.active_panel().selected_index, 0);
}

#[test]
fn test_app_cursor_to_start_end() {
    let names: Vec<String> = (0..10).map(|i| format!("file{}.txt", i)).collect();
    let names: Vec<&str> = names.iter().map(|name| name.as_str()).collect();
    let mut app = listed_app("/tmp/work", &names);

    app.cursor_to_end();
    let len = app.active_panel().files.len();
    assert_eq!(app.active_panel().selected_index, len - 1);

    app.cursor_to_start();
    assert_eq!(app.active_panel().selected_index, 0);
}

#[test]
fn test_app_show_message() {
    let mut app = app_on("/tmp/work");

    assert!(app.message.is_none());

    app.show_message("Test message");
    assert_eq!(app.message, Some("Test message".to_string()));
    assert!(app.message_timer > 0);
}

#[test]
fn test_execute_open_large_file_uses_viewer() {
    let mut app = app_on("/tmp/work");
    app.pending_large_file = Some("/tmp/work/large.txt".to_string());

    let path = app.execute_open_large_file();
    assert_eq!(path.as_deref(), Some("/tmp/work/large.txt"));
    app.viewer_loaded(Ok(()));

    assert_eq!(app.current_screen, Screen::FileViewer);
    assert!(app.editor_state.is_none());
}

#[test]
fn test_file_operation_disconnected_cancel_reports_cancelled() {
    let mut progress = FileOperationProgress::new(FileOperationType::Copy);
    progress.is_active = true;

    assert!(!progress.poll(Vec::new(), true, true));

    let result = progress.result.unwrap();
    assert_eq!(result.failure_count, 1);
    assert_eq!(result.last_error.as_deref(), Some("Cancelled"));
}

#[test]
fn test_file_operation_disconnected_without_completion_reports_protocol_error() {
    let mut progress = FileOperationProgress::new(FileOperationType::Copy);
    progress.is_active = true;
    let messages = vec![ProgressMessage::TotalProgress(3, 5, 123, 456)];

    assert!(!progress.poll(messages, true, false));

    let result = progress.result.unwrap();
    assert_eq!(result.success_count, 0);
    assert_eq!(result.failure_count, 1);
    assert_eq!(
        result.last_error.as_deref(),
        Some("Operation worker exited without a completion message")
    );
}

#[test]
fn test_process_error_message_preserves_all_available_lines() {
    let stdout_errors = vec![
        "tar: first stdout error".to_string(),
        "tar: second stdout error".to_string(),
    ];

    let message = process_error_message(
        Some("stderr line 1\nstderr line 2\n"),
        &stdout_errors,
        "fallback",
    );

    assert_eq!(
        message,
        "stderr line 1\nstderr line 2\ntar: first stdout error\ntar: second stdout error"
    );
    assert_eq!(process_error_message(Some("\n"), &Vec::new(), "fallback"), "fallback");
}

#[test]
fn archive_entry_validation_rejects_paths_outside_the_extract_root() {
    for unsafe_path in [
        b"/etc/passwd".as_slice(),
        b"../escape",
        b"safe/../../escape",
        br"C:\Windows\system.ini",
        br"\\server\share\file",
    ] {
        assert!(validate_archive_entry_path(&unsafe_path.to_vec()).is_err());
    }
    assert!(validate_archive_entry_path(&b"./safe/directory/file.txt".to_vec()).is_ok());
}

#[test]
fn extraction_options_never_preserve_archived_permissions() {
    for archive in ["a.tar", "a.tar.gz", "a.tgz", "a.tar.bz2", "a.tar.xz"] {
        assert!(!tar_extraction_options(archive).contains('p'));
    }
}

#[test]
fn archive_listing_line_reader_rejects_unbounded_names() {
    let input = vec![b'a'; 33];
    let mut line = Vec::new();

    let step = read_bounded_line(&mut line, true, &input, 32);

    assert_eq!(step, LineStep::TooLong);
    assert!(line.len() <= 32);
}

#[test]
fn tar_error_capture_keeps_only_a_bounded_tail() {
    let input = vec![b'x'; MAX_TAR_ERROR_TAIL_BYTES + 100];
    let tail = read_bounded_tail(&vec![input], MAX_TAR_ERROR_TAIL_BYTES);
    assert_eq!(tail.len(), MAX_TAR_ERROR_TAIL_BYTES);
}

#[test]
fn test_app_toggle_selection() {
    let mut app = listed_app("/tmp/work", &["file1.txt", "file2.txt"]);
    past_parent(&mut app);

    let file_name = app.active_panel().current_file().unwrap().name.clone();

    app.toggle_selection();
    assert!(app.active_panel().selected_files.contains(&file_name));

    app.move_cursor(-1);
    app.toggle_selection();
    assert!(!app.active_panel().selected_files.contains(&file_name));
}

#[test]
fn test_app_get_operation_files() {
    let mut app = listed_app("/tmp/work", &["file1.txt", "file2.txt"]);
    past_parent(&mut app);

    let files = app.get_operation_files();
    assert_eq!(files.len(), 1);

    app.toggle_selection();
    let files = app.get_operation_files();
    assert_eq!(files.len(), 1);
}

#[test]
fn test_panel_index_equality() {
    let idx_a: usize = 0;
    let idx_b: usize = 1;
    assert_eq!(idx_a, 0);
    assert_eq!(idx_b, 1);
    assert_ne!(idx_a, idx_b);
}

#[test]
fn test_sort_by_equality() {
    assert_eq!(SortBy::Name, SortBy::Name);
    assert_eq!(SortBy::Size, SortBy::Size);
    assert_eq!(SortBy::Modified, SortBy::Modified);
}

#[test]
fn test_screen_equality() {
    assert_eq!(Screen::FilePanel, Screen::FilePanel);
    assert_eq!(Screen::FileViewer, Screen::FileViewer);
    assert_ne!(Screen::FilePanel, Screen::Help);
}

#[test]
fn test_dialog_type_equality() {
    assert_eq!(DialogType::Delete, DialogType::Delete);
    assert_ne!(DialogType::Delete, DialogType::Mkdir);
}

#[test]
fn encrypt_dialog_enables_integrity_verification_by_default() {
    let mut app = app_on("/tmp/work");

    app.show_encrypt_dialog(&vec!["plain.txt".to_string()]);

    let dialog = app.dialog.as_ref().expect("encrypt dialog");
    assert_eq!(dialog.dialog_type, DialogType::EncryptConfirm);
    assert!(dialog.use_md5);
}

#[test]
fn test_clipboard_copy() {
    let mut app = listed_app("/tmp/work", &["file1.txt"]);
    past_parent(&mut app);
    app.clipboard_copy(Ok(directory_seen("/tmp/work")), &vec![Ok(seen(9))]);

    assert!(app.clipboard.is_some());
    let clipboard = app.clipboard.as_ref().unwrap();
    assert_eq!(clipboard.operation, ClipboardOperation::Copy);
    assert_eq!(clipboard.files.len(), 1);
    assert_eq!(clipboard.source_path, "/tmp/work");
}

#[test]
fn test_clipboard_cut() {
    let mut app = listed_app("/tmp/work", &["file1.txt"]);
    past_parent(&mut app);
    app.clipboard_cut(Ok(directory_seen("/tmp/work")), &vec![Ok(seen(9))]);

    assert!(app.clipboard.is_some());
    let clipboard = app.clipboard.as_ref().unwrap();
    assert_eq!(clipboard.operation, ClipboardOperation::Cut);
    assert_eq!(clipboard.files.len(), 1);
}

#[test]
fn local_clipboard_map_uses_the_resolved_symlinked_source_directory() {
    let captured = sources(&["item"], "/tmp/work/real-src");
    let clipboard = Clipboard {
        files: vec!["item".to_string()],
        source_path: "/tmp/work/source-alias".to_string(),
        operation: ClipboardOperation::Copy,
        source_remote_profile: None,
        source_authorizations: captured.items,
        source_directory_authorization: captured.directory,
    };

    let keyed = local_clipboard_authorization_map(&clipboard);

    assert!(keyed.iter().any(|entry| entry.path == "/tmp/work/real-src/item"));
    assert!(!keyed.iter().any(|entry| entry.path == "/tmp/work/source-alias/item"));
}

#[test]
fn applying_loaded_settings_replaces_the_complete_snapshot() {
    let mut app = app_on("/tmp/work");
    let mut loaded = settings();
    loaded.bookmarked_path = vec!["/persisted/bookmark".to_string()];
    loaded.telegram_polling_time = 9_000;
    loaded.diff_compare_method = "modified_time".to_string();
    loaded.cross_volume_move_verification = CrossVolumeMoveVerification::Strict;

    app.apply_loaded_settings(loaded, no_theme_file());

    assert_eq!(app.settings.bookmarked_path, ["/persisted/bookmark"]);
    assert_eq!(app.settings.telegram_polling_time, 9_000);
    assert_eq!(app.settings.diff_compare_method, "modified_time");
    assert_eq!(
        app.settings.cross_volume_move_verification,
        CrossVolumeMoveVerification::Strict
    );
}

#[test]
fn settings_state_previews_cross_volume_verification_without_mutating_settings() {
    let mut settings = settings();
    settings.cross_volume_move_verification = CrossVolumeMoveVerification::Strict;

    let mut state = SettingsState::new(&settings, &Vec::new());
    assert_eq!(state.current_move_verification(), "Strict");
    assert_eq!(
        move_verification_policy(settings.cross_volume_move_verification),
        MoveVerification::Strict
    );
    state.toggle_move_verification();

    assert_eq!(state.current_move_verification(), "Standard");
    assert_eq!(
        settings.cross_volume_move_verification,
        CrossVolumeMoveVerification::Strict
    );
}

#[test]
fn file_progress_tracks_post_copy_phase_messages() {
    let mut progress = FileOperationProgress::new(FileOperationType::Move);
    progress.is_active = true;
    let messages = vec![ProgressMessage::Phase(FileOperationPhase::Finalizing)];

    assert!(progress.poll(messages, false, false));
    assert_eq!(progress.phase, FileOperationPhase::Finalizing);
}

#[test]
fn failed_async_cut_restores_clipboard_for_retry() {
    let mut app = app_on("/tmp/work");
    app.pending_cut_clipboard = Some(cut_clipboard(&["file.txt"], "/tmp/work"));

    app.finish_pending_cut_operation(false, &vec![true]);

    let restored = app.clipboard.as_ref().expect("cut clipboard restored");
    assert_eq!(restored.files, ["file.txt"]);
    assert_eq!(restored.operation, ClipboardOperation::Cut);
    assert!(app.pending_cut_clipboard.is_none());
}

#[test]
fn partially_completed_local_cut_restores_only_sources_that_remain() {
    let mut app = app_on("/tmp/work");
    app.pending_cut_clipboard = Some(cut_clipboard(&["moved.txt", "remaining.txt"], "/tmp/work"));

    app.finish_pending_cut_operation(false, &vec![false, true]);

    assert_eq!(app.clipboard.as_ref().unwrap().files, ["remaining.txt".to_string()]);
}

#[test]
fn retry_unsafe_cut_item_is_not_restored_even_when_source_name_exists() {
    let mut app = app_on("/tmp/work");
    app.pending_cut_clipboard = Some(cut_clipboard(&["uncertain.txt"], "/tmp/work"));
    let mut progress = FileOperationProgress::new(FileOperationType::Move);
    progress.terminal_item_names.insert("uncertain.txt".to_string());
    app.file_operation_progress = Some(progress);

    app.finish_pending_cut_operation(false, &vec![true]);

    assert!(app.clipboard.is_none());
    assert!(app.pending_cut_clipboard.is_none());
}

#[test]
fn successful_async_cut_consumes_pending_clipboard() {
    let mut app = app_on("/tmp/work");
    app.pending_cut_clipboard = Some(cut_clipboard(&["file.txt"], "/tmp/work"));

    app.finish_pending_cut_operation(true, &vec![false]);

    assert!(app.clipboard.is_none());
    assert!(app.pending_cut_clipboard.is_none());
}

#[test]
fn successful_cut_retains_items_skipped_during_conflict_resolution() {
    let mut app = app_on("/tmp/work");
    app.pending_cut_clipboard = Some(cut_clipboard(&["moved.txt", "skipped.txt"], "/tmp/work"));
    let mut progress = FileOperationProgress::new(FileOperationType::Move);
    progress.skipped_cut_item_names.insert("skipped.txt".to_string());
    app.file_operation_progress = Some(progress);

    app.finish_pending_cut_operation(true, &vec![false, true]);

    assert_eq!(app.clipboard.as_ref().unwrap().files, ["skipped.txt".to_string()]);
    assert!(app.pending_cut_clipboard.is_none());
}

#[test]
fn test_clipboard_empty_rejected() {
    let mut app = app_on("/tmp/work");

    assert!(app.clipboard.is_none());

    assert!(matches!(app.clipboard_paste(), PasteRequest::Done));

    assert!(app.message.is_some());
}

#[test]
fn test_has_clipboard() {
    let mut app = listed_app("/tmp/work", &["file.txt"]);

    assert!(!app.has_clipboard());

    past_parent(&mut app);
    app.clipboard_copy(Ok(directory_seen("/tmp/work")), &vec![Ok(seen(9))]);
    assert!(app.has_clipboard());
}

#[test]
fn test_clipboard_info() {
    let mut app = listed_app("/tmp/work", &["file.txt"]);

    assert!(app.clipboard_info().is_none());

    past_parent(&mut app);
    app.clipboard_copy(Ok(directory_seen("/tmp/work")), &vec![Ok(seen(9))]);
    let info = app.clipboard_info();
    assert!(info.is_some());
    let (count, op) = info.unwrap();
    assert_eq!(count, 1);
    assert_eq!(op, "copy");
}

#[test]
fn test_clipboard_operation_equality() {
    assert_eq!(ClipboardOperation::Copy, ClipboardOperation::Copy);
    assert_eq!(ClipboardOperation::Cut, ClipboardOperation::Cut);
    assert_ne!(ClipboardOperation::Copy, ClipboardOperation::Cut);
}
