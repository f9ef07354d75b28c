use cokacdir::app_state::App;
use cokacdir::archive_lines::{listing_result, tar_child_name, tar_name, ArchiveListing, TarSizes};
use cokacdir::archive_ops::TarStart;
use cokacdir::archive_run::{build_tar_args, unbuffered_args};
use cokacdir::authorization::{
    DirectoryAuthorization, DirectoryIdentity, PathAuthorization, TreeAuthorization,
};
use cokacdir::creation::{remote_made, CreateError, CreateStart, RenameStart};
use cokacdir::deletion::{brief_file_list, remote_children, DeleteStart};
use cokacdir::dialogs::{ClipboardOperation, Dialog, DialogType, Screen};
use cokacdir::diff_types::FileTime;
use cokacdir::dup_run::{CopyOutcome, DupEntry, DupRun};
use cokacdir::handler::{background_result, BackgroundOutcome};
use cokacdir::names::NameSet;
use cokacdir::navigation::Places;
use cokacdir::panel::{ConnectionStatus, FileItem, RemoteContext, RemoteEndpoint};
use cokacdir::paste::{
    DestinationFact, PasteFacts, PasteLocal, PasteRequest, PasteResolution, SourceFact,
    TransferDirection,
};
use cokacdir::progress::{FileOperationType, ProgressMessage};
use cokacdir::remote_connect::{RemoteAuth, RemoteProfile};
use cokacdir::settings::{CrossVolumeMoveVerification, Settings};
use cokacdir::settings_flow::ThemeFile;
use cokacdir::spinner::PanelOpOutcome;
use cokacdir::untar_run::{UntarAction, UntarRun};

const NOW: FileTime = FileTime { secs: 1_700_000_000, nanos: 0 };

fn places(readable: &[&str]) -> Places {
    let mut set = NameSet::new();
    for path in readable {
        set.insert(path.to_string());
    }
    Places { home: "/home".to_string(), root: "/".to_string(), readable: set }
}

fn settings() -> Settings {
    Settings {
        panels: Vec::new(),
        active_panel_index: 0,
        theme_name: "light".to_string(),
        diff_compare_method: "content".to_string(),
        cross_volume_move_verification: CrossVolumeMoveVerification::Standard,
        bookmarked_path: Vec::new(),
        tar_path: None,
        remote_profiles: Vec::new(),
        extension_handlers: Vec::new(),
        telegram_polling_time: 2_500,
        encrypt_split_size: 1_800,
    }
}

fn profile() -> RemoteProfile {
    RemoteProfile {
        name: "box".to_string(),
        host: "example.org".to_string(),
        port: 22,
        user: "kim".to_string(),
        auth: RemoteAuth::Password { password: "SECRET-REDACTED".to_string() },
        default_path: "/".to_string(),
    }
}

fn item(name: &str, is_directory: bool) -> FileItem {
    FileItem {
        name: name.to_string(),
        display_name: None,
        is_directory,
        is_symlink: false,
        size: 7,
        modified: NOW,
        permissions: String::new(),
    }
}

fn app_with(path: &str, names: &[&str]) -> App {
    let mut app = App::new(
        path,
        "/other",
        &places(&[path, "/other"]),
        settings(),
        ThemeFile { path: None, modified: None },
    );
    app.panels[0].files = names.iter().map(|name| item(name, *name == "..")).collect();
    app
}

fn make_remote(app: &mut App) {
    app.panels[0].remote_ctx =
        Some(RemoteContext { profile: profile(), status: ConnectionStatus::Connected });
    app.panels[0].remote_display = Some(RemoteEndpoint {
        user: "kim".to_string(),
        host: "example.org".to_string(),
        port: 22,
    });
}

fn directory(path: &str) -> DirectoryAuthorization {
    DirectoryAuthorization { resolved_path: path.to_string(), device: 1, inode: 9 }
}

fn seen(inode: u64) -> PathAuthorization {
    PathAuthorization { device: 1, inode, stamp: 3, directory: false }
}

fn texts(list: &[&str]) -> Vec<String> {
    list.iter().map(|text| text.to_string()).collect()
}

fn message(app: &App) -> &str {
    app.message.as_deref().unwrap_or("")
}

fn dialog(app: &App) -> &Dialog {
    app.dialog.as_ref().unwrap()
}

#[test]
fn a_directory_is_made_only_inside_the_panel() {
    let mut app = app_with("/d", &[".."]);
    let start = app.execute_mkdir("x", Err("bad name".to_string()));
    assert!(matches!(start, CreateStart::Refused));
    assert_eq!(message(&app), "Error: bad name");
    let start = app.execute_mkdir("x", Ok(()));
    assert!(matches!(start, CreateStart::Local { path } if path == "/d/x"));
    assert!(app.mkdir_allowed(Some("/d"), Some("/d/x")));
    assert!(app.mkdir_allowed(None, Some("/elsewhere/x")));
    assert!(!app.mkdir_allowed(Some("/d"), Some("/dx")));
    assert_eq!(message(&app), "Error: Path traversal attempt detected");
    assert!(app.mkdir_done("x", Ok(())).is_none());
    assert_eq!(message(&app), "Created directory: x");
    assert_eq!(app.panels[0].pending_focus.as_deref(), Some("x"));
    app.mkdir_done("y", Err("denied".to_string()));
    assert_eq!(message(&app), "Error: denied");
}

#[test]
fn a_file_that_is_there_is_not_made() {
    let mut app = app_with("/d", &[".."]);
    let (edit, _) = app.mkfile_done("a.txt", Err(CreateError::AlreadyExists));
    assert!(!edit);
    assert_eq!(message(&app), "'a.txt' already exists!");
    let (edit, _) = app.mkfile_done("a.txt", Err(CreateError::Other("denied".to_string())));
    assert!(!edit);
    assert_eq!(message(&app), "Error: denied");
    app.new_file_loaded(Err("denied".to_string()));
    assert_eq!(app.message.as_deref(), Some("File created but cannot open: denied"));
    let (edit, _) = app.mkfile_done("a.txt", Ok(()));
    assert!(edit);
    assert_eq!(app.panels[0].pending_focus.as_deref(), Some("a.txt"));
}

#[test]
fn a_remote_file_is_made_by_its_session() {
    let mut app = app_with("/srv", &[".."]);
    make_remote(&mut app);
    assert!(matches!(app.execute_mkfile("a/b", Ok(())), CreateStart::Refused));
    assert_eq!(message(&app), "Remote entry has an unsafe or ambiguous name");
    match app.execute_mkfile("a.txt", Ok(())) {
        CreateStart::Remote { panel_idx, remote_path, .. } => {
            assert_eq!((panel_idx, remote_path.as_str()), (0, "/srv/a.txt"));
        }
        other => panic!("got: {other:?}"),
    }
    assert_eq!(app.remote_spinner.as_ref().unwrap().message, "Creating file...");
    assert!(matches!(app.execute_mkdir("sub", Ok(())), CreateStart::Refused));
    match remote_made("Created file: ", "a.txt", Ok(())) {
        PanelOpOutcome::Simple { message, pending_focus, reload } => {
            assert_eq!(message.unwrap(), "Created file: a.txt");
            assert_eq!(pending_focus.as_deref(), Some("a.txt"));
            assert!(reload);
        }
        other => panic!("got: {other:?}"),
    }
}

#[test]
fn a_renaming_goes_by_what_was_seen() {
    let mut app = app_with("/d", &["..", "a.txt"]);
    app.show_rename_dialog(Ok(directory("/d")), Ok(seen(4)));
    assert_eq!(message(&app), "Select a file to rename");
    app.panels[0].selected_index = 1;
    app.show_rename_dialog(Ok(directory("/d")), Err("gone".to_string()));
    assert_eq!(message(&app), "Rename source changed before the dialog opened: gone");
    assert!(app.pending_rename_operation.is_none());
    app.show_rename_dialog(Ok(directory("/real")), Ok(seen(4)));
    assert_eq!(dialog(&app).input, "a.txt");
    assert_eq!(dialog(&app).selection, Some((0, 1)));
    match app.execute_rename("b.txt", Ok(())) {
        RenameStart::Local { old_path, new_path, source, .. } => {
            assert_eq!((old_path.as_str(), new_path.as_str()), ("/real/a.txt", "/real/b.txt"));
            assert_eq!(source, seen(4));
        }
        other => panic!("got: {other:?}"),
    }
    assert!(matches!(app.execute_rename("b.txt", Ok(())), RenameStart::Nothing));
    assert_eq!(message(&app), "Rename confirmation expired; select the item again");
    app.rename_done(0, "b.txt", Ok(Vec::new()));
    assert_eq!(message(&app), "Renamed to: b.txt");
    app.rename_done(0, "b.txt", Ok(texts(&["one", "two"])));
    assert_eq!(message(&app), "Renamed to: b.txt. Warning: one; two");
    app.rename_done(0, "b.txt", Err("taken".to_string()));
    assert_eq!(message(&app), "Rename failed: taken");
    app.show_rename_dialog(Ok(directory("/real")), Ok(seen(4)));
    app.cancel_pending_rename();
    assert!(app.pending_rename_operation.is_none());
}

#[test]
fn a_deletion_is_confirmed_for_what_was_seen() {
    assert_eq!(brief_file_list(&texts(&["a", "b", "c"])), "a, b, c");
    assert_eq!(brief_file_list(&texts(&["a", "b", "c", "d"])), "a, b and 2 more");
    let mut app = app_with("/d", &["..", "a", "b"]);
    app.show_delete_dialog(None, Ok(directory("/d")), &Vec::new());
    assert_eq!(message(&app), "No files selected");
    mark(&mut app, &["a", "b"]);
    app.show_delete_dialog(None, Ok(directory("/d")), &vec![Ok(seen(1)), Err("x".to_string())]);
    assert_eq!(message(&app), "Selection changed before deletion confirmation: x");
    app.show_delete_dialog(None, Ok(directory("/d")), &vec![Ok(seen(1)), Ok(seen(2))]);
    assert_eq!(dialog(&app).message, "Delete a, b?");
    assert_eq!(dialog(&app).selected_button, 1);
    match app.execute_delete() {
        DeleteStart::Local { entries, .. } => {
            let paths: Vec<&str> = entries.iter().map(|entry| entry.path.as_str()).collect();
            assert_eq!(paths, ["/d/a", "/d/b"]);
            assert_eq!(entries[1].authorization, seen(2));
        }
        other => panic!("got: {other:?}"),
    }
    assert_eq!(app.remote_spinner.as_ref().unwrap().message, "Deleting...");
    app.remote_spinner = None;
    assert!(matches!(app.execute_delete(), DeleteStart::Nothing));
    assert_eq!(message(&app), "Delete confirmation expired; select the item again");
    app.show_delete_dialog(None, Ok(directory("/d")), &vec![Ok(seen(1)), Ok(seen(2))]);
    app.cancel_pending_delete();
    assert!(app.pending_delete_operation.is_none());
}

#[test]
fn a_remote_deletion_takes_the_session() {
    assert_eq!(remote_children("/srv/", &texts(&["a"])), Ok(texts(&["/srv/a"])));
    assert_eq!(
        remote_children("/srv", &texts(&["a", ".."])),
        Err("Remote entry has an unsafe or ambiguous name".to_string())
    );
    let mut app = app_with("/srv", &["..", "a"]);
    make_remote(&mut app);
    app.panels[0].selected_index = 1;
    app.show_delete_dialog(None, Err(String::new()), &Vec::new());
    match app.execute_delete() {
        DeleteStart::Remote { paths, panel_index, .. } => {
            assert_eq!((paths, panel_index), (texts(&["/srv/a"]), 0));
        }
        other => panic!("got: {other:?}"),
    }
    assert!(app.panels[0].remote_ctx.is_none());
}

#[test]
fn the_image_on_the_screen_can_be_deleted() {
    let mut app = app_with("/d", &["..", "a.png"]);
    app.current_screen = Screen::ImageViewer;
    app.image_viewer_open = true;
    app.show_delete_dialog(None, Err(String::new()), &Vec::new());
    assert_eq!(message(&app), "No image is open");
    app.show_delete_dialog(Some("/d/a.png"), Ok(directory("/d")), &vec![Ok(seen(1))]);
    match app.execute_delete() {
        DeleteStart::Image { path, source, .. } => {
            assert_eq!((path.as_str(), source), ("/d/a.png", seen(1)));
        }
        other => panic!("got: {other:?}"),
    }
    app.image_deleted(Err("denied".to_string()));
    assert_eq!(message(&app), "Delete failed: denied");
    assert_eq!(app.current_screen, Screen::ImageViewer);
    app.image_deleted(Ok(texts(&["left over"])));
    assert_eq!(message(&app), "Deleted image. Warning: left over");
    assert_eq!(app.current_screen, Screen::FilePanel);
}

fn mark(app: &mut App, names: &[&str]) {
    for name in names {
        app.panels[0].selected_files.insert(name.to_string());
    }
}

/// Puts files of another directory of this machine on the clipboard.
fn fill_clipboard(app: &mut App, names: &[&str], cut: bool) {
    let items = (0..names.len()).map(|i| Ok(seen(i as u64 + 1))).collect();
    let session = app.panels[0].remote_ctx.take();
    mark(app, names);
    if cut {
        app.clipboard_cut(Ok(directory("/src")), &items);
    } else {
        app.clipboard_copy(Ok(directory("/src")), &items);
    }
    app.panels[0].selected_files = NameSet::new();
    app.panels[0].remote_ctx = session;
}

fn paste_facts(directories: &[bool]) -> PasteFacts {
    PasteFacts {
        source_canonical: Some("/src".to_string()),
        target_canonical: Some("/d".to_string()),
        source_exists: true,
        target_is_dir: true,
        files: directories
            .iter()
            .enumerate()
            .map(|(i, is_dir)| SourceFact {
                canonical: Some(format!("/src/f{i}")),
                is_dir: *is_dir,
            })
            .collect(),
    }
}

#[test]
fn a_paste_without_conflicts_begins() {
    let mut app = app_with("/d", &[".."]);
    assert!(matches!(app.clipboard_paste(), PasteRequest::Done));
    assert_eq!(message(&app), "Clipboard is empty");
    fill_clipboard(&mut app, &["f0"], true);
    assert_eq!(message(&app), "1 file(s) cut to clipboard");
    assert!(matches!(
        app.clipboard_paste(),
        PasteRequest::AskLocal { source_path, target_path }
            if source_path == "/src" && target_path == "/d"
    ));
    let valid = match app.paste_local(&paste_facts(&[false])) {
        PasteLocal::Checked(valid) => valid,
        other => panic!("got: {other:?}"),
    };
    let job = app
        .paste_checked(valid, Ok(directory("/d")), &vec![DestinationFact::Free])
        .unwrap();
    assert_eq!(job.operation, ClipboardOperation::Cut);
    assert_eq!(job.files, ["f0"]);
    assert_eq!((job.source_path.as_str(), job.target_path.as_str()), ("/src", "/d"));
    assert_eq!(job.sources[0].path, "/src/f0");
    assert!(app.clipboard.is_none());
    assert!(app.pending_cut_clipboard.is_some());
    let progress = app.file_operation_progress.as_ref().unwrap();
    assert_eq!(progress.operation_type, FileOperationType::Move);
    assert!(progress.is_active);
    assert_eq!(dialog(&app).dialog_type, DialogType::Progress);
    assert_eq!(app.pending_paste_focus, Some(texts(&["f0"])));
}

#[test]
fn a_paste_is_refused_where_it_cannot_be_done() {
    let mut app = app_with("/d", &[".."]);
    fill_clipboard(&mut app, &["f0", "f1"], true);
    let same = PasteFacts { target_canonical: Some("/src".to_string()), ..paste_facts(&[false, false]) };
    assert!(matches!(app.paste_local(&same), PasteLocal::Refused));
    assert_eq!(message(&app), "Cannot move files to the same folder");
    let no_target = PasteFacts { target_is_dir: false, ..paste_facts(&[false, false]) };
    assert!(matches!(app.paste_local(&no_target), PasteLocal::Refused));
    assert_eq!(message(&app), "Target is not a valid directory");
    let inside = PasteFacts {
        target_canonical: Some("/src/f1/deep".to_string()),
        ..paste_facts(&[false, true])
    };
    match app.paste_local(&inside) {
        PasteLocal::Checked(valid) => assert_eq!(valid, ["f0"]),
        other => panic!("got: {other:?}"),
    }
    assert_eq!(message(&app), "Cannot copy 'f1' into itself");
    assert!(app.paste_checked(texts(&["f0"]), Err("gone".to_string()), &Vec::new()).is_none());
    assert_eq!(message(&app), "Paste target changed before confirmation: gone");
    let failed = vec![DestinationFact::Failed("denied".to_string())];
    assert!(app.paste_checked(texts(&["f0"]), Ok(directory("/d")), &failed).is_none());
    assert_eq!(message(&app), "Could not safely inspect paste conflicts: denied");
    let no_source = PasteFacts { source_exists: false, ..paste_facts(&[false, false]) };
    assert!(matches!(app.paste_local(&no_source), PasteLocal::Refused));
    assert_eq!(message(&app), "Source folder no longer exists");
    assert!(app.clipboard.is_none());
}

#[test]
fn conflicts_are_asked_about_and_answered() {
    let mut app = app_with("/d", &[".."]);
    fill_clipboard(&mut app, &["f0", "f1"], false);
    let destinations = vec![DestinationFact::Taken(seen(70)), DestinationFact::Free];
    assert!(app
        .paste_checked(texts(&["f0", "f1"]), Ok(directory("/d")), &destinations)
        .is_none());
    assert_eq!(dialog(&app).dialog_type, DialogType::DuplicateConflict);
    let state = app.conflict_state.as_mut().unwrap();
    assert_eq!(state.conflicts.len(), 1);
    assert_eq!(state.conflicts[0].name, "f0");
    assert_eq!(state.conflicts[0].destination, "/d/f0");
    state.files_to_skip.push("/src/f0".to_string());
    match app.execute_paste_with_conflicts() {
        PasteResolution::Start(job) => {
            assert_eq!(job.files, ["f0", "f1"]);
            assert_eq!(job.skip, ["/src/f0"]);
            assert!(job.overwrite.is_empty());
        }
        other => panic!("got: {other:?}"),
    }
    assert_eq!(app.pending_paste_focus, Some(texts(&["f1"])));
    assert!(app.clipboard.is_some());

    let destinations = vec![DestinationFact::Taken(seen(70))];
    assert!(app.paste_checked(texts(&["f0"]), Ok(directory("/d")), &destinations).is_none());
    let state = app.conflict_state.as_mut().unwrap();
    state.files_to_skip.push("/src/f0".to_string());
    assert!(matches!(app.execute_paste_with_conflicts(), PasteResolution::AllSkipped));
    assert_eq!(message(&app), "All files skipped");
    assert!(matches!(app.execute_paste_with_conflicts(), PasteResolution::Nothing));
}

#[test]
fn a_paste_with_a_remote_machine_is_a_transfer() {
    let mut app = app_with("/srv", &[".."]);
    make_remote(&mut app);
    fill_clipboard(&mut app, &["f0"], false);
    app.clipboard.as_mut().unwrap().source_remote_profile = None;
    match app.clipboard_paste() {
        PasteRequest::Transfer(job) => {
            assert_eq!(job.direction, TransferDirection::LocalToRemote);
            assert_eq!(job.target_path, "/srv");
        }
        other => panic!("got: {other:?}"),
    }
    app.clipboard.as_mut().unwrap().source_remote_profile = Some(profile());
    assert!(matches!(app.clipboard_paste(), PasteRequest::Relay(_)));
    app.clipboard.as_mut().unwrap().operation = ClipboardOperation::Cut;
    assert!(matches!(app.clipboard_paste(), PasteRequest::Done));
    assert!(message(&app).starts_with("Cut involving a remote panel is disabled"));
    app.panels[0].remote_ctx = None;
    app.panels[0].remote_display = None;
    app.clipboard.as_mut().unwrap().operation = ClipboardOperation::Copy;
    assert!(matches!(app.clipboard_paste(), PasteRequest::AskTarget(path) if path == "/srv"));
    assert!(app.paste_download(Err("gone".to_string())).is_none());
    assert_eq!(message(&app), "Paste target changed before transfer start: gone");
    let job = app.paste_download(Ok(directory("/srv"))).unwrap();
    assert_eq!(job.direction, TransferDirection::RemoteToLocal);
}

#[test]
fn a_paste_into_the_same_directory_makes_copies() {
    let mut app = app_with("/src", &[".."]);
    fill_clipboard(&mut app, &["a.txt", "gone"], false);
    assert!(matches!(
        app.paste_local(&PasteFacts {
            target_canonical: Some("/src".to_string()),
            ..paste_facts(&[false, false])
        }),
        PasteLocal::SameFolder
    ));
    let mut taken = NameSet::new();
    taken.insert("a.txt".to_string());
    taken.insert("a_dup.txt".to_string());
    assert!(app.execute_same_folder_paste(&vec![false, false], &taken, 5).is_none());
    assert_eq!(message(&app), "No valid files to duplicate");
    let run = app.execute_same_folder_paste(&vec![true, false], &taken, 5).unwrap();
    assert_eq!(run.entries.len(), 1);
    assert_eq!(run.entries[0].dup_name, "a_dup2.txt");
    assert_eq!(app.pending_paste_focus, Some(texts(&["a_dup2.txt"])));
    assert!(app.clipboard.is_some());
}

fn dup_entry(name: &str) -> DupEntry {
    DupEntry {
        name: name.to_string(),
        dup_name: format!("{name}_dup"),
        authorization: Some(seen(1)),
    }
}

#[test]
fn copies_are_made_one_by_one() {
    let mut run = DupRun::start(vec![dup_entry("a"), dup_entry("b"), dup_entry("c")], true);
    let told = run.directory_checked(Ok(()));
    assert!(matches!(&told[0], ProgressMessage::Preparing(text) if text == "Calculating file sizes..."));
    run.measured(Ok((30, 3)));
    let (_, at) = run.step(false, Ok(()), false);
    assert_eq!(at, Some(0));
    let told = run.copied(CopyOutcome::File { size: 10, warnings: texts(&["w"]) });
    assert!(matches!(&told[0], ProgressMessage::Warning(name, text) if name == "a" && text == "w"));
    assert!(matches!(&told[1], ProgressMessage::FileCompleted(name) if name == "a"));
    let (told, at) = run.step(false, Ok(()), true);
    assert_eq!(at, None);
    assert!(matches!(
        &told[0],
        ProgressMessage::Error(name, text) if name == "b" && text == "destination already exists"
    ));
    let (told, at) = run.step(false, Err("another directory".to_string()), false);
    assert_eq!(at, None);
    assert!(matches!(told[1], ProgressMessage::Completed(1, 2)));
    assert!(run.ended);

    let mut run = DupRun::start(vec![dup_entry("a")], false);
    run.step(false, Ok(()), false);
    let told = run.copied(CopyOutcome::Interrupted);
    assert!(matches!(&told[0], ProgressMessage::Error(name, text) if name.is_empty() && text == "Cancelled"));
    assert!(matches!(told[1], ProgressMessage::Completed(0, 1)));

    let mut run = DupRun::start(vec![dup_entry("a"), dup_entry("b")], false);
    let told = run.measured(Err("no room".to_string()));
    assert!(matches!(told[1], ProgressMessage::Completed(0, 2)));
    assert!(run.ended);
}

#[test]
fn an_archive_is_refused_asked_about_or_made() {
    let mut app = app_with("/d", &["..", "a"]);
    let files = texts(&["a"]);
    let fine = vec![Ok(())];
    let refused = |start: TarStart| assert!(matches!(start, TarStart::Refused));
    refused(app.execute_tar("x.tar", Err("bad".to_string()), &Vec::new(), false, Vec::new()));
    assert_eq!(message(&app), "Error: bad");
    refused(app.execute_tar("x.tar", Ok(()), &Vec::new(), false, Vec::new()));
    assert_eq!(message(&app), "No files to archive");
    app.panels[0].selected_index = 1;
    let bad = vec![Err("starts with -".to_string())];
    refused(app.execute_tar("x.tar", Ok(()), &bad, false, Vec::new()));
    assert_eq!(message(&app), "Invalid filename 'a': starts with -");
    refused(app.execute_tar("x.tar", Ok(()), &fine, true, Vec::new()));
    assert_eq!(message(&app), "Error: x.tar already exists");
    let start = app.execute_tar("x.tar", Ok(()), &fine, false, texts(&["link"]));
    assert!(matches!(start, TarStart::Asked));
    assert_eq!(dialog(&app).dialog_type, DialogType::TarExcludeConfirm);
    assert_eq!(app.tar_exclude_state.as_ref().unwrap().excluded_paths, ["link"]);
    let start = app.execute_tar("x.tar", Ok(()), &fine, false, Vec::new());
    assert!(matches!(start, TarStart::Go));
    let none = Vec::new();
    assert!(app
        .execute_tar_with_excludes("x.tar", &files, &none, Err("full".to_string()))
        .is_none());
    assert_eq!(message(&app), "Error: cannot create temporary archive: full");
    assert!(app.execute_tar_with_excludes("x.tar", &files, &none, Ok(())).is_some());
    assert_eq!(app.pending_tar_archive.as_deref(), Some("x.tar"));
    make_remote(&mut app);
    refused(app.execute_tar("x.tar", Ok(()), &fine, false, Vec::new()));
    assert_eq!(message(&app), "Archive creation is not supported on remote panels");
}

#[test]
fn the_archiver_gets_its_arguments() {
    let args = build_tar_args("x.tgz", &texts(&["a", "b"]), &texts(&["a/link"]));
    assert_eq!(args, ["cvfpz", "-", "--exclude=./a/link", "./a", "./b"]);
    assert_eq!(
        unbuffered_args("tar", &texts(&["x"]), "-o0", "-e0"),
        ["-o0", "-e0", "tar", "x"]
    );
    assert_eq!(tar_name("a"), "./a");
    assert_eq!(tar_child_name("./a", "b"), "./a/b");
    let mut sizes = TarSizes::new();
    sizes.record("./a".to_string(), true, 4096);
    sizes.record("./a/b".to_string(), false, 10);
    sizes.record("./a/b".to_string(), false, 10);
    assert_eq!((sizes.total, sizes.entries.len()), (20, 2));
    assert_eq!(sizes.size_of("./a"), Some(0));
    assert_eq!(sizes.size_of("./a/b"), Some(10));
    assert_eq!(sizes.size_of("./c"), None);
}

#[test]
fn an_archive_is_unpacked_beside_itself() {
    let mut app = app_with("/d", &["..", "x.tar.gz"]);
    assert!(app.execute_untar("/d/x.tar.gz", false, false).is_none());
    assert_eq!(message(&app), "Archive not found: x.tar.gz");
    assert!(app.execute_untar("/", true, false).is_none());
    assert_eq!(message(&app), "Invalid archive path");
    assert!(app.execute_untar("/d/x.tar.gz", true, true).is_none());
    assert_eq!(message(&app), "Error: x already exists");
    let mut run = app.execute_untar("/d/x.tar.gz", true, false).unwrap();
    assert_eq!(app.pending_extract_dir.as_deref(), Some("x"));
    assert!(matches!(run.begin(false).1, UntarAction::Probe));
    assert!(matches!(run.probed(Some("tar".to_string()), true, true, false).1, UntarAction::List));
    assert!(matches!(run.listed(Ok(2), false).1, UntarAction::CreateDirectory));
    let (told, action) = run.created(Ok(()));
    assert!(matches!(told[1], ProgressMessage::TotalProgress(0, 2, 0, 0)));
    match action {
        UntarAction::Run { program, args } => {
            assert_eq!(program, "stdbuf");
            assert_eq!(
                args,
                [
                    "-oL",
                    "-eL",
                    "tar",
                    "--no-same-owner",
                    "--no-same-permissions",
                    "--no-overwrite-dir",
                    "xvfz",
                    "/d/x.tar.gz"
                ]
            );
        }
        other => panic!("got: {other:?}"),
    }
    assert!(matches!(run.started(Ok(())).1, UntarAction::ReadLine));
    let (told, _) = run.line(Some("f\n"), false);
    assert!(matches!(told[2], ProgressMessage::TotalProgress(1, 2, 0, 0)));
    assert!(matches!(run.line(None, false).1, UntarAction::Wait));
    assert!(matches!(run.waited(Ok(true), None, false).1, UntarAction::Sanitize));
    let (told, action) = run.sanitized(Err("denied".to_string()));
    assert!(matches!(
        &told[0],
        ProgressMessage::Error(name, text)
            if name == "x" && text == "Failed to sanitize extracted permissions: denied"
    ));
    assert!(matches!(action, UntarAction::Stop { kill: false, clean_up: true }));
}

#[test]
fn an_unpacking_ends_where_it_must() {
    let fresh = || UntarRun::start("/d/x.tar".to_string(), "x.tar".to_string(), "x".to_string());
    let text = |told: &Vec<ProgressMessage>| match &told[0] {
        ProgressMessage::Error(_, text) => text.clone(),
        other => panic!("got: {other:?}"),
    };
    let mut run = fresh();
    assert_eq!(text(&run.begin(true).0), "Cancelled");
    let mut run = fresh();
    run.begin(false);
    assert_eq!(text(&run.probed(None, false, false, false).0), "tar command not found");
    let mut run = fresh();
    run.begin(false);
    assert_eq!(
        text(&run.probed(Some("tar".to_string()), false, false, false).0),
        "tar command does not support safe extraction options"
    );
    let mut run = fresh();
    run.begin(false);
    run.probed(Some("tar".to_string()), true, false, false);
    assert_eq!(text(&run.listed(Ok(0), false).0), "Archive appears to be empty or corrupted");
    let mut run = fresh();
    run.begin(false);
    run.probed(Some("tar".to_string()), true, false, false);
    run.listed(Ok(1), false);
    run.created(Ok(()));
    run.started(Ok(()));
    run.line(None, false);
    let (told, action) = run.waited(Ok(false), Some("tar: broken\n"), false);
    assert_eq!(text(&told), "tar: broken");
    assert!(matches!(action, UntarAction::Stop { kill: false, clean_up: true }));
}

#[test]
fn a_listing_is_trusted_only_where_all_names_are_safe() {
    let mut listing = ArchiveListing::new();
    assert_eq!(listing.entry(&b"a/b\r\n".to_vec()), Ok(()));
    assert_eq!(
        listing.entry(&b"../x\n".to_vec()),
        Err("Archive contains a parent-directory path: ../x".to_string())
    );
    assert_eq!(
        listing.entry(&b"C:\\x\n".to_vec()),
        Err("Archive contains an absolute path: C:\\x".to_string())
    );
    assert_eq!(
        listing.entry(&b"\n".to_vec()),
        Err("Archive contains an empty entry name".to_string())
    );
    assert_eq!(listing_result(&listing, false, Ok(()), Ok(true), ""), Ok(1));
    assert_eq!(
        listing_result(&listing, true, Ok(()), Ok(true), ""),
        Err("Cancelled".to_string())
    );
    assert_eq!(
        listing_result(&listing, false, Ok(()), Ok(true), "tar: Removing leading `/'"),
        Err("Archive contains an unsafe absolute or parent-directory path".to_string())
    );
    assert_eq!(
        listing_result(&listing, false, Ok(()), Ok(false), ""),
        Err("Failed to read archive contents".to_string())
    );
    assert_eq!(
        listing_result(&listing, false, Ok(()), Err("lost".to_string()), ""),
        Err("Failed to list archive contents: lost".to_string())
    );
}

#[test]
fn a_background_command_is_judged_after_a_moment() {
    assert_eq!(background_result(BackgroundOutcome::StillRunning, "x"), Ok(true));
    assert_eq!(
        background_result(BackgroundOutcome::NotStarted("missing".to_string()), "x {{FILEPATH}}"),
        Err("Failed to execute 'x {{FILEPATH}}': missing".to_string())
    );
    assert_eq!(
        background_result(BackgroundOutcome::Unknown("lost".to_string()), "x"),
        Err("Failed to check process: lost".to_string())
    );
    assert_eq!(
        background_result(BackgroundOutcome::Ended { success: true, stderr: None }, "x"),
        Ok(true)
    );
    assert!(background_result(
        BackgroundOutcome::Ended { success: false, stderr: Some(" no display \n".to_string()) },
        "x"
    )
    .unwrap_err()
    .contains("no display"));
}

#[test]
fn a_tree_knows_its_directories() {
    let tree = TreeAuthorization {
        directories: vec![DirectoryIdentity { device: 1, inode: 9 }],
        stamp: 4,
    };
    assert!(tree.contains_directory(&directory("/any")));
    assert!(!tree.copy().contains_directory(&DirectoryAuthorization {
        resolved_path: "/any".to_string(),
        device: 2,
        inode: 9,
    }));
    assert!(seen(1).same_object(&PathAuthorization { stamp: 8, ..seen(1) }));
}
