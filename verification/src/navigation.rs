//! Going from directory to directory, and opening what is under the cursor.

use crate::app_state::{says, App, PendingBinaryFile};
use crate::archive_names::{is_archive_file, names_archive};
use crate::dialogs::{dialog_view, Dialog, DialogType, DialogView, Screen};
use crate::names::NameSet;
use crate::panel::{cursor_after_load, law_focus_finds_its_line, FileItem, PanelState};
use crate::paths::{
    extension_of, is_plain_name, join_path, joined_path, law_joined_name_is_found_again,
    law_parent_is_shorter, lemma_last_position, local_name, local_parent, name_extension,
    name_of_path, parent_of_path,
};
use crate::remote_connect::optional_text;
use crate::remote_ops::{begins_listing, ListJob};
use crate::remote_path::{
    child, normalized, normalized_remote_child_path, normalized_remote_path, parent, plain_name,
    remote_parent_path,
};
use crate::text::{
    chars_of, concat3, find_last, last_position, same_text, slice_of, string_of, trim_end,
    trimmed_end,
};
use vstd::prelude::*;

verus! {

/// A file is large from here on.
pub const LARGE_FILE_THRESHOLD: u64 = 52428800;

/// The nearest directory that can be read: the target, one of those above it, the
/// fallback, or the root. `readable` holds the directories that can be read.
pub open spec fn valid_path(
    target: Seq<char>,
    fallback: Seq<char>,
    root: Seq<char>,
    readable: Set<Seq<char>>,
) -> Seq<char>
    decreases target.len(),
{
    if readable.contains(target) {
        target
    } else {
        match local_parent(target) {
            Some(above) => if above.len() < target.len() {
                valid_path(above, fallback, root, readable)
            } else {
                above
            },
            None => if readable.contains(fallback) {
                fallback
            } else {
                root
            },
        }
    }
}

/// The directories of this machine that a panel can stand on.
#[derive(Debug)]
pub struct Places {
    /// The home directory of the user, or the root where there is none.
    pub home: String,
    pub root: String,
    /// The directories that can be read.
    pub readable: NameSet,
}

impl Places {
    /// Where a panel stands that is made for a path.
    pub open spec fn nearest(self, path: Seq<char>) -> Seq<char> {
        valid_path(path, self.home@, self.root@, self.readable@)
    }

    /// Where a panel stands that is made for a path.
    pub fn nearest_to(&self, path: &str) -> (r: String)
        ensures
            r@ == self.nearest(path@),
    {
        get_valid_path(path, self.home.as_str(), self.root.as_str(), &self.readable)
    }
}

/// A path and all that lie above it, from it upward.
pub fn path_candidates(target: &str) -> (r: Vec<String>)
    ensures
        r@.len() > 0,
        r@[0]@ == target@,
        forall|i: int|
            #![trigger r@[i]]
            0 < i < r@.len() ==> local_parent(r@[i - 1]@) == Some(r@[i]@),
        local_parent(r@.last()@) is None,
{
    let mut r: Vec<String> = Vec::new();
    let mut current = target.to_owned();
    r.push(current.clone());
    loop
        invariant
            r@.len() > 0,
            r@[0]@ == target@,
            r@.last()@ == current@,
            forall|i: int|
                #![trigger r@[i]]
                0 < i < r@.len() ==> local_parent(r@[i - 1]@) == Some(r@[i]@),
        ensures
            local_parent(r@.last()@) is None,
        decreases current@.len(),
    {
        match parent_of_path(current.as_str()) {
            None => {
                break;
            },
            Some(above) => {
                proof {
                    law_parent_is_shorter(current@);
                }
                r.push(above.clone());
                current = above;
            },
        }
    }
    r
}

/// The nearest directory that can be read.
pub fn get_valid_path(target: &str, fallback: &str, root: &str, readable: &NameSet) -> (r: String)
    ensures
        r@ == valid_path(target@, fallback@, root@, readable@),
{
    let mut current = target.to_owned();
    loop
        invariant
            valid_path(target@, fallback@, root@, readable@) == valid_path(
                current@,
                fallback@,
                root@,
                readable@,
            ),
        ensures
            !readable@.contains(current@),
            local_parent(current@) is None,
            valid_path(target@, fallback@, root@, readable@) == valid_path(
                current@,
                fallback@,
                root@,
                readable@,
            ),
        decreases current@.len(),
    {
        if readable.contains(current.as_str()) {
            return current;
        }
        match parent_of_path(current.as_str()) {
            None => {
                break;
            },
            Some(above) => {
                proof {
                    law_parent_is_shorter(current@);
                }
                current = above;
            },
        }
    }
    if readable.contains(fallback) {
        fallback.to_owned()
    } else {
        root.to_owned()
    }
}

/// The path that is found can be read, unless nothing can.
pub proof fn law_valid_path_is_readable(
    target: Seq<char>,
    fallback: Seq<char>,
    root: Seq<char>,
    readable: Set<Seq<char>>,
)
    ensures
        readable.contains(valid_path(target, fallback, root, readable)) || (valid_path(
            target,
            fallback,
            root,
            readable,
        ) == root && !readable.contains(fallback)),
    decreases target.len(),
{
    if !readable.contains(target) {
        if let Some(above) = local_parent(target) {
            law_parent_is_shorter(target);
            law_valid_path_is_readable(above, fallback, root, readable);
        }
    }
}

/// What entering a line asks for.
#[derive(Debug)]
pub enum EnterRequest {
    Nothing,
    /// A remote directory is listed.
    List(ListJob),
    /// The panel with the focus is to be read.
    ReadPanel,
    /// A remote image is to be fetched and shown.
    RemoteImage { name: String, size: u64, remote_path: String },
    /// The file under the cursor is to be edited.
    Edit,
    /// A local file is to be opened.
    OpenLocal { path: String, name: String },
}

/// The last component of a remote path, if it has one.
pub open spec fn remote_name(path: Seq<char>) -> Option<Seq<char>> {
    let trimmed = trimmed_end(normalized(path), '/');
    let name = trimmed.skip(last_position(trimmed, '/') + 1);
    if name.len() == 0 {
        None
    } else {
        Some(name)
    }
}

fn name_of_remote(path: &str) -> (r: Option<String>)
    ensures
        optional_text(r) == remote_name(path@),
{
    let full = normalized_remote_path(path);
    let chars = chars_of(full.as_str());
    let trimmed = trim_end(&chars, '/');
    proof {
        lemma_last_position(trimmed@, '/');
    }
    let n: usize = trimmed.len();
    let from: usize = match find_last(&trimmed, '/') {
        Some(at) => at + 1,
        None => 0,
    };
    let name = slice_of(&trimmed, from, n);
    assert(name@ =~= trimmed@.skip(last_position(trimmed@, '/') + 1));
    if name.len() == 0 {
        None
    } else {
        Some(string_of(&name))
    }
}

/// A panel that goes to a local directory: the cursor at the top, the marks taken
/// away.
pub open spec fn goes_to(before: PanelState, after: PanelState, path: Seq<char>) -> bool {
    &&& after == PanelState {
        path: after.path,
        selected_index: 0,
        selected_files: after.selected_files,
        ..before
    }
    &&& after.path@ == path
    &&& after.selected_files@ == Set::<Seq<char>>::empty()
}

/// Whether the panel with the focus, `panel` by now, went to a local directory.
pub open spec fn panel_goes_to(before: App, after: App, panel: PanelState, path: Seq<char>) -> bool {
    let at = before.active_panel_index as int;
    &&& after == App { panels: after.panels, ..before }
    &&& after.panels@ == before.panels@.update(at, after.panels@[at])
    &&& goes_to(panel, after.panels@[at], path)
}

/// A panel that remembers a name for the cursor.
pub open spec fn with_focus(panel: PanelState, after: PanelState, focus: Option<Seq<char>>) -> bool {
    match focus {
        Some(name) => {
            &&& after == PanelState { pending_focus: after.pending_focus, ..panel }
            &&& optional_text(after.pending_focus) == Some(name)
        },
        None => after == panel,
    }
}

/// The panel with the focus, with the name of its directory remembered for the
/// cursor.
pub open spec fn focused(app: App, name: Option<Seq<char>>, panel: PanelState) -> bool {
    with_focus(app.active(), panel, name)
}

/// Whether the panel goes up to the parent of its local directory, with the cursor
/// to stand on the directory that it came from.
pub open spec fn goes_up(before: App, after: App, r: bool) -> bool {
    let at = before.active_panel_index as int;
    let path = before.active().path@;
    let panel = after.panels@[at];
    match local_parent(path) {
        Some(above) => {
            &&& r
            &&& exists|mid: PanelState| #[trigger]
                focused(before, local_name(path), mid) && panel_goes_to(before, after, mid, above)
        },
        None => {
            &&& !r
            &&& after == App { panels: after.panels, ..before }
            &&& after.panels@ == before.panels@.update(at, panel)
            &&& with_focus(before.active(), panel, local_name(path))
        },
    }
}

/// What entering the line under the cursor comes to.
pub open spec fn entered(before: App, after: App, is_image: bool, r: EnterRequest) -> bool {
    let panel = before.active();
    match panel.current() {
        None => after == before && r is Nothing,
        Some(file) => if file.is_directory && panel.remote() {
            if file.name@ == ".."@ {
                exists|mid: PanelState| #[trigger]
                    focused(before, remote_name(panel.path@), mid) && begins_listing(
                        before,
                        after,
                        mid,
                        parent(panel.path@),
                        listing_of(r),
                    ) && (r is List || r is Nothing)
            } else if plain_name(file.name@) {
                &&& begins_listing(
                    before,
                    after,
                    panel,
                    child(panel.path@, file.name@),
                    listing_of(r),
                )
                &&& r is List || r is Nothing
            } else {
                &&& says(before, after, "Remote entry has an unsafe or ambiguous name"@)
                &&& r is Nothing
            }
        } else if file.is_directory {
            if file.name@ == ".."@ {
                &&& goes_up(before, after, r is ReadPanel)
                &&& r is ReadPanel || r is Nothing
            } else {
                &&& panel_goes_to(before, after, panel, joined_path(panel.path@, file.name@))
                &&& r is ReadPanel
            }
        } else if panel.remote() {
            if !is_image {
                after == before && r is Edit
            } else if plain_name(file.name@) {
                &&& after == before
                &&& r matches EnterRequest::RemoteImage { name, size, remote_path }
                &&& name == file.name
                &&& size == file.size
                &&& remote_path@ == child(panel.path@, file.name@)
            } else {
                &&& says(before, after, "Remote entry has an unsafe or ambiguous name"@)
                &&& r is Nothing
            }
        } else {
            &&& after == before
            &&& r matches EnterRequest::OpenLocal { path, name }
            &&& path@ == joined_path(panel.path@, file.name@)
            &&& name == file.name
        },
    }
}

/// The listing that a request holds.
pub open spec fn listing_of(r: EnterRequest) -> Option<ListJob> {
    match r {
        EnterRequest::List(job) => Some(job),
        _ => None,
    }
}

/// How a local file is opened by default.
#[derive(Debug, Clone, Copy, PartialEq, Eq, Structural)]
pub enum OpenAction {
    /// The archive is to be unpacked.
    Extract,
    /// The image is shown.
    Image,
    /// The user is asked first.
    Asked,
    /// The file is to be edited.
    Edit,
}

/// A dialog with a message and the second button chosen.
pub open spec fn cautious_dialog(dialog_type: DialogType, message: Seq<char>) -> DialogView {
    DialogView {
        dialog_type,
        input: Seq::empty(),
        cursor_pos: 0,
        message,
        completion: None,
        selected_button: 1,
        selection: None,
        use_md5: false,
    }
}

/// What is known of a local file that is to be opened.
#[derive(Debug)]
pub struct FileFacts {
    pub size: u64,
    /// The size in megabytes, for the user.
    pub size_text: String,
    pub is_image: bool,
    /// Whether the terminal shows images in line.
    pub inline_images: bool,
    /// Whether the terminal shows all colors.
    pub true_color: bool,
    pub is_binary: bool,
}

impl FileFacts {
    /// Whether images can be shown as they are.
    pub open spec fn can_show_images(self) -> bool {
        self.inline_images || self.true_color
    }

    /// Whether images can be shown as they are.
    pub fn shows_images(&self) -> (r: bool)
        ensures
            r == self.can_show_images(),
    {
        self.inline_images || self.true_color
    }
}

/// The extension of a file name, or nothing.
pub open spec fn extension_or_empty(name: Seq<char>) -> Seq<char> {
    match name_extension(name) {
        Some(extension) => extension,
        None => Seq::empty(),
    }
}

/// Whether the user is asked about an image.
pub open spec fn asks_about(before: App, after: App, path: String, dialog: DialogView) -> bool {
    &&& after == App {
        pending_large_image: Some(path),
        dialog: after.dialog,
        ..before
    }
    &&& dialog_view(after.dialog) == Some(dialog)
}

/// What opening a file of this machine does.
pub open spec fn opens_by_default(
    before: App,
    after: App,
    path: String,
    name: Seq<char>,
    facts: FileFacts,
    r: OpenAction,
) -> bool {
    if names_archive(name) {
        after == before && r == OpenAction::Extract
    } else if facts.size > LARGE_FILE_THRESHOLD {
        &&& r == OpenAction::Asked
        &&& if facts.is_image {
            asks_about(
                before,
                after,
                path,
                cautious_dialog(
                    DialogType::LargeImageConfirm,
                    "This image is "@ + facts.size_text@ + "MB. Open anyway?"@,
                ),
            )
        } else {
            &&& after == (App {
                pending_large_file: Some(path),
                dialog: after.dialog,
                ..before
            })
            &&& dialog_view(after.dialog) == Some(
                cautious_dialog(
                    DialogType::LargeFileConfirm,
                    "This file is "@ + facts.size_text@ + "MB. Open anyway?"@,
                ),
            )
        }
    } else if facts.is_image {
        if facts.can_show_images() {
            &&& r == OpenAction::Image
            &&& after == (App {
                image_viewer_open: true,
                current_screen: Screen::ImageViewer,
                ..before
            })
        } else {
            &&& r == OpenAction::Asked
            &&& asks_about(
                before,
                after,
                path,
                cautious_dialog(
                    DialogType::TrueColorWarning,
                    "Terminal doesn't support true color. Open anyway?"@,
                ),
            )
        }
    } else if facts.is_binary {
        &&& r == OpenAction::Asked
        &&& after == (App {
            pending_binary_file: after.pending_binary_file,
            dialog: after.dialog,
            ..before
        })
        &&& after.pending_binary_file matches Some(pending)
        &&& pending.path == path
        &&& pending.extension@ == extension_or_empty(name)
        &&& dialog_view(after.dialog) == Some(
            crate::dialogs::plain_dialog(
                DialogType::BinaryFileHandler,
                Seq::empty(),
                extension_or_empty(name),
            ),
        )
    } else {
        after == before && r == OpenAction::Edit
    }
}

/// What going to the directory above does.
pub open spec fn goes_to_parent(
    before: App,
    after: App,
    r: (Option<ListJob>, bool),
) -> bool {
    let panel = before.active();
    if panel.remote() {
        &&& !r.1
        &&& exists|mid: PanelState| #[trigger]
            focused(before, local_name(panel.path@), mid) && begins_listing(
                before,
                after,
                mid,
                match local_parent(panel.path@) {
                    Some(above) => above,
                    None => "/"@,
                },
                r.0,
            )
    } else {
        r.0 is None && goes_up(before, after, r.1)
    }
}

/// What going home does.
pub open spec fn goes_home(
    before: App,
    after: App,
    home: Option<String>,
    r: bool,
) -> bool {
    match home {
        None => after == before && !r,
        Some(path) => if before.active().remote() && before.remote_spinner is Some {
            after == before && !r
        } else if before.active().remote() {
            &&& r
            &&& optional_text(after.message) == Some(
                "Disconnected from remote server"@,
            )
            &&& panel_goes_to(
                (App { message: after.message, message_timer: 10, ..before }),
                after,
                (PanelState {
                    remote_ctx: None,
                    remote_display: None,
                    ..before.active()
                }),
                path@,
            )
        } else {
            r && panel_goes_to(before, after, before.active(), path@)
        },
    }
}

impl App {
    fn go(&mut self, path: String)
        requires
            old(self).wf(),
        ensures
            final(self).wf(),
            panel_goes_to(*old(self), *final(self), old(self).active(), path@),
    {
        let at: usize = self.active_panel_index;
        self.panels[at].path = path;
        self.panels[at].selected_index = 0;
        self.panels[at].selected_files = NameSet::new();
        assert(self.panels@ =~= old(self).panels@.update(at as int, self.panels@[at as int]));
    }

    fn focus_on(&mut self, name: Option<String>)
        requires
            old(self).wf(),
        ensures
            final(self).wf(),
            *final(self) == (App { panels: final(self).panels, ..*old(self) }),
            final(self).panels@ == old(self).panels@.update(
                old(self).active_panel_index as int,
                final(self).active(),
            ),
            with_focus(old(self).active(), final(self).active(), optional_text(name)),
    {
        let at: usize = self.active_panel_index;
        if let Some(text) = name {
            self.panels[at].pending_focus = Some(text);
        }
        assert(self.panels@ =~= old(self).panels@.update(at as int, self.panels@[at as int]));
    }

    fn go_up(&mut self) -> (r: bool)
        requires
            old(self).wf(),
        ensures
            final(self).wf(),
            goes_up(*old(self), *final(self), r),
    {
        let name = name_of_path(self.active_panel().path.as_str());
        let above = parent_of_path(self.active_panel().path.as_str());
        self.focus_on(name);
        let ghost mid = self.active();
        assert(focused(*old(self), local_name(old(self).active().path@), mid));
        match above {
            Some(path) => {
                let ghost between = *self;
                self.go(path);
                assert(self.panels@ =~= old(self).panels@.update(
                    old(self).active_panel_index as int,
                    self.active(),
                ));
                assert(panel_goes_to(*old(self), *self, mid, path@));
                true
            },
            None => false,
        }
    }

    /// Enters what is under the cursor. `is_image` is whether its name is that of
    /// an image.
    pub fn enter_selected(&mut self, is_image: bool) -> (r: EnterRequest)
        requires
            old(self).wf(),
        ensures
            entered(*old(self), *final(self), is_image, r),
    {
        let panel = self.active_panel();
        let remote = panel.is_remote();
        let file = match panel.current_file() {
            None => {
                return EnterRequest::Nothing;
            },
            Some(file) => file.clone(),
        };
        let to_parent = same_text(file.name.as_str(), "..");
        if file.is_directory && remote {
            if to_parent {
                let path = remote_parent_path(panel.path.as_str());
                let name = name_of_remote(panel.path.as_str());
                self.focus_on(name);
                let ghost mid = self.active();
                let ghost between = *self;
                assert(focused(*old(self), remote_name(old(self).active().path@), mid));
                let list = self.spawn_remote_list_dir(path.as_str());
                assert(self.panels@ =~= old(self).panels@.update(
                    old(self).active_panel_index as int,
                    self.active(),
                ));
                assert(between.panels@.update(
                    old(self).active_panel_index as int,
                    mid,
                ) =~= between.panels@);
                assert(begins_listing(*old(self), *self, mid, path@, list));
                return match list {
                    Some(job) => EnterRequest::List(job),
                    None => EnterRequest::Nothing,
                };
            }
            return match normalized_remote_child_path(
                panel.path.as_str(),
                file.name.as_str(),
            ) {
                Err(error) => {
                    self.show_message(error.as_str());
                    EnterRequest::Nothing
                },
                Ok(path) => match self.spawn_remote_list_dir(path.as_str()) {
                    Some(job) => EnterRequest::List(job),
                    None => EnterRequest::Nothing,
                },
            };
        }
        if file.is_directory {
            if to_parent {
                return if self.go_up() {
                    EnterRequest::ReadPanel
                } else {
                    EnterRequest::Nothing
                };
            }
            let path = join_path(panel.path.as_str(), file.name.as_str());
            self.go(path);
            return EnterRequest::ReadPanel;
        }
        if remote {
            if !is_image {
                return EnterRequest::Edit;
            }
            return match normalized_remote_child_path(
                panel.path.as_str(),
                file.name.as_str(),
            ) {
                Err(error) => {
                    self.show_message(error.as_str());
                    EnterRequest::Nothing
                },
                Ok(remote_path) => EnterRequest::RemoteImage {
                    name: file.name,
                    size: file.size,
                    remote_path,
                },
            };
        }
        let path = join_path(panel.path.as_str(), file.name.as_str());
        EnterRequest::OpenLocal { path, name: file.name }
    }

    /// Opens a local file that no handler opens: archives are unpacked, large
    /// files and images that cannot be shown as they are asked about, other images
    /// shown, binary files given a handler, and texts edited.
    pub fn open_by_default(&mut self, path: String, name: &str, facts: &FileFacts) -> (r: OpenAction)
        ensures
            opens_by_default(*old(self), *final(self), path, name@, *facts, r),
    {
        if is_archive_file(name) {
            return OpenAction::Extract;
        }
        if facts.size > LARGE_FILE_THRESHOLD {
            if facts.is_image {
                let text = concat3("This image is ", facts.size_text.as_str(), "MB. Open anyway?");
                self.ask_about_image(path, DialogType::LargeImageConfirm, text);
            } else {
                let text = concat3("This file is ", facts.size_text.as_str(), "MB. Open anyway?");
                self.pending_large_file = Some(path);
                self.ask(DialogType::LargeFileConfirm, text);
            }
            return OpenAction::Asked;
        }
        if facts.is_image {
            if facts.shows_images() {
                self.image_viewer_open = true;
                self.current_screen = Screen::ImageViewer;
                return OpenAction::Image;
            }
            self.ask_about_image(
                path,
                DialogType::TrueColorWarning,
                "Terminal doesn't support true color. Open anyway?".to_owned(),
            );
            return OpenAction::Asked;
        }
        if facts.is_binary {
            let extension = match extension_of(name) {
                Some(extension) => extension,
                None => String::new(),
            };
            assert(extension@ =~= extension_or_empty(name@));
            let dialog = Dialog::plain(
                DialogType::BinaryFileHandler,
                String::new(),
                extension.clone(),
            );
            assert(dialog@ == crate::dialogs::plain_dialog(
                DialogType::BinaryFileHandler,
                Seq::empty(),
                extension@,
            ));
            self.pending_binary_file = Some(PendingBinaryFile { path, extension });
            self.dialog = Some(dialog);
            return OpenAction::Asked;
        }
        OpenAction::Edit
    }

    pub(crate) fn ask(&mut self, dialog_type: DialogType, message: String)
        ensures
            *final(self) == (App { dialog: final(self).dialog, ..*old(self) }),
            dialog_view(final(self).dialog) == Some(cautious_dialog(dialog_type, message@)),
    {
        let mut dialog = Dialog::plain(dialog_type, String::new(), message);
        dialog.selected_button = 1;
        assert(dialog@ == cautious_dialog(dialog_type, message@));
        self.dialog = Some(dialog);
    }

    fn ask_about_image(&mut self, path: String, dialog_type: DialogType, message: String)
        ensures
            asks_about(*old(self), *final(self), path, cautious_dialog(dialog_type, message@)),
    {
        self.pending_large_image = Some(path);
        self.ask(dialog_type, message);
    }

    /// Goes to the parent of the directory of the panel with the focus. True where
    /// the panel is to be read.
    pub fn go_to_parent(&mut self) -> (r: (Option<ListJob>, bool))
        requires
            old(self).wf(),
        ensures
            goes_to_parent(*old(self), *final(self), r),
    {
        if self.active_panel().is_remote() {
            let name = name_of_path(self.active_panel().path.as_str());
            let above = match parent_of_path(self.active_panel().path.as_str()) {
                Some(path) => path,
                None => "/".to_owned(),
            };
            self.focus_on(name);
            let ghost mid = self.active();
            let ghost between = *self;
            assert(focused(*old(self), local_name(old(self).active().path@), mid));
            let list = self.spawn_remote_list_dir(above.as_str());
            assert(self.panels@ =~= old(self).panels@.update(
                old(self).active_panel_index as int,
                self.active(),
            ));
            assert(between.panels@.update(
                old(self).active_panel_index as int,
                mid,
            ) =~= between.panels@);
            assert(begins_listing(*old(self), *self, mid, above@, list));
            return (list, false);
        }
        (None, self.go_up())
    }

    /// Goes to a local directory, with the cursor to stand on a file. The panel is
    /// to be read.
    pub fn goto_directory_with_focus(&mut self, dir: &str, filename: Option<String>)
        requires
            old(self).wf(),
        ensures
            panel_goes_to(
                *old(self),
                *final(self),
                (PanelState { pending_focus: filename, ..old(self).active() }),
                dir@,
            ),
    {
        let at: usize = self.active_panel_index;
        self.panels[at].pending_focus = filename;
        self.go(dir.to_owned());
        assert(self.panels@ =~= old(self).panels@.update(at as int, self.panels@[at as int]));
    }

    /// Goes to the home directory, leaving a remote machine for it. True where the
    /// panel is to be read.
    pub fn goto_home(&mut self, home: Option<String>) -> (r: bool)
        requires
            old(self).wf(),
        ensures
            goes_home(*old(self), *final(self), home, r),
    {
        match home {
            None => false,
            Some(path) => {
                if self.active_panel().is_remote() {
                    if self.remote_spinner.is_some() {
                        return false;
                    }
                    self.disconnect_remote_panel(path.clone());
                }
                let ghost between = *self;
                self.go(path);
                assert(self.panels@ =~= old(self).panels@.update(
                    old(self).active_panel_index as int,
                    self.active(),
                ));
                true
            },
        }
    }
}

/// Going up to the parent shows where it was left from: once the parent was read,
/// the cursor stands on the directory that the panel showed before.
pub proof fn law_going_up_finds_the_way_back(
    before: App,
    after: App,
    name: Seq<char>,
    files: Seq<FileItem>,
    at: int,
)
    requires
        before.wf(),
        goes_up(before, after, true),
        local_name(before.active().path@) == Some(name),
        0 <= at < files.len(),
        files[at].name@ == name,
    ensures
        ({
            let panel = after.active();
            let line = cursor_after_load(
                files,
                optional_text(panel.pending_focus),
                panel.selected_index,
            );
            0 <= line < files.len() && files[line].name@ == name
        }),
{
    law_focus_finds_its_line(files, name, after.active().selected_index, at);
}

/// A directory that can be read is taken as it is. Else the nearest directory above it that
/// can be read is; else home, if it can be read, or the root.
pub proof fn law_nearest_readable_directory(
    target: Seq<char>,
    fallback: Seq<char>,
    root: Seq<char>,
    readable: Set<Seq<char>>,
    above: Seq<char>,
)
    ensures
        readable.contains(target) ==> valid_path(target, fallback, root, readable) == target,
        !readable.contains(target) && local_parent(target) == Some(above) ==> valid_path(
            target,
            fallback,
            root,
            readable,
        ) == valid_path(above, fallback, root, readable),
        !readable.contains(target) && local_parent(target) is None && readable.contains(fallback)
            ==> valid_path(target, fallback, root, readable) == fallback,
        !readable.contains(target) && local_parent(target) is None && !readable.contains(fallback)
            ==> valid_path(target, fallback, root, readable) == root,
{
    law_parent_is_shorter(target);
}

/// Going up shows the directory above with nothing marked, and looks for the directory that
/// was left.
pub proof fn law_going_up_shows_the_parent(before: App, after: App, r: bool)
    requires
        before.wf(),
        goes_up(before, after, r),
    ensures
        r <==> local_parent(before.active().path@) is Some,
        r ==> {
            &&& local_parent(before.active().path@) == Some(after.active().path@)
            &&& after.active().selected_index == 0
            &&& after.active().selected_files@ == Set::<Seq<char>>::empty()
            &&& local_name(before.active().path@) is Some ==> optional_text(
                after.active().pending_focus,
            ) == local_name(before.active().path@)
        },
        !r ==> after.active().path == before.active().path,
{
}

/// Going into a directory and up again leads back to where one was.
pub proof fn law_going_in_and_up_leads_back(
    before: App,
    inside: App,
    after: App,
    is_image: bool,
    enter: EnterRequest,
    up: bool,
)
    requires
        before.wf(),
        !before.active().remote(),
        before.active().current() is Some,
        before.active().current()->0.is_directory,
        is_plain_name(before.active().current()->0.name@),
        entered(before, inside, is_image, enter),
        goes_up(inside, after, up),
        ({
            let path = before.active().path@;
            ||| path == "/"@
            ||| path.len() > 0 && path.last() != '/' && !(path.last() == '.' && path.len() > 1
                && path[path.len() - 2] == '/')
        }),
    ensures
        enter is ReadPanel,
        local_name(inside.active().path@) == Some(before.active().current()->0.name@),
        up,
        after.active().path@ == before.active().path@,
        optional_text(after.active().pending_focus) == Some(before.active().current()->0.name@),
{
    reveal_strlit("..");
    assert(".."@ =~= seq!['.', '.']);
    law_joined_name_is_found_again(before.active().path@, before.active().current()->0.name@);
}

/// A file is opened under its own path, and its panel stays as it is.
pub proof fn law_file_is_opened_under_its_path(
    before: App,
    after: App,
    is_image: bool,
    r: EnterRequest,
)
    requires
        before.wf(),
        before.active().current() is Some,
        !before.active().current()->0.is_directory,
        entered(before, after, is_image, r),
    ensures
        after.panels == before.panels,
        !before.active().remote() ==> {
            &&& r matches EnterRequest::OpenLocal { path, name }
            &&& name == before.active().current()->0.name
            &&& path@ == joined_path(before.active().path@, name@)
        },
        before.active().remote() && !is_image ==> r is Edit,
        before.active().remote() && is_image && plain_name(before.active().current()->0.name@) ==> {
            &&& r matches EnterRequest::RemoteImage { name, size, remote_path }
            &&& name == before.active().current()->0.name
            &&& size == before.active().current()->0.size
            &&& remote_path@ == child(before.active().path@, name@)
        },
        before.active().remote() && is_image && !plain_name(before.active().current()->0.name@)
            ==> r is Nothing,
{
}

/// A remote directory is listed in its own panel: the one below under its name, the one
/// above for the way up.
pub proof fn law_remote_directory_is_listed(
    before: App,
    after: App,
    is_image: bool,
    r: EnterRequest,
)
    requires
        before.wf(),
        before.active().remote(),
        before.active().current() is Some,
        before.active().current()->0.is_directory,
        before.active().remote_ctx is Some,
        before.remote_spinner is None,
        entered(before, after, is_image, r),
    ensures
        ({
            let name = before.active().current()->0.name@;
            &&& name == ".."@ || plain_name(name) ==> {
                &&& r matches EnterRequest::List(job)
                &&& job.list_path@ == if name == ".."@ {
                    parent(before.active().path@)
                } else {
                    child(before.active().path@, name)
                }
                &&& after.active().path@ == job.list_path@
                &&& job.panel_idx == before.active_panel_index
                &&& job.old_path == Some(before.active().path)
                &&& before.active().remote_ctx == Some(job.ctx)
                &&& after.active().remote_ctx is None
            }
            &&& name != ".."@ && !plain_name(name) ==> r is Nothing && after.panels
                == before.panels
        }),
{
}

/// What happens to a file that is opened: archives are unpacked, large files and what cannot
/// be shown are asked about, images are shown, and only the rest is edited.
pub proof fn law_opening_goes_by_the_kind(
    before: App,
    after: App,
    path: String,
    name: Seq<char>,
    facts: FileFacts,
    r: OpenAction,
)
    requires
        opens_by_default(before, after, path, name, facts, r),
    ensures
        r == OpenAction::Extract <==> names_archive(name),
        r == OpenAction::Edit <==> !names_archive(name) && facts.size <= LARGE_FILE_THRESHOLD
            && !facts.is_image && !facts.is_binary,
        r == OpenAction::Image <==> !names_archive(name) && facts.size <= LARGE_FILE_THRESHOLD
            && facts.is_image && (facts.inline_images || facts.true_color),
        r == OpenAction::Extract || r == OpenAction::Edit ==> after == before,
        r == OpenAction::Image ==> after.current_screen == Screen::ImageViewer
            && after.image_viewer_open,
        r == OpenAction::Asked ==> {
            &&& after.dialog is Some
            &&& facts.size > LARGE_FILE_THRESHOLD && facts.is_image ==> after.pending_large_image
                == Some(path) && dialog_view(after.dialog)->0.dialog_type
                == DialogType::LargeImageConfirm
            &&& facts.size > LARGE_FILE_THRESHOLD && !facts.is_image ==> after.pending_large_file
                == Some(path) && dialog_view(after.dialog)->0.dialog_type
                == DialogType::LargeFileConfirm
            &&& facts.size <= LARGE_FILE_THRESHOLD && facts.is_image ==> after.pending_large_image
                == Some(path) && dialog_view(after.dialog)->0.dialog_type
                == DialogType::TrueColorWarning
            &&& facts.size <= LARGE_FILE_THRESHOLD && !facts.is_image
                ==> after.pending_binary_file is Some && after.pending_binary_file->0.path == path
                && dialog_view(after.dialog)->0.dialog_type == DialogType::BinaryFileHandler
        },
        r == OpenAction::Asked && dialog_view(after.dialog)->0.dialog_type
            != DialogType::BinaryFileHandler ==> dialog_view(after.dialog)->0.selected_button == 1,
{
}

/// Going home leaves a remote machine unless work is under way there, and shows the home
/// directory of this one.
pub proof fn law_home_is_on_this_machine(before: App, after: App, home: Option<String>, r: bool)
    requires
        before.wf(),
        goes_home(before, after, home, r),
    ensures
        r <==> home is Some && !(before.active().remote() && before.remote_spinner is Some),
        r ==> {
            &&& after.active().path@ == home->0@
            &&& !after.active().remote()
            &&& after.active().selected_index == 0
            &&& after.active().selected_files@ == Set::<Seq<char>>::empty()
        },
        !r ==> after == before,
{
}

/// The directory above is the parent of the one shown, on a remote machine as well, where
/// the root is above itself.
pub proof fn law_parent_is_gone_to(
    before: App,
    after: App,
    r: (Option<ListJob>, bool),
)
    requires
        before.wf(),
        goes_to_parent(before, after, r),
    ensures
        !before.active().remote() ==> r.0 is None && (r.1 <==> local_parent(
            before.active().path@,
        ) is Some),
        before.active().remote() ==> !r.1,
        before.active().remote() && before.active().remote_ctx is Some && before.remote_spinner is None
            ==> {
            &&& r.0 matches Some(job)
            &&& local_parent(before.active().path@) matches Some(above) ==> job.list_path@ == above
            &&& local_parent(before.active().path@) is None ==> job.list_path@ == "/"@
            &&& after.active().path@ == job.list_path@
        },
        r.0 is None && before.active().remote() ==> after.active().path == before.active().path,
{
}

} // verus!
