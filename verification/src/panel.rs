//! A panel: one directory, its listing in order, the cursor and the marks.

use crate::diff_types::{codes, codes_of, get_extension, lower_extension, FileTime};
use crate::names::NameSet;
use crate::navigation::Places;
use crate::paths::{local_parent, parent_of_path};
use crate::ranking::{arrange, arranged, key_views, positions, ItemKey, Key};
use crate::remote_connect::{optional_text, RemoteProfile};
use crate::remote_path::{normalized, normalized_remote_path};
use crate::sorting::{
    lowercase_text, parse_sort_by, parse_sort_order, sort_by_word, sort_order_word, SortBy,
    SortOrder,
};
use crate::text::same_text;
use vstd::prelude::*;

verus! {

/// A line of a listing.
#[derive(Debug)]
pub struct FileItem {
    pub name: String,
    /// The name that an encrypted file carries in its header.
    pub display_name: Option<String>,
    pub is_directory: bool,
    pub is_symlink: bool,
    pub size: u64,
    pub modified: FileTime,
    pub permissions: String,
}

impl Clone for FileItem {
    fn clone(&self) -> (r: Self)
        ensures
            r == *self,
    {
        FileItem {
            name: self.name.clone(),
            display_name: match &self.display_name {
                Some(name) => Some(name.clone()),
                None => None,
            },
            is_directory: self.is_directory,
            is_symlink: self.is_symlink,
            size: self.size,
            modified: self.modified,
            permissions: self.permissions.clone(),
        }
    }
}

/// An entry of a remote listing.
#[derive(Debug)]
pub struct SftpFileEntry {
    pub name: String,
    pub is_directory: bool,
    pub is_symlink: bool,
    pub size: u64,
    pub modified: FileTime,
    pub permissions: String,
}

/// Whether a remote session answers.
#[derive(Debug)]
pub enum ConnectionStatus {
    Connected,
    Disconnected(String),
}

/// The remote session of a panel.
#[derive(Debug)]
pub struct RemoteContext {
    pub profile: RemoteProfile,
    pub status: ConnectionStatus,
}

/// The endpoint that a panel shows, also while its session is lent out.
#[derive(Debug)]
pub struct RemoteEndpoint {
    pub user: String,
    pub host: String,
    pub port: u16,
}

/// A panel.
#[derive(Debug)]
pub struct PanelState {
    pub path: String,
    pub files: Vec<FileItem>,
    pub selected_index: usize,
    pub selected_files: NameSet,
    pub sort_by: SortBy,
    pub sort_order: SortOrder,
    pub scroll_offset: usize,
    /// The name that takes the cursor when the listing is next read.
    pub pending_focus: Option<String>,
    pub disk_total: u64,
    pub disk_available: u64,
    pub remote_ctx: Option<RemoteContext>,
    pub remote_display: Option<RemoteEndpoint>,
}

/// What a line is arranged by.
pub open spec fn item_key(item: FileItem, sort_by: SortBy) -> Key {
    Key {
        directory: item.is_directory,
        major: match sort_by {
            SortBy::Name => codes(lowercase_text(item.name@)),
            SortBy::Type => codes(lower_extension(item.name@)),
            SortBy::Size => seq![item.size as int],
            SortBy::Modified => seq![item.modified.secs as int, item.modified.nanos as int],
        },
        minor: Seq::empty(),
        path: Seq::empty(),
    }
}

pub open spec fn item_keys(items: Seq<FileItem>, sort_by: SortBy) -> Seq<Key> {
    Seq::new(items.len(), |i: int| item_key(items[i], sort_by))
}

/// The lines in order: directories first, then by the chosen sort; equal ones
/// keep their places.
pub open spec fn sorted_items(items: Seq<FileItem>, sort_by: SortBy, sort_order: SortOrder) -> Seq<
    FileItem,
> {
    let order = arranged(
        item_keys(items, sort_by),
        sort_order == SortOrder::Desc,
        Seq::new(items.len(), |i: int| i),
    );
    Seq::new(order.len(), |k: int| items[order[k]])
}

/// The line that leads to the parent directory.
pub open spec fn is_parent_line(item: FileItem, now: FileTime) -> bool {
    &&& item.name@ == ".."@
    &&& item.display_name is None
    &&& item.is_directory
    &&& !item.is_symlink
    &&& item.size == 0
    &&& item.modified == now
    &&& item.permissions@ == Seq::<char>::empty()
}

/// Whether `files` is a listing of `items`: the line to the parent where there
/// is one, then the items in order.
pub open spec fn is_listing(
    files: Seq<FileItem>,
    has_parent: bool,
    now: FileTime,
    items: Seq<FileItem>,
    sort_by: SortBy,
    sort_order: SortOrder,
) -> bool {
    let sorted = sorted_items(items, sort_by, sort_order);
    if has_parent {
        files.len() > 0 && is_parent_line(files[0], now) && files == seq![files[0]] + sorted
    } else {
        files == sorted
    }
}

/// The lines whose name is not `..`.
pub open spec fn without_parent_line(files: Seq<FileItem>) -> Seq<FileItem>
    decreases files.len(),
{
    if files.len() == 0 {
        files
    } else {
        let before = without_parent_line(files.drop_last());
        if files.last().name@ == ".."@ {
            before
        } else {
            before.push(files.last())
        }
    }
}

/// The first line with this name from `from` on, or -1.
pub open spec fn line_of(files: Seq<FileItem>, name: Seq<char>, from: int) -> int
    decreases files.len() - from,
{
    if from >= files.len() {
        -1
    } else if files[from].name@ == name {
        from
    } else {
        line_of(files, name, from + 1)
    }
}

/// Where the cursor stands once a listing was read: on the line that was asked
/// for where it is there, and inside the listing.
pub open spec fn cursor_after_load(
    files: Seq<FileItem>,
    focus: Option<Seq<char>>,
    cursor: usize,
) -> int {
    let wanted = match focus {
        Some(name) => if line_of(files, name, 0) >= 0 {
            line_of(files, name, 0)
        } else {
            cursor as int
        },
        None => cursor as int,
    };
    if wanted >= files.len() && files.len() > 0 {
        files.len() - 1
    } else {
        wanted
    }
}

/// The line of a remote entry.
pub open spec fn line_value(entry: SftpFileEntry) -> FileItem {
    FileItem {
        name: entry.name,
        display_name: None,
        is_directory: entry.is_directory,
        is_symlink: entry.is_symlink,
        size: if entry.is_directory { 0 } else { entry.size },
        modified: entry.modified,
        permissions: entry.permissions,
    }
}

pub open spec fn line_values(entries: Seq<SftpFileEntry>) -> Seq<FileItem> {
    Seq::new(entries.len(), |i: int| line_value(entries[i]))
}

/// The cursor moved by `delta`, held inside `count` lines.
pub open spec fn moved_cursor(index: usize, delta: i32, count: nat) -> int {
    if index + delta < 0 || count == 0 {
        0
    } else if index + delta >= count {
        count - 1
    } else {
        index + delta
    }
}

/// What choosing a sort comes to: the one in use turns round. A remote listing is
/// arranged at once, and a local one has to be read again.
pub open spec fn sort_toggled(
    before: PanelState,
    after: PanelState,
    sort_by: SortBy,
    now: FileTime,
    read: bool,
) -> bool {
    &&& read == !before.remote()
    &&& after.sort_by == sort_by
    &&& after.sort_order == if before.sort_by == sort_by {
        before.sort_order.flipped()
    } else {
        SortOrder::Asc
    }
    &&& !before.remote() ==> after == PanelState {
        sort_by: after.sort_by,
        sort_order: after.sort_order,
        selected_index: 0,
        ..before
    }
    &&& before.remote() ==> {
        &&& after == PanelState {
            sort_by: after.sort_by,
            sort_order: after.sort_order,
            files: after.files,
            selected_index: after.selected_index,
            pending_focus: None,
            ..before
        }
        &&& is_listing(
            after.files@,
            normalized(before.path@) != "/"@,
            now,
            without_parent_line(before.files@),
            after.sort_by,
            after.sort_order,
        )
        &&& after.selected_index == cursor_after_load(
            after.files@,
            optional_text(before.pending_focus),
            0,
        )
    }
}

fn parent_line(now: FileTime) -> (r: FileItem)
    ensures
        is_parent_line(r, now),
{
    FileItem {
        name: "..".to_owned(),
        display_name: None,
        is_directory: true,
        is_symlink: false,
        size: 0,
        modified: now,
        permissions: String::new(),
    }
}

/// The lines in order.
pub fn sort_items(items: Vec<FileItem>, sort_by: SortBy, sort_order: SortOrder) -> (r: Vec<FileItem>)
    ensures
        r@ == sorted_items(items@, sort_by, sort_order),
{
    let mut keys: Vec<ItemKey> = Vec::new();
    let mut list: Vec<usize> = Vec::new();
    let mut i: usize = 0;
    while i < items.len()
        invariant
            i <= items@.len(),
            keys@.len() == i,
            list@.len() == i,
            forall|k: int| 0 <= k < i ==> (#[trigger] keys@[k])@ == item_key(items@[k], sort_by),
            forall|k: int| 0 <= k < i ==> #[trigger] list@[k] == k,
        decreases items@.len() - i,
    {
        keys.push(key_of_item(&items[i], sort_by));
        list.push(i);
        i += 1;
    }
    assert(key_views(keys@) == item_keys(items@, sort_by));
    assert(positions(list@) == Seq::new(items@.len(), |i: int| i));
    let order = arrange(&keys, sort_order == SortOrder::Desc, &list);
    let ghost wanted = sorted_items(items@, sort_by, sort_order);
    let mut r: Vec<FileItem> = Vec::new();
    let mut k: usize = 0;
    while k < order.len()
        invariant
            k <= order@.len(),
            wanted.len() == order@.len(),
            forall|m: int| 0 <= m < order@.len() ==> #[trigger] order@[m] < items@.len(),
            forall|m: int| 0 <= m < order@.len() ==> wanted[m] == items@[#[trigger] order@[m] as int],
            r@ == wanted.take(k as int),
        decreases order@.len() - k,
    {
        assert(order@[k as int] < items@.len());
        r.push(items[order[k]].clone());
        assert(wanted.take(k + 1) == wanted.take(k as int).push(wanted[k as int]));
        k += 1;
    }
    assert(wanted.take(k as int) == wanted);
    r
}

fn key_of_item(item: &FileItem, sort_by: SortBy) -> (r: ItemKey)
    ensures
        r@ == item_key(*item, sort_by),
{
    let mut major: Vec<i128> = Vec::new();
    match sort_by {
        SortBy::Name => {
            let lower = item.name.as_str().to_lowercase();
            major = codes_of(lower.as_str());
        },
        SortBy::Type => {
            let ext = get_extension(item.name.as_str());
            major = codes_of(ext.as_str());
        },
        SortBy::Size => {
            major.push(item.size as i128);
        },
        SortBy::Modified => {
            major.push(item.modified.secs as i128);
            major.push(item.modified.nanos as i128);
        },
    }
    let minor: Vec<i128> = Vec::new();
    let path: Vec<i128> = Vec::new();
    let r = ItemKey { directory: item.is_directory, major, minor, path };
    assert(r@.major == item_key(*item, sort_by).major);
    assert(r@.minor == Seq::<int>::empty());
    assert(r@.path == Seq::<int>::empty());
    r
}

fn listing(has_parent: bool, now: FileTime, items: Vec<FileItem>, sort_by: SortBy, sort_order: SortOrder) -> (r:
    Vec<FileItem>)
    ensures
        is_listing(r@, has_parent, now, items@, sort_by, sort_order),
{
    let mut sorted = sort_items(items, sort_by, sort_order);
    if has_parent {
        let mut r: Vec<FileItem> = Vec::new();
        r.push(parent_line(now));
        let ghost first = r@[0];
        let ghost tail = sorted@;
        r.append(&mut sorted);
        assert(r@ == seq![first] + tail);
        r
    } else {
        sorted
    }
}

fn find_line(files: &Vec<FileItem>, name: &String) -> (r: Option<usize>)
    ensures
        match r {
            Some(i) => i == line_of(files@, name@, 0) && i < files@.len(),
            None => line_of(files@, name@, 0) == -1,
        },
{
    let mut i: usize = 0;
    while i < files.len()
        invariant
            i <= files@.len(),
            line_of(files@, name@, 0) == line_of(files@, name@, i as int),
        decreases files@.len() - i,
    {
        if files[i].name == *name {
            return Some(i);
        }
        i += 1;
    }
    None
}

/// The lines of remote entries.
pub fn lines_of(entries: Vec<SftpFileEntry>) -> (r: Vec<FileItem>)
    ensures
        r@ == line_values(entries@),
{
    let mut r: Vec<FileItem> = Vec::new();
    let mut i: usize = 0;
    while i < entries.len()
        invariant
            i <= entries@.len(),
            r@ == line_values(entries@).take(i as int),
        decreases entries@.len() - i,
    {
        let e = &entries[i];
        r.push(
            FileItem {
                name: e.name.clone(),
                display_name: None,
                is_directory: e.is_directory,
                is_symlink: e.is_symlink,
                size: if e.is_directory {
                    0
                } else {
                    e.size
                },
                modified: e.modified,
                permissions: e.permissions.clone(),
            },
        );
        assert(line_values(entries@).take(i + 1) == line_values(entries@).take(i as int).push(
            line_values(entries@)[i as int],
        ));
        i += 1;
    }
    assert(line_values(entries@).take(i as int) == line_values(entries@));
    r
}

/// An empty local panel on a directory.
pub open spec fn is_fresh_panel(
    panel: PanelState,
    path: Seq<char>,
    sort_by: SortBy,
    sort_order: SortOrder,
) -> bool {
    &&& panel.path@ == path
    &&& panel.files@ == Seq::<FileItem>::empty()
    &&& panel.selected_index == 0
    &&& panel.selected_files@ == Set::<Seq<char>>::empty()
    &&& panel.sort_by == sort_by
    &&& panel.sort_order == sort_order
    &&& panel.scroll_offset == 0
    &&& panel.pending_focus is None
    &&& panel.disk_total == 0
    &&& panel.disk_available == 0
    &&& panel.remote_ctx is None
    &&& panel.remote_display is None
}

/// What reading a local directory comes to.
pub open spec fn lists_local(
    before: PanelState,
    after: PanelState,
    items: Option<Vec<FileItem>>,
    now: FileTime,
    disk: (u64, u64),
) -> bool {
    &&& after == (PanelState {
        files: after.files,
        selected_index: after.selected_index,
        pending_focus: None,
        disk_total: if before.remote() { 0 } else { disk.0 },
        disk_available: if before.remote() { 0 } else { disk.1 },
        ..before
    })
    &&& is_listing(
        after.files@,
        local_parent(before.path@) is Some,
        now,
        match items {
            Some(v) => v@,
            None => Seq::empty(),
        },
        before.sort_by,
        before.sort_order,
    )
    &&& after.selected_index == cursor_after_load(
        after.files@,
        optional_text(before.pending_focus),
        before.selected_index,
    )
}

/// What reading a remote directory comes to.
pub open spec fn lists_remote(
    before: PanelState,
    after: PanelState,
    answer: Result<Vec<SftpFileEntry>, String>,
    now: FileTime,
) -> bool {
    let has_parent = normalized(before.path@) != "/"@;
    let items = match answer {
        Ok(entries) => line_values(entries@),
        Err(_) => Seq::empty(),
    };
    if before.remote_ctx is None {
        &&& after == (PanelState { files: after.files, ..before })
        &&& is_listing(
            after.files@,
            has_parent,
            now,
            Seq::empty(),
            before.sort_by,
            before.sort_order,
        )
    } else {
        &&& after == (PanelState {
            files: after.files,
            selected_index: after.selected_index,
            pending_focus: None,
            disk_total: 0,
            disk_available: 0,
            remote_ctx: Some(
                RemoteContext {
                    status: match answer {
                        Ok(_) => ConnectionStatus::Connected,
                        Err(e) => ConnectionStatus::Disconnected(e),
                    },
                    ..before.remote_ctx->0
                },
            ),
            ..before
        })
        &&& is_listing(
            after.files@,
            has_parent,
            now,
            items,
            before.sort_by,
            before.sort_order,
        )
        &&& after.selected_index == cursor_after_load(
            after.files@,
            optional_text(before.pending_focus),
            before.selected_index,
        )
    }
}

/// What showing a remote directory comes to.
pub open spec fn shows_entries(
    before: PanelState,
    after: PanelState,
    entries: Seq<SftpFileEntry>,
    path: String,
    now: FileTime,
) -> bool {
    &&& after == (PanelState {
        path,
        files: after.files,
        selected_index: after.selected_index,
        pending_focus: None,
        disk_total: 0,
        disk_available: 0,
        ..before
    })
    &&& is_listing(
        after.files@,
        normalized(path@) != "/"@,
        now,
        line_values(entries),
        before.sort_by,
        before.sort_order,
    )
    &&& after.selected_index == cursor_after_load(
        after.files@,
        optional_text(before.pending_focus),
        before.selected_index,
    )
}

impl PanelState {
    /// Whether the panel shows a remote directory.
    pub open spec fn remote(self) -> bool {
        self.remote_ctx is Some || self.remote_display is Some
    }

    /// The remote machine that the panel shows.
    pub open spec fn endpoint(self) -> Option<RemoteEndpoint> {
        match self.remote_ctx {
            Some(ctx) => Some(
                RemoteEndpoint {
                    user: ctx.profile.user,
                    host: ctx.profile.host,
                    port: ctx.profile.port,
                },
            ),
            None => self.remote_display,
        }
    }

    /// What the panel is called, where `remote` stands for its remote path.
    pub open spec fn shown_as(self, remote: String) -> String {
        if self.remote() {
            remote
        } else {
            self.path
        }
    }

    /// The line under the cursor.
    pub open spec fn current(self) -> Option<FileItem> {
        if self.selected_index < self.files@.len() {
            Some(self.files@[self.selected_index as int])
        } else {
            None
        }
    }

    /// An empty local panel on a directory.
    pub fn at(path: String, sort_by: SortBy, sort_order: SortOrder) -> (r: Self)
        ensures
            is_fresh_panel(r, path@, sort_by, sort_order),
    {
        PanelState {
            path,
            files: Vec::new(),
            selected_index: 0,
            selected_files: NameSet::new(),
            sort_by,
            sort_order,
            scroll_offset: 0,
            pending_focus: None,
            disk_total: 0,
            disk_available: 0,
            remote_ctx: None,
            remote_display: None,
        }
    }

    /// An empty local panel, sorted by name. It stands on the path or on the nearest
    /// directory above it that can be read, else at home or on the root.
    pub fn new(path: &str, places: &Places) -> (r: Self)
        ensures
            is_fresh_panel(r, places.nearest(path@), SortBy::Name, SortOrder::Asc),
    {
        PanelState::at(places.nearest_to(path), SortBy::Name, SortOrder::Asc)
    }

    /// An empty local panel, sorted as the settings say. It stands where a panel stands
    /// that is made for the path.
    pub fn with_settings(path: &str, sort_by: &str, sort_order: &str, places: &Places) -> (r: Self)
        ensures
            is_fresh_panel(
                r,
                places.nearest(path@),
                sort_by_word(lowercase_text(sort_by@)),
                sort_order_word(lowercase_text(sort_order@)),
            ),
    {
        PanelState::at(
            places.nearest_to(path),
            parse_sort_by(sort_by),
            parse_sort_order(sort_order),
        )
    }

    /// Whether the panel shows a remote directory.
    pub fn is_remote(&self) -> (r: bool)
        ensures
            r == self.remote(),
    {
        self.remote_ctx.is_some() || self.remote_display.is_some()
    }

    /// The remote machine and the path on it that the panel is shown by.
    pub fn shown_remote(&self) -> (r: Option<(RemoteEndpoint, String)>)
        ensures
            match self.endpoint() {
                Some(endpoint) => r matches Some((machine, path)) && machine == endpoint && path@
                    == normalized(self.path@),
                None => r is None,
            },
    {
        let endpoint = match &self.remote_ctx {
            Some(ctx) => RemoteEndpoint {
                user: ctx.profile.user.clone(),
                host: ctx.profile.host.clone(),
                port: ctx.profile.port,
            },
            None => match &self.remote_display {
                Some(endpoint) => RemoteEndpoint {
                    user: endpoint.user.clone(),
                    host: endpoint.host.clone(),
                    port: endpoint.port,
                },
                None => {
                    return None;
                },
            },
        };
        Some((endpoint, normalized_remote_path(self.path.as_str())))
    }

    /// What the panel is called: its path, or the text that stands for its remote
    /// machine and path.
    pub fn display_path(&self, remote: String) -> (r: String)
        ensures
            r == self.shown_as(remote),
    {
        if self.is_remote() {
            remote
        } else {
            self.path.clone()
        }
    }

    /// The line under the cursor.
    pub fn current_file(&self) -> (r: Option<&FileItem>)
        ensures
            match self.current() {
                Some(item) => r == Some(&item),
                None => r is None,
            },
    {
        if self.selected_index < self.files.len() {
            Some(&self.files[self.selected_index])
        } else {
            None
        }
    }

    /// Puts the cursor on the line that was asked for, and inside the listing.
    fn finalize_load(&mut self)
        ensures
            *final(self) == (PanelState {
                selected_index: final(self).selected_index,
                pending_focus: None,
                ..*old(self)
            }),
            final(self).selected_index == cursor_after_load(
                old(self).files@,
                optional_text(old(self).pending_focus),
                old(self).selected_index,
            ),
    {
        if let Some(name) = self.pending_focus.take() {
            if let Some(i) = find_line(&self.files, &name) {
                self.selected_index = i;
            }
        }
        if self.selected_index >= self.files.len() && self.files.len() > 0 {
            self.selected_index = self.files.len() - 1;
        }
    }

    /// Takes in a listing of the local directory. None stands for one that
    /// could not be read. `disk` is the room on its disk, in all and left.
    pub fn load_files_local(&mut self, items: Option<Vec<FileItem>>, now: FileTime, disk: (u64, u64))
        ensures
            lists_local(*old(self), *final(self), items, now, disk),
    {
        let has_parent = parent_of_path(self.path.as_str()).is_some();
        let items = match items {
            Some(v) => v,
            None => Vec::new(),
        };
        self.files = listing(has_parent, now, items, self.sort_by, self.sort_order);
        self.finalize_load();
        if self.is_remote() {
            self.disk_total = 0;
            self.disk_available = 0;
        } else {
            self.disk_total = disk.0;
            self.disk_available = disk.1;
        }
    }

    /// Takes in what the remote session answered to a listing of its directory.
    /// Without a session only the line to the parent is left.
    pub fn load_files_remote(&mut self, answer: Result<Vec<SftpFileEntry>, String>, now: FileTime)
        ensures
            lists_remote(*old(self), *final(self), answer, now),
    {
        let path = normalized_remote_path(self.path.as_str());
        let has_parent = !same_text(path.as_str(), "/");
        match self.remote_ctx.take() {
            None => {
                self.files =
                listing(has_parent, now, Vec::new(), self.sort_by, self.sort_order);
            },
            Some(ctx) => {
                let mut ctx = ctx;
                let items = match answer {
                    Ok(entries) => {
                        ctx.status = ConnectionStatus::Connected;
                        lines_of(entries)
                    },
                    Err(e) => {
                        ctx.status = ConnectionStatus::Disconnected(e);
                        Vec::new()
                    },
                };
                self.remote_ctx = Some(ctx);
                self.files = listing(has_parent, now, items, self.sort_by, self.sort_order);
                self.finalize_load();
                self.disk_total = 0;
                self.disk_available = 0;
            },
        }
    }

    /// Shows a remote listing that was read in the background.
    pub fn apply_remote_entries(&mut self, entries: Vec<SftpFileEntry>, path: String, now: FileTime)
        ensures
            shows_entries(*old(self), *final(self), entries@, path, now),
    {
        let full = normalized_remote_path(path.as_str());
        let has_parent = !same_text(full.as_str(), "/");
        self.path = path;
        let items = lines_of(entries);
        self.files = listing(has_parent, now, items, self.sort_by, self.sort_order);
        self.finalize_load();
        self.disk_total = 0;
        self.disk_available = 0;
    }

    /// Chooses a sort; the one in use turns round. A remote listing is arranged
    /// at once; true where a local one has to be read again.
    pub fn toggle_sort(&mut self, sort_by: SortBy, now: FileTime) -> (r: bool)
        ensures
            sort_toggled(*old(self), *final(self), sort_by, now, r),
    {
        if self.sort_by == sort_by {
            self.sort_order = self.sort_order.flip();
        } else {
            self.sort_by = sort_by;
            self.sort_order = SortOrder::Asc;
        }
        self.selected_index = 0;
        if !self.is_remote() {
            return true;
        }
        let items = drop_parent_line(&self.files);
        let full = normalized_remote_path(self.path.as_str());
        let has_parent = !same_text(full.as_str(), "/");
        self.files = listing(has_parent, now, items, self.sort_by, self.sort_order);
        self.finalize_load();
        false
    }
}

fn drop_parent_line(files: &Vec<FileItem>) -> (r: Vec<FileItem>)
    ensures
        r@ == without_parent_line(files@),
{
    let mut r: Vec<FileItem> = Vec::new();
    let mut i: usize = 0;
    assert(files@.take(0) == Seq::<FileItem>::empty());
    while i < files.len()
        invariant
            i <= files@.len(),
            r@ == without_parent_line(files@.take(i as int)),
        decreases files@.len() - i,
    {
        assert(files@.take(i + 1).drop_last() == files@.take(i as int));
        assert(files@.take(i + 1).last() == files@[i as int]);
        if !same_text(files[i].name.as_str(), "..") {
            r.push(files[i].clone());
        }
        i += 1;
    }
    assert(files@.take(i as int) == files@);
    r
}

/// Choosing the sort in use twice ends with the same sort and direction.
pub proof fn law_turning_round_twice(order: SortOrder)
    ensures
        order.flipped().flipped() == order,
{
}

proof fn lemma_line_of(files: Seq<FileItem>, name: Seq<char>, from: int, at: int)
    requires
        0 <= from <= at < files.len(),
        files[at].name@ == name,
    ensures
        from <= line_of(files, name, from) <= at,
        files[line_of(files, name, from)].name@ == name,
    decreases at - from,
{
    if files[from].name@ != name {
        lemma_line_of(files, name, from + 1, at);
    }
}

/// Once a listing was read, the cursor stands on the line that was asked for where
/// it is there.
pub proof fn law_focus_finds_its_line(
    files: Seq<FileItem>,
    name: Seq<char>,
    cursor: usize,
    at: int,
)
    requires
        0 <= at < files.len(),
        files[at].name@ == name,
    ensures
        ({
            let line = cursor_after_load(files, Some(name), cursor);
            0 <= line < files.len() && files[line].name@ == name
        }),
{
    lemma_line_of(files, name, 0, at);
}

/// Sorting a listing keeps every line: the same ones come out, each once.
pub proof fn law_sorting_keeps_the_lines(items: Seq<FileItem>, sort_by: SortBy, sort_order: SortOrder)
    ensures
        sorted_items(items, sort_by, sort_order).len() == items.len(),
        sorted_items(items, sort_by, sort_order).to_multiset() == items.to_multiset(),
{
    let all = Seq::new(items.len(), |i: int| i);
    assert(all.no_duplicates());
    let keys = item_keys(items, sort_by);
    let descending = sort_order == SortOrder::Desc;
    crate::ranking::law_arranged_is_ordered_rearrangement(keys, descending, all);
    let order = arranged(keys, descending, all);
    lemma_rearranged(items, all, order);
    let f = |k: int| items[k];
    assert(Seq::new(order.len(), |k: int| items[order[k]]) == order.map_values(f));
    assert(items == all.map_values(f));
}

proof fn lemma_rearranged(items: Seq<FileItem>, a: Seq<int>, b: Seq<int>)
    requires
        a.to_multiset() == b.to_multiset(),
    ensures
        a.map_values(|k: int| items[k]).to_multiset() == b.map_values(
            |k: int| items[k],
        ).to_multiset(),
    decreases a.len(),
{
    broadcast use vstd::seq_lib::group_to_multiset_ensures;

    let f = |k: int| items[k];
    assert(a.to_multiset().len() == a.len());
    assert(b.to_multiset().len() == b.len());
    if a.len() == 0 {
        assert(a.map_values(f) == b.map_values(f));
    } else {
        let x = a.last();
        assert(a.to_multiset().count(x) > 0);
        assert(b.contains(x));
        let m = choose|m: int| 0 <= m < b.len() && b[m] == x;
        let rest = a.drop_last();
        let cut = b.remove(m);
        assert(a == rest.push(x));
        assert(rest.to_multiset() == a.to_multiset().remove(x)) by {
            assert(rest.push(x).to_multiset() == rest.to_multiset().insert(x));
            assert(rest.to_multiset().insert(x).remove(x) == rest.to_multiset());
        }
        assert(cut.to_multiset() == b.to_multiset().remove(x));
        lemma_rearranged(items, rest, cut);
        assert(a.map_values(f) == rest.map_values(f).push(f(x)));
        assert(b.map_values(f).remove(m) == cut.map_values(f));
        assert(b.map_values(f)[m] == f(x));
        let whole = b.map_values(f);
        assert(whole.remove(m).to_multiset() == whole.to_multiset().remove(whole[m]));
        assert(whole.to_multiset().count(whole[m]) > 0) by {
            assert(whole.contains(whole[m]));
        }
        assert(whole.to_multiset() == whole.remove(m).to_multiset().insert(f(x)));
    }
}

/// A listing begins with the way up where there is one, and holds every item once and
/// nothing else.
pub proof fn law_listing_holds_the_items(
    files: Seq<FileItem>,
    has_parent: bool,
    now: FileTime,
    items: Seq<FileItem>,
    sort_by: SortBy,
    sort_order: SortOrder,
)
    requires
        is_listing(files, has_parent, now, items, sort_by, sort_order),
    ensures
        has_parent ==> {
            &&& files.len() == items.len() + 1
            &&& files[0].name@ == ".."@
            &&& files[0].is_directory
            &&& !files[0].is_symlink
            &&& files[0].size == 0
            &&& files[0].modified == now
            &&& files.skip(1).to_multiset() == items.to_multiset()
        },
        !has_parent ==> files.to_multiset() == items.to_multiset(),
{
    law_sorting_keeps_the_lines(items, sort_by, sort_order);
    if has_parent {
        assert(files.skip(1) =~= sorted_items(items, sort_by, sort_order));
    }
}

/// The way up is taken out before a listing is sorted anew, and nothing else is.
pub proof fn law_way_up_is_taken_out(files: Seq<FileItem>, first: FileItem)
    requires
        first.name@ == ".."@,
        forall|i: int| 0 <= i < files.len() ==> (#[trigger] files[i]).name@ != ".."@,
    ensures
        without_parent_line(files) == files,
        without_parent_line(seq![first] + files) == files,
    decreases files.len(),
{
    let whole = seq![first] + files;
    if files.len() == 0 {
        assert(files =~= Seq::empty());
        assert(whole.drop_last() =~= Seq::empty());
        reveal_with_fuel(without_parent_line, 2);
    } else {
        let rest = files.drop_last();
        assert forall|i: int| 0 <= i < rest.len() implies (#[trigger] rest[i]).name@ != ".."@ by {
            assert(rest[i] == files[i]);
        }
        law_way_up_is_taken_out(rest, first);
        assert(files.last() == files[files.len() - 1]);
        assert(whole.drop_last() =~= seq![first] + rest);
        assert(whole.last() == files.last());
        assert(rest.push(files.last()) =~= files);
    }
}

/// A line of a remote directory shows what the server said of it; a directory has no size.
pub proof fn law_remote_line_shows_its_entry(entries: Seq<SftpFileEntry>, i: int)
    requires
        0 <= i < entries.len(),
    ensures
        line_values(entries).len() == entries.len(),
        ({
            let line = line_values(entries)[i];
            let entry = entries[i];
            &&& line.name == entry.name
            &&& line.is_directory == entry.is_directory
            &&& line.is_symlink == entry.is_symlink
            &&& line.is_directory ==> line.size == 0
            &&& !line.is_directory ==> line.size == entry.size
            &&& line.modified == entry.modified
            &&& line.permissions == entry.permissions
            &&& line.display_name is None
        }),
{
}

/// The cursor goes to the first line with the name that is asked for; where there is none
/// it stays, or goes to the last line where the list became shorter.
pub proof fn law_cursor_after_a_listing(
    files: Seq<FileItem>,
    focus: Option<Seq<char>>,
    cursor: usize,
)
    requires
        files.len() > 0,
    ensures
        ({
            let line = cursor_after_load(files, focus, cursor);
            let found = exists|i: int|
                0 <= i < files.len() && focus == Some((#[trigger] files[i]).name@);
            &&& 0 <= line < files.len()
            &&& found ==> focus == Some(files[line].name@) && forall|i: int|
                0 <= i < line ==> focus != Some((#[trigger] files[i]).name@)
            &&& !found && cursor < files.len() ==> line == cursor
            &&& !found && cursor >= files.len() ==> line == files.len() - 1
        }),
{
    if let Some(name) = focus {
        lemma_first_line(files, name, 0);
    }
}

proof fn lemma_first_line(files: Seq<FileItem>, name: Seq<char>, from: int)
    requires
        0 <= from,
    ensures
        ({
            let line = line_of(files, name, from);
            &&& line >= 0 ==> from <= line < files.len() && files[line].name@ == name && forall|i:
                int|
                from <= i < line ==> (#[trigger] files[i]).name@ != name
            &&& line < 0 ==> line == -1 && forall|i: int|
                from <= i < files.len() ==> (#[trigger] files[i]).name@ != name
        }),
    decreases files.len() - from,
{
    if from < files.len() && files[from].name@ != name {
        lemma_first_line(files, name, from + 1);
    }
}

/// The cursor moves by as many lines as asked for and stops at the ends.
pub proof fn law_cursor_moves_inside_the_list(index: usize, delta: i32, count: nat)
    requires
        count > 0,
    ensures
        0 <= moved_cursor(index, delta, count) < count,
        0 <= index + delta < count ==> moved_cursor(index, delta, count) == index + delta,
        index + delta < 0 ==> moved_cursor(index, delta, count) == 0,
        index + delta >= count ==> moved_cursor(index, delta, count) == count - 1,
{
}

/// Choosing another column sorts by it in ascending order; choosing the same one turns the
/// order round. A panel of this machine is read anew with the cursor on top, a remote one
/// is sorted as it is.
pub proof fn law_choosing_a_column(
    before: PanelState,
    after: PanelState,
    sort_by: SortBy,
    now: FileTime,
    read: bool,
)
    requires
        sort_toggled(before, after, sort_by, now, read),
    ensures
        after.sort_by == sort_by,
        before.sort_by != sort_by ==> after.sort_order == SortOrder::Asc,
        before.sort_by == sort_by ==> after.sort_order != before.sort_order,
        read <==> before.remote_ctx is None && before.remote_display is None,
        read ==> after.selected_index == 0 && after.files == before.files,
        after.path == before.path,
        after.selected_files == before.selected_files,
        !read && (forall|i: int|
            0 <= i < before.files@.len() ==> (#[trigger] before.files@[i]).name@ != ".."@)
            && normalized(before.path@) == "/"@ ==> after.files@.to_multiset()
            == before.files@.to_multiset(),
{
    if !read && (forall|i: int|
        0 <= i < before.files@.len() ==> (#[trigger] before.files@[i]).name@ != ".."@)
        && normalized(before.path@) == "/"@ {
        lemma_no_way_up(before.files@);
        law_listing_holds_the_items(
            after.files@,
            false,
            now,
            before.files@,
            after.sort_by,
            after.sort_order,
        );
    }
}

proof fn lemma_no_way_up(files: Seq<FileItem>)
    requires
        forall|i: int| 0 <= i < files.len() ==> (#[trigger] files[i]).name@ != ".."@,
    ensures
        without_parent_line(files) == files,
    decreases files.len(),
{
    if files.len() > 0 {
        let rest = files.drop_last();
        assert forall|i: int| 0 <= i < rest.len() implies (#[trigger] rest[i]).name@ != ".."@ by {
            assert(rest[i] == files[i]);
        }
        lemma_no_way_up(rest);
        assert(files.last() == files[files.len() - 1]);
        assert(rest.push(files.last()) =~= files);
    }
}

/// A panel is remote exactly where it is connected or shown as remote, and then names the
/// machine that it is on.
pub proof fn law_remote_panel_names_its_machine(panel: PanelState, shown: String)
    ensures
        panel.remote() <==> panel.endpoint() is Some,
        panel.remote_ctx matches Some(ctx) ==> panel.endpoint() == Some(
            RemoteEndpoint {
                user: ctx.profile.user,
                host: ctx.profile.host,
                port: ctx.profile.port,
            },
        ),
        panel.remote_ctx is None ==> panel.endpoint() == panel.remote_display,
        panel.remote() ==> panel.shown_as(shown) == shown,
        !panel.remote() ==> panel.shown_as(shown) == panel.path,
        panel.current() is Some <==> panel.selected_index < panel.files@.len(),
        panel.current() matches Some(item) ==> item == panel.files@[panel.selected_index as int],
{
}

/// Reading a local directory shows what was found, or only the way up where it could not be
/// read, and the space on the disk; what the cursor was to go to is forgotten.
pub proof fn law_local_listing_is_taken_in(
    before: PanelState,
    after: PanelState,
    items: Option<Vec<FileItem>>,
    now: FileTime,
    disk: (u64, u64),
)
    requires
        lists_local(before, after, items, now, disk),
    ensures
        after.path == before.path,
        after.sort_by == before.sort_by,
        after.sort_order == before.sort_order,
        after.selected_files == before.selected_files,
        after.remote_ctx == before.remote_ctx,
        after.pending_focus is None,
        !before.remote() ==> after.disk_total == disk.0 && after.disk_available == disk.1,
        before.remote() ==> after.disk_total == 0 && after.disk_available == 0,
        items matches Some(list) ==> is_listing(
            after.files@,
            local_parent(before.path@) is Some,
            now,
            list@,
            before.sort_by,
            before.sort_order,
        ),
        items is None ==> after.files@.len() == if local_parent(before.path@) is Some { 1int } else { 0 },
{
    if items is None {
        law_sorting_keeps_the_lines(Seq::empty(), before.sort_by, before.sort_order);
    }
}

/// A panel whose session answered is connected and shows the answer; one whose session failed
/// is disconnected with the error, and shows no entries.
pub proof fn law_remote_answer_is_taken_in(
    before: PanelState,
    after: PanelState,
    answer: Result<Vec<SftpFileEntry>, String>,
    now: FileTime,
)
    requires
        lists_remote(before, after, answer, now),
    ensures
        after.path == before.path,
        after.selected_files == before.selected_files,
        before.remote_ctx is None ==> after.remote_ctx is None,
        before.remote_ctx is Some && answer is Ok ==> after.remote_ctx is Some
            && after.remote_ctx->0.status is Connected,
        before.remote_ctx is Some && answer is Err ==> after.remote_ctx is Some
            && after.remote_ctx->0.status == ConnectionStatus::Disconnected(answer->Err_0),
        before.remote_ctx is Some && answer is Ok ==> is_listing(
            after.files@,
            normalized(before.path@) != "/"@,
            now,
            line_values(answer->Ok_0@),
            before.sort_by,
            before.sort_order,
        ),
        before.remote_ctx is Some ==> after.remote_ctx->0.profile == before.remote_ctx->0.profile,
{
}

/// A remote directory that is shown is the one that was asked for; its session stays.
pub proof fn law_shown_entries_are_those_asked_for(
    before: PanelState,
    after: PanelState,
    entries: Seq<SftpFileEntry>,
    path: String,
    now: FileTime,
)
    requires
        shows_entries(before, after, entries, path, now),
    ensures
        after.path == path,
        after.remote_ctx == before.remote_ctx,
        after.selected_files == before.selected_files,
        after.pending_focus is None,
        is_listing(
            after.files@,
            normalized(path@) != "/"@,
            now,
            line_values(entries),
            before.sort_by,
            before.sort_order,
        ),
{
}

} // verus!
