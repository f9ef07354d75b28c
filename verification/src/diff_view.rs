//! What the comparison screen says and how it looks: the texts of its bars and
//! rows, and which of them stand out.

use crate::diff_state::DiffState;
use crate::diff_types::{CompareMethod, DiffEntry, DiffFileInfo, DiffFilter, DiffStatus};
use crate::text::{chars_of, concat2, concat3, concat4, concat5, decimal, number_text, string_of};
use vstd::prelude::*;

verus! {

/// The columns of a size and of a date.
pub const SIZE_COLUMN: usize = 10;

pub const DATE_COLUMN: usize = 12;

/// How many columns a terminal needs for a text.
pub uninterp spec fn display_width(text: Seq<char>) -> nat;

/// `unicode_width::UnicodeWidthStr::width`: how many columns a text takes on a
/// terminal, by the tables of that crate.
#[verifier::external_body]
fn width_of(text: &str) -> (r: usize)
    ensures
        r == display_width(text@),
{
    unicode_width::UnicodeWidthStr::width(text)
}

/// A text of the given width, or its end where it does not fit.
pub open spec fn fitted(text: Seq<char>, width: nat, limit: nat, end: Seq<char>) -> Seq<char> {
    if width > limit {
        "..."@ + end
    } else {
        text
    }
}

/// A text of the given width, or its end where it does not fit.
pub fn fit_text(text: &str, width: usize, limit: usize, end: &str) -> (r: String)
    ensures
        r@ == fitted(text@, width as nat, limit as nat, end@),
{
    if width > limit {
        concat2("...", end)
    } else {
        text.to_owned()
    }
}

/// A text, or `end` behind dots where it needs more columns than there are.
pub fn shorten(text: &str, limit: usize, end: &str) -> (r: String)
    ensures
        r@ == fitted(text@, display_width(text@), limit as nat, end@),
{
    fit_text(text, width_of(text), limit, end)
}

/// How many columns of the header each of the two roots has.
pub fn header_columns(width: usize) -> (r: usize)
    ensures
        r == header_share(width as int),
{
    if width > 12 {
        (width - 12) / 2
    } else {
        0
    }
}

/// Whether a character controls the terminal.
pub open spec fn is_control(c: char) -> bool {
    (c as u32) < 0x20 || (0x7f <= c as u32 && (c as u32) < 0xa0)
}

/// A message without characters that control the terminal.
pub open spec fn harmless(text: Seq<char>) -> Seq<char> {
    Seq::new(
        text.len(),
        |i: int|
            if is_control(text[i]) {
                ' '
            } else {
                text[i]
            },
    )
}

/// A message without characters that control the terminal.
pub fn sanitize_message(message: &str) -> (r: String)
    ensures
        r@ == harmless(message@),
{
    let v = chars_of(message);
    let mut out: Vec<char> = Vec::new();
    let mut i: usize = 0;
    while i < v.len()
        invariant
            i <= v@.len(),
            v@ == message@,
            out@ == harmless(message@).take(i as int),
        decreases v@.len() - i,
    {
        let c = v[i];
        let code: u32 = c as u32;
        let control = code < 0x20 || (0x7f <= code && code < 0xa0);
        out.push(if control { ' ' } else { c });
        assert(out@ =~= harmless(message@).take(i + 1));
        i += 1;
    }
    assert(harmless(message@).take(i as int) =~= harmless(message@));
    string_of(&out)
}

/// Nothing that a message holds can control the terminal once it was made
/// harmless.
pub proof fn law_message_has_no_control_characters(text: Seq<char>)
    ensures
        forall|i: int| 0 <= i < harmless(text).len() ==> !is_control(#[trigger] harmless(text)[i]),
{
}

/// Spaces.
pub open spec fn blanks(n: nat) -> Seq<char> {
    Seq::new(n, |i: int| ' ')
}

/// A text filled up with spaces behind it.
pub open spec fn filled_right(text: Seq<char>, width: nat) -> Seq<char> {
    if text.len() < width {
        text + blanks((width - text.len()) as nat)
    } else {
        text
    }
}

/// A text filled up with spaces before it.
pub open spec fn filled_left(text: Seq<char>, width: nat) -> Seq<char> {
    if text.len() < width {
        blanks((width - text.len()) as nat) + text
    } else {
        text
    }
}

fn spaces(n: usize) -> (r: String)
    ensures
        r@ == blanks(n as nat),
{
    let mut v: Vec<char> = Vec::new();
    let mut i: usize = 0;
    while i < n
        invariant
            i <= n,
            v@ == blanks(i as nat),
        decreases n - i,
    {
        v.push(' ');
        assert(v@ =~= blanks((i + 1) as nat));
        i += 1;
    }
    string_of(&v)
}

/// A text filled up with spaces behind it.
pub fn fill_right(text: &str, width: usize) -> (r: String)
    ensures
        r@ == filled_right(text@, width as nat),
{
    let length: usize = chars_of(text).len();
    if length < width {
        let rest = spaces(width - length);
        concat2(text, rest.as_str())
    } else {
        text.to_owned()
    }
}

/// A text filled up with spaces before it.
pub fn fill_left(text: &str, width: usize) -> (r: String)
    ensures
        r@ == filled_left(text@, width as nat),
{
    let length: usize = chars_of(text).len();
    if length < width {
        let rest = spaces(width - length);
        concat2(rest.as_str(), text)
    } else {
        text.to_owned()
    }
}

/// The columns that a name has in a part of the screen.
pub open spec fn name_columns(width: nat, gaps: nat) -> nat {
    if width > SIZE_COLUMN + DATE_COLUMN + gaps {
        (width - (SIZE_COLUMN + DATE_COLUMN + gaps)) as nat
    } else {
        0
    }
}

/// The columns that a name has in a part of the screen.
pub fn columns_of_name(width: usize, gaps: usize) -> (r: usize)
    ensures
        r == name_columns(width as nat, gaps as nat),
{
    let others: usize = SIZE_COLUMN + DATE_COLUMN;
    if width > others && width - others > gaps {
        width - others - gaps
    } else {
        0
    }
}

/// The heading over the columns of one side, before it is fitted.
pub open spec fn heading(width: nat) -> Seq<char> {
    " "@ + filled_right("Name"@, name_columns(width, 3)) + " "@ + filled_left(
        "Size"@,
        SIZE_COLUMN as nat,
    ) + " "@ + filled_left("Date"@, DATE_COLUMN as nat)
}

/// The heading over the columns of one side, before it is fitted.
pub fn column_heading(width: usize) -> (r: String)
    ensures
        r@ == heading(width as nat),
{
    let name = fill_right("Name", columns_of_name(width, 3));
    let size = fill_left("Size", SIZE_COLUMN);
    let date = fill_left("Date", DATE_COLUMN);
    let head = concat5(" ", name.as_str(), " ", size.as_str(), " ");
    concat2(head.as_str(), date.as_str())
}

/// The heading over the columns of one side; `end` is its end where it does not
/// fit.
pub fn fitted_heading(width: usize, end: &str) -> (r: String)
    ensures
        r@ == if display_width(heading(width as nat)) > width {
            "..."@ + end@
        } else {
            filled_right(heading(width as nat), width as nat)
        },
{
    let text = column_heading(width);
    if width_of(text.as_str()) > width {
        concat2("...", end)
    } else {
        fill_right(text.as_str(), width)
    }
}

/// What the status bar says while something is being compared.
pub open spec fn comparing_text(count: nat, total: nat) -> Seq<char> {
    if count == 0 {
        if total > 0 {
            " Counting files... ("@ + decimal(total) + ")"@
        } else {
            " Counting files..."@
        }
    } else {
        " Comparing... "@ + decimal(count) + "/"@ + decimal(total)
    }
}

/// How many rows have the status.
pub open spec fn rows_with(entries: Seq<DiffEntry>, status: DiffStatus) -> nat
    decreases entries.len(),
{
    if entries.len() == 0 {
        0
    } else {
        rows_with(entries.drop_last(), status) + if entries.last().status == status {
            1nat
        } else {
            0nat
        }
    }
}

fn count_rows_with(entries: &Vec<DiffEntry>, status: DiffStatus) -> (r: usize)
    ensures
        r == rows_with(entries@, status),
        r <= entries@.len(),
{
    let mut n: usize = 0;
    let mut i: usize = 0;
    while i < entries.len()
        invariant
            i <= entries@.len(),
            n <= i,
            n == rows_with(entries@.take(i as int), status),
        decreases entries@.len() - i,
    {
        assert(entries@.take(i + 1).drop_last() =~= entries@.take(i as int));
        if entries[i].status == status {
            n += 1;
        }
        i += 1;
    }
    assert(entries@.take(i as int) =~= entries@);
    n
}

proof fn lemma_two_statuses(entries: Seq<DiffEntry>, a: DiffStatus, b: DiffStatus)
    requires
        a != b,
    ensures
        rows_with(entries, a) + rows_with(entries, b) <= entries.len(),
    decreases entries.len(),
{
    if entries.len() > 0 {
        lemma_two_statuses(entries.drop_last(), a, b);
    }
}

/// The name of a filter on the status bar.
pub open spec fn filter_name(filter: DiffFilter) -> Seq<char> {
    match filter {
        DiffFilter::All => "All"@,
        DiffFilter::DifferentOnly => "Different Only"@,
        DiffFilter::LeftOnly => "Left Only"@,
        DiffFilter::RightOnly => "Right Only"@,
    }
}

/// The name of a way to compare on the status bar.
pub open spec fn method_name(method: CompareMethod) -> Seq<char> {
    match method {
        CompareMethod::Content => "Content"@,
        CompareMethod::ModifiedTime => "Modified Time"@,
        CompareMethod::ContentAndTime => "Content + Time"@,
    }
}

/// What the status bar says of a comparison.
pub open spec fn status_text(state: DiffState) -> Seq<char> {
    let entries = state.all_entries@;
    let different = rows_with(entries, DiffStatus::Modified) + rows_with(
        entries,
        DiffStatus::DirModified,
    );
    let marked = state.selected_files@.len();
    " Filter: "@ + filter_name(state.filter) + " | Compare: "@ + method_name(state.compare_method)
        + " | Total: "@ + decimal(entries.len()) + " Different: "@ + decimal(different) + " Left: "@
        + decimal(rows_with(entries, DiffStatus::LeftOnly)) + " Right: "@ + decimal(
        rows_with(entries, DiffStatus::RightOnly),
    ) + if marked > 0 {
        " | Selected: "@ + decimal(marked)
    } else {
        Seq::empty()
    }
}

/// How a row looks on one side.
#[derive(Debug, Clone, Copy, PartialEq, Eq, Structural)]
pub enum EntryLook {
    /// Nothing is on this side.
    Empty,
    Same,
    Modified,
    LeftOnly,
    RightOnly,
    DirModified,
    DirSame,
}

/// How a row looks on one side.
pub open spec fn look_of(status: DiffStatus, has_info: bool, is_left: bool) -> EntryLook {
    if !has_info {
        EntryLook::Empty
    } else {
        match status {
            DiffStatus::Same => EntryLook::Same,
            DiffStatus::Modified => EntryLook::Modified,
            DiffStatus::LeftOnly => if is_left {
                EntryLook::LeftOnly
            } else {
                EntryLook::Empty
            },
            DiffStatus::RightOnly => if is_left {
                EntryLook::Empty
            } else {
                EntryLook::RightOnly
            },
            DiffStatus::DirModified => EntryLook::DirModified,
            DiffStatus::DirSame => EntryLook::DirSame,
        }
    }
}

/// How a row looks on one side.
pub fn get_entry_look(status: DiffStatus, has_info: bool, is_left: bool) -> (r: EntryLook)
    ensures
        r == look_of(status, has_info, is_left),
{
    if !has_info {
        return EntryLook::Empty;
    }
    match status {
        DiffStatus::Same => EntryLook::Same,
        DiffStatus::Modified => EntryLook::Modified,
        DiffStatus::LeftOnly => if is_left { EntryLook::LeftOnly } else { EntryLook::Empty },
        DiffStatus::RightOnly => if is_left { EntryLook::Empty } else { EntryLook::RightOnly },
        DiffStatus::DirModified => EntryLook::DirModified,
        DiffStatus::DirSame => EntryLook::DirSame,
    }
}

/// The colour behind the row under the cursor.
#[derive(Debug, Clone, Copy, PartialEq, Eq, Structural)]
pub enum CursorLook {
    Modified,
    OneSided,
    Plain,
}

/// How the row under the cursor looks.
pub open spec fn cursor_look_of(status: DiffStatus) -> CursorLook {
    match status {
        DiffStatus::Modified | DiffStatus::DirModified => CursorLook::Modified,
        DiffStatus::LeftOnly | DiffStatus::RightOnly => CursorLook::OneSided,
        DiffStatus::Same | DiffStatus::DirSame => CursorLook::Plain,
    }
}

/// The colour behind the row under the cursor.
pub fn cursor_look(status: DiffStatus) -> (r: CursorLook)
    ensures
        r == cursor_look_of(status),
{
    match status {
        DiffStatus::Modified | DiffStatus::DirModified => CursorLook::Modified,
        DiffStatus::LeftOnly | DiffStatus::RightOnly => CursorLook::OneSided,
        DiffStatus::Same | DiffStatus::DirSame => CursorLook::Plain,
    }
}

/// The name of a row on one side, with its mark, set in by its depth.
pub open spec fn row_name(marked: bool, depth: nat, collapsed: bool, info: DiffFileInfo) -> Seq<char> {
    let start = (if marked {
        "*"@
    } else {
        " "@
    }) + blanks(2 * depth);
    if info.is_directory {
        start + (if collapsed {
            "\u{25B6}"@
        } else {
            "\u{25BC}"@
        }) + " "@ + info.name@ + "/"@
    } else {
        start + "  "@ + info.name@
    }
}

impl DiffState {
    /// What the status bar says while something is being compared.
    pub fn comparing_status(&self) -> (r: String)
        ensures
            r@ == comparing_text(self.progress_count as nat, self.progress_total as nat),
    {
        let total = number_text(self.progress_total as u64);
        if self.progress_count == 0 {
            if self.progress_total > 0 {
                concat3(" Counting files... (", total.as_str(), ")")
            } else {
                " Counting files...".to_owned()
            }
        } else {
            let count = number_text(self.progress_count as u64);
            concat4(" Comparing... ", count.as_str(), "/", total.as_str())
        }
    }

    /// What the status bar says of a comparison.
    pub fn status_bar(&self) -> (r: String)
        ensures
            r@ == status_text(*self),
    {
        proof {
            lemma_two_statuses(
                self.all_entries@,
                DiffStatus::Modified,
                DiffStatus::DirModified,
            );
        }
        let files: usize = count_rows_with(&self.all_entries, DiffStatus::Modified);
        let dirs: usize = count_rows_with(&self.all_entries, DiffStatus::DirModified);
        let left: usize = count_rows_with(&self.all_entries, DiffStatus::LeftOnly);
        let right: usize = count_rows_with(&self.all_entries, DiffStatus::RightOnly);
        let marked: usize = self.selected_files.len();
        let count: usize = self.all_entries.len();
        let total = number_text(count as u64);
        let different = number_text((files + dirs) as u64);
        let left = number_text(left as u64);
        let right = number_text(right as u64);
        let names = concat4(
            " Filter: ",
            self.filter.display_name(),
            " | Compare: ",
            self.compare_method.display_name(),
        );
        let counts = concat5(
            names.as_str(),
            " | Total: ",
            total.as_str(),
            " Different: ",
            different.as_str(),
        );
        let sides = concat5(counts.as_str(), " Left: ", left.as_str(), " Right: ", right.as_str());
        let marks = if marked > 0 {
            let number = number_text(marked as u64);
            concat2(" | Selected: ", number.as_str())
        } else {
            String::new()
        };
        let r = concat2(sides.as_str(), marks.as_str());
        assert(r@ =~= status_text(*self));
        r
    }

    /// The rows in a view of the given height.
    pub fn visible_rows(&self, height: usize) -> (r: Vec<usize>)
        ensures
            r@ == rows_in_view(self.filtered_indices@, self.scroll_offset as int, height as int),
    {
        let mut r: Vec<usize> = Vec::new();
        let count: usize = self.filtered_indices.len();
        let start: usize = if self.scroll_offset < count { self.scroll_offset } else { count };
        let end: usize = if height < count - start { start + height } else { count };
        let ghost all = self.filtered_indices@;
        let mut i: usize = start;
        while i < end
            invariant
                start <= i <= end <= all.len(),
                all == self.filtered_indices@,
                r@ == all.subrange(start as int, i as int),
            decreases end - i,
        {
            r.push(self.filtered_indices[i]);
            assert(r@ =~= all.subrange(start as int, i + 1));
            i += 1;
        }
        r
    }

    /// The name of a row on one side, as it is shown.
    pub fn row_label(&self, entry: &DiffEntry, info: &DiffFileInfo) -> (r: String)
        requires
            entry.depth <= usize::MAX / 2,
        ensures
            r@ == row_name(
                self.selected_files@.contains(entry.relative_path@),
                entry.depth as nat,
                self.collapsed_dirs@.contains(entry.relative_path@),
                *info,
            ),
    {
        let mark = if self.selected_files.contains(entry.relative_path.as_str()) { "*" } else { " " };
        let indent = spaces(2 * entry.depth);
        let start = concat2(mark, indent.as_str());
        let r = if info.is_directory {
            let sign = if self.collapsed_dirs.contains(entry.relative_path.as_str()) {
                "\u{25B6}"
            } else {
                "\u{25BC}"
            };
            concat5(start.as_str(), sign, " ", info.name.as_str(), "/")
        } else {
            concat3(start.as_str(), "  ", info.name.as_str())
        };
        r
    }
}

/// What the bottom line of the comparison screen shows.
#[derive(Debug)]
pub enum BottomBar {
    /// A message, ready to be shown.
    Message(String),
    /// The key that stops the comparison.
    CancelKey,
    /// The keys of the screen.
    Shortcuts,
}

impl DiffState {
    /// What the bottom line shows: a message comes before the keys, and while
    /// comparing there is only one key.
    pub fn bottom_bar(&self, message: Option<&str>) -> (r: BottomBar)
        ensures
            match message {
                Some(text) => r matches BottomBar::Message(shown) && shown@ == harmless(text@),
                None => if self.is_comparing {
                    r is CancelKey
                } else {
                    r is Shortcuts
                },
            },
    {
        match message {
            Some(text) => BottomBar::Message(sanitize_message(text)),
            None => if self.is_comparing {
                BottomBar::CancelKey
            } else {
                BottomBar::Shortcuts
            },
        }
    }
}

/// The keys of the comparison screen, as the user knows them.
#[derive(Debug)]
pub struct ScreenKeys {
    pub up: String,
    pub down: String,
    pub expand: String,
    pub collapse: String,
    pub open: String,
    pub copy: String,
    pub delete: String,
    pub expand_all: String,
    pub collapse_all: String,
    pub filter: String,
    pub by_name: String,
    pub by_size: String,
    pub by_date: String,
    pub by_type: String,
    pub close: String,
}

/// A key and what it does.
#[derive(Debug)]
pub struct Shortcut {
    pub key: String,
    pub label: String,
}

/// Keys and what they do, as text.
pub open spec fn shortcut_views(list: Seq<Shortcut>) -> Seq<(Seq<char>, Seq<char>)> {
    Seq::new(list.len(), |i: int| (list[i].key@, list[i].label@))
}

/// The shortcuts of the comparison screen, from left to right.
pub open spec fn shortcuts_of(keys: ScreenKeys) -> Seq<(Seq<char>, Seq<char>)> {
    seq![
        (keys.up@ + "/"@ + keys.down@, "nav "@),
        (keys.expand@, ":open "@),
        (keys.collapse@, ":close "@),
        (keys.open@, ":view "@),
        (keys.copy@, ":copy "@),
        (keys.delete@, ":delete "@),
        (keys.expand_all@, ":expand "@),
        (keys.collapse_all@, ":collapse "@),
        (keys.filter@, ":filter "@),
        (keys.by_name@, "ame "@),
        (keys.by_size@, "ize "@),
        (keys.by_date@, "ate "@),
        (keys.by_type@, ":type "@),
        (keys.close@, ":back"@),
    ]
}

fn shortcut(key: String, label: &str) -> (r: Shortcut)
    ensures
        r.key@ == key@,
        r.label@ == label@,
{
    Shortcut { key, label: label.to_owned() }
}

/// The shortcuts of the comparison screen, from left to right.
pub fn function_bar(keys: ScreenKeys) -> (r: Vec<Shortcut>)
    ensures
        shortcut_views(r@) == shortcuts_of(keys),
{
    let mut r: Vec<Shortcut> = Vec::new();
    r.push(shortcut(concat3(keys.up.as_str(), "/", keys.down.as_str()), "nav "));
    r.push(shortcut(keys.expand, ":open "));
    r.push(shortcut(keys.collapse, ":close "));
    r.push(shortcut(keys.open, ":view "));
    r.push(shortcut(keys.copy, ":copy "));
    r.push(shortcut(keys.delete, ":delete "));
    r.push(shortcut(keys.expand_all, ":expand "));
    r.push(shortcut(keys.collapse_all, ":collapse "));
    r.push(shortcut(keys.filter, ":filter "));
    r.push(shortcut(keys.by_name, "ame "));
    r.push(shortcut(keys.by_size, "ize "));
    r.push(shortcut(keys.by_date, "ate "));
    r.push(shortcut(keys.by_type, ":type "));
    r.push(shortcut(keys.close, ":back"));
    assert(shortcut_views(r@) =~= shortcuts_of(keys));
    r
}

/// The rows in a view that begins behind `offset` rows.
pub open spec fn rows_in_view(rows: Seq<usize>, offset: int, height: int) -> Seq<usize> {
    let start = if offset < rows.len() {
        offset
    } else {
        rows.len() as int
    };
    let end = if height < rows.len() - start {
        start + height
    } else {
        rows.len() as int
    };
    rows.subrange(start, end)
}

/// A side without anything is empty. What is on one side only is told on that side and
/// is empty on the other, the two sides alike; any other status looks the same on both
/// sides, and no two statuses look the same.
pub proof fn law_look_tells_the_status(a: DiffStatus, b: DiffStatus, is_left: bool)
    ensures
        look_of(a, false, is_left) == EntryLook::Empty,
        look_of(DiffStatus::LeftOnly, true, true) == EntryLook::LeftOnly,
        look_of(DiffStatus::RightOnly, true, false) == EntryLook::RightOnly,
        look_of(DiffStatus::LeftOnly, true, false) == EntryLook::Empty,
        look_of(DiffStatus::RightOnly, true, true) == EntryLook::Empty,
        a != DiffStatus::LeftOnly && a != DiffStatus::RightOnly ==> look_of(a, true, true)
            == look_of(a, true, false) && look_of(a, true, true) != EntryLook::Empty,
        a != b && look_of(a, true, is_left) == look_of(b, true, is_left) ==> look_of(
            a,
            true,
            is_left,
        ) == EntryLook::Empty,
        cursor_look_of(a) == CursorLook::Plain <==> a == DiffStatus::Same || a == DiffStatus::DirSame,
        cursor_look_of(a) == CursorLook::OneSided <==> a == DiffStatus::LeftOnly || a
            == DiffStatus::RightOnly,
{
}

/// The rows in view are those from the scroll offset on, as many as fit.
pub proof fn law_view_begins_at_its_offset(rows: Seq<usize>, offset: int, height: int)
    requires
        0 <= offset,
        0 <= height,
    ensures
        rows_in_view(rows, offset, height).len() <= height,
        offset <= rows.len() ==> rows_in_view(rows, offset, height).len() == if rows.len() - offset
            < height {
            rows.len() - offset
        } else {
            height
        },
        offset >= rows.len() ==> rows_in_view(rows, offset, height).len() == 0,
        forall|i: int|
            0 <= i < rows_in_view(rows, offset, height).len() ==> (#[trigger] rows_in_view(
                rows,
                offset,
                height,
            )[i]) == rows[offset + i],
{
}

/// Filling a text up to a width adds blanks on one side only, and just enough.
pub proof fn law_filled_text_has_its_width(text: Seq<char>, width: nat)
    ensures
        filled_right(text, width).len() == if text.len() < width {
            width
        } else {
            text.len()
        },
        filled_left(text, width).len() == filled_right(text, width).len(),
        text.is_prefix_of(filled_right(text, width)),
        text.is_suffix_of(filled_left(text, width)),
        forall|i: int|
            text.len() <= i < filled_right(text, width).len() ==> filled_right(text, width)[i]
                == ' ',
        forall|i: int|
            0 <= i < filled_left(text, width).len() - text.len() ==> filled_left(text, width)[i]
                == ' ',
{
    let right = filled_right(text, width);
    let left = filled_left(text, width);
    assert(right.subrange(0, text.len() as int) =~= text);
    assert(left.subrange(left.len() - text.len(), left.len() as int) =~= text);
}

/// The columns of a line, with the gaps between them, make up its width.
pub proof fn law_columns_fill_the_line(width: nat, gaps: nat)
    ensures
        width >= SIZE_COLUMN + DATE_COLUMN + gaps ==> name_columns(width, gaps) + SIZE_COLUMN
            + DATE_COLUMN + gaps == width,
        width <= SIZE_COLUMN + DATE_COLUMN + gaps ==> name_columns(width, gaps) == 0,
{
}

/// The label of a row begins with a star exactly where it is marked, is moved in by two
/// columns for each level, and ends with the name; a directory's has a slash behind it.
pub proof fn law_label_of_a_row(
    marked: bool,
    depth: nat,
    collapsed: bool,
    info: DiffFileInfo,
)
    ensures
        ({
            let label = row_name(marked, depth, collapsed, info);
            &&& label[0] == if marked {
                '*'
            } else {
                ' '
            }
            &&& label.len() == 1 + 2 * depth + (if info.is_directory {
                3int
            } else {
                2
            }) + info.name@.len()
            &&& forall|i: int| 1 <= i < 1 + 2 * depth ==> label[i] == ' '
            &&& info.is_directory ==> {
                &&& label.last() == '/'
                &&& label[1 + 2 * depth as int] == if collapsed {
                    '\u{25B6}'
                } else {
                    '\u{25BC}'
                }
                &&& info.name@.is_suffix_of(label.drop_last())
            }
            &&& !info.is_directory ==> info.name@.is_suffix_of(label)
        }),
{
    reveal_strlit("*");
    reveal_strlit(" ");
    reveal_strlit("  ");
    reveal_strlit("/");
    reveal_strlit("\u{25B6}");
    reveal_strlit("\u{25BC}");
    let label = row_name(marked, depth, collapsed, info);
    let n = info.name@.len();
    if info.is_directory {
        let short = label.drop_last();
        assert(short.subrange(short.len() - n, short.len() as int) =~= info.name@);
    } else {
        assert(label.subrange(label.len() - n, label.len() as int) =~= info.name@);
    }
}

/// Every row counts once, under its own status.
pub proof fn law_every_row_counts_once(entries: Seq<DiffEntry>)
    ensures
        rows_with(entries, DiffStatus::Same) + rows_with(entries, DiffStatus::Modified) + rows_with(
            entries,
            DiffStatus::LeftOnly,
        ) + rows_with(entries, DiffStatus::RightOnly) + rows_with(entries, DiffStatus::DirModified)
            + rows_with(entries, DiffStatus::DirSame) == entries.len(),
        forall|status: DiffStatus|
            #[trigger] rows_with(entries, status) == entries.filter(
                |e: DiffEntry| e.status == status,
            ).len(),
    decreases entries.len(),
{
    reveal(Seq::filter);
    if entries.len() > 0 {
        law_every_row_counts_once(entries.drop_last());
    }
}

/// The status bar tells how many rows there are, and how many of them differ on both
/// sides, are on the left only and on the right only; and how many are marked, if any.
pub proof fn law_status_bar_counts_the_rows(state: DiffState)
    ensures
        ({
            let entries = state.all_entries@;
            let different = entries.filter(|e: DiffEntry| e.status == DiffStatus::Modified).len()
                + entries.filter(|e: DiffEntry| e.status == DiffStatus::DirModified).len();
            let left = entries.filter(|e: DiffEntry| e.status == DiffStatus::LeftOnly).len();
            let right = entries.filter(|e: DiffEntry| e.status == DiffStatus::RightOnly).len();
            let counts = " | Total: "@ + decimal(entries.len()) + " Different: "@ + decimal(
                different,
            ) + " Left: "@ + decimal(left) + " Right: "@ + decimal(right);
            &&& state.selected_files@.len() == 0 ==> counts.is_suffix_of(status_text(state))
            &&& state.selected_files@.len() > 0 ==> (counts + " | Selected: "@ + decimal(
                state.selected_files@.len(),
            )).is_suffix_of(status_text(state))
        }),
{
    let entries = state.all_entries@;
    law_every_row_counts_once(entries);
    let different = rows_with(entries, DiffStatus::Modified) + rows_with(
        entries,
        DiffStatus::DirModified,
    );
    let counts = " | Total: "@ + decimal(entries.len()) + " Different: "@ + decimal(different)
        + " Left: "@ + decimal(rows_with(entries, DiffStatus::LeftOnly)) + " Right: "@ + decimal(
        rows_with(entries, DiffStatus::RightOnly),
    );
    let marked = if state.selected_files@.len() > 0 {
        " | Selected: "@ + decimal(state.selected_files@.len())
    } else {
        Seq::empty()
    };
    let head = " Filter: "@ + filter_name(state.filter) + " | Compare: "@ + method_name(
        state.compare_method,
    );
    let text = status_text(state);
    let tail = counts + marked;
    assert(text =~= head + tail);
    assert(text.subrange(text.len() - tail.len(), text.len() as int) =~= tail);
    assert(counts + Seq::<char>::empty() =~= counts);
    if state.selected_files@.len() > 0 {
        assert(tail =~= counts + " | Selected: "@ + decimal(state.selected_files@.len()));
    } else {
        assert(tail =~= counts);
    }
}

/// A text that is too wide gives way to dots; any other is shown as it is.
pub proof fn law_text_that_fits_is_kept(text: Seq<char>, width: nat, limit: nat, end: Seq<char>)
    ensures
        width <= limit ==> fitted(text, width, limit, end) == text,
        width > limit ==> fitted(text, width, limit, end) == "..."@ + end,
{
}

/// Only control characters are replaced in a message, each by a blank.
pub proof fn law_message_keeps_its_text(text: Seq<char>)
    ensures
        harmless(text).len() == text.len(),
        (forall|i: int| 0 <= i < text.len() ==> !is_control(#[trigger] text[i])) ==> harmless(text)
            == text,
        forall|i: int|
            0 <= i < text.len() && harmless(text)[i] != text[i] ==> #[trigger] harmless(text)[i]
                == ' ',
        is_control('\n'),
        is_control('\r'),
        is_control('\t'),
        !is_control(' '),
{
    if forall|i: int| 0 <= i < text.len() ==> !is_control(#[trigger] text[i]) {
        assert(harmless(text) =~= text);
    }
}

/// How many columns of a header each of the two roots has.
pub open spec fn header_share(width: int) -> int {
    if width > 12 {
        (width - 12) / 2
    } else {
        0
    }
}

/// The two roots share the header evenly, twelve columns are left between and around them,
/// and at most one more is left over.
pub proof fn law_roots_share_the_header(width: int)
    requires
        0 <= width,
    ensures
        0 <= header_share(width) <= width,
        width <= 12 <==> header_share(width) == 0 && width < 14 && width != 13,
        12 <= width ==> 2 * header_share(width) + 12 <= width < 2 * header_share(width) + 14,
{
}

/// While files are counted the bar tells how many were found, once there are any; while
/// they are compared it tells how far that is.
pub proof fn law_bar_tells_how_far_comparing_is(count: nat, total: nat)
    ensures
        count > 0 ==> comparing_text(count, total) == " Comparing... "@ + decimal(count) + "/"@
            + decimal(total),
        count == 0 && total > 0 ==> comparing_text(count, total) == " Counting files... ("@
            + decimal(total) + ")"@,
        count == 0 && total == 0 ==> comparing_text(count, total) == " Counting files..."@,
{
}

/// The bar names each key beside what it does, ways of moving first and the way back last.
pub proof fn law_bar_names_every_key(keys: ScreenKeys)
    ensures
        ({
            let bar = shortcuts_of(keys);
            &&& bar.len() == 14
            &&& bar[0].0 == keys.up@ + "/"@ + keys.down@
            &&& bar[1] == (keys.expand@, ":open "@)
            &&& bar[2] == (keys.collapse@, ":close "@)
            &&& bar[3] == (keys.open@, ":view "@)
            &&& bar[4] == (keys.copy@, ":copy "@)
            &&& bar[5] == (keys.delete@, ":delete "@)
            &&& bar[6] == (keys.expand_all@, ":expand "@)
            &&& bar[7] == (keys.collapse_all@, ":collapse "@)
            &&& bar[8] == (keys.filter@, ":filter "@)
            &&& bar[9].0 == keys.by_name@
            &&& bar[10].0 == keys.by_size@
            &&& bar[11].0 == keys.by_date@
            &&& bar[12] == (keys.by_type@, ":type "@)
            &&& bar[13] == (keys.close@, ":back"@)
        }),
{
}

} // verus!
