//! Marking files, and sorting the panel with the focus.

use crate::app_state::{toggled_mark, App};
use crate::diff_types::FileTime;
use crate::names::NameSet;
use crate::panel::{sort_toggled, FileItem, PanelState};
use crate::paths::{extension_of, name_extension};
use crate::remote_connect::optional_text;
use crate::sorting::{lowercase_text, SortBy};
use crate::text::{concat3, concat5, decimal, lemma_push_to_set, number_text, same_text};
use vstd::prelude::*;

verus! {

/// The names of the lines that a flag is set for, without the line to the parent.
pub open spec fn picked(files: Seq<FileItem>, flags: Seq<bool>) -> Seq<Seq<char>>
    decreases files.len(),
{
    if files.len() == 0 {
        Seq::empty()
    } else {
        let before = picked(files.drop_last(), flags.drop_last());
        if flags.last() && files.last().name@ != ".."@ {
            before.push(files.last().name@)
        } else {
            before
        }
    }
}

/// A flag for each line, all set.
pub open spec fn all_set(n: nat) -> Seq<bool> {
    Seq::new(n, |i: int| true)
}

/// The extension of a name in lower case.
pub open spec fn lower_extension_of(name: Seq<char>) -> Option<Seq<char>> {
    match name_extension(name) {
        Some(extension) => Some(lowercase_text(extension)),
        None => None,
    }
}

/// The files with this extension.
pub open spec fn with_extension(files: Seq<FileItem>, extension: Seq<char>) -> Seq<bool> {
    Seq::new(
        files.len(),
        |i: int| !files[i].is_directory && lower_extension_of(files[i].name@) == Some(extension),
    )
}

/// Whether all of the names are marked.
pub open spec fn all_marked(names: Seq<Seq<char>>, marks: Set<Seq<char>>) -> bool {
    forall|i: int| 0 <= i < names.len() ==> marks.contains(#[trigger] names[i])
}

fn extension_in_lower_case(name: &str) -> (r: Option<String>)
    ensures
        optional_text(r) == lower_extension_of(name@),
{
    match extension_of(name) {
        Some(extension) => Some(extension.as_str().to_lowercase()),
        None => None,
    }
}

/// Marks the lines that a flag is set for. Gives how many there are.
fn mark_flagged(files: &Vec<FileItem>, flags: &Vec<bool>, marks: &mut NameSet) -> (r: usize)
    requires
        files@.len() == flags@.len(),
    ensures
        final(marks)@ == old(marks)@.union(picked(files@, flags@).to_set()),
        r == picked(files@, flags@).len(),
{
    let ghost before = marks@;
    let mut count: usize = 0;
    let mut i: usize = 0;
    assert(picked(files@.take(0), flags@.take(0)).to_set() =~= Set::<Seq<char>>::empty());
    assert(before.union(Set::<Seq<char>>::empty()) =~= before);
    while i < files.len()
        invariant
            i <= files@.len(),
            files@.len() == flags@.len(),
            count <= i,
            count == picked(files@.take(i as int), flags@.take(i as int)).len(),
            marks@ == before.union(picked(files@.take(i as int), flags@.take(i as int)).to_set()),
        decreases files@.len() - i,
    {
        let ghost names = picked(files@.take(i as int), flags@.take(i as int));
        assert(files@.take(i + 1).drop_last() =~= files@.take(i as int));
        assert(flags@.take(i + 1).drop_last() =~= flags@.take(i as int));
        if flags[i] && !same_text(files[i].name.as_str(), "..") {
            marks.insert(files[i].name.clone());
            count += 1;
            proof {
                lemma_push_to_set(names, files@[i as int].name@);
                assert(before.union(names.to_set()).insert(files@[i as int].name@) =~= before.union(
                    names.to_set().insert(files@[i as int].name@),
                ));
            }
        }
        i += 1;
    }
    assert(files@.take(i as int) =~= files@);
    assert(flags@.take(i as int) =~= flags@);
    count
}

/// Takes away the marks of the lines that a flag is set for.
fn unmark_flagged(files: &Vec<FileItem>, flags: &Vec<bool>, marks: &mut NameSet)
    requires
        files@.len() == flags@.len(),
    ensures
        final(marks)@ == old(marks)@.difference(picked(files@, flags@).to_set()),
{
    let ghost before = marks@;
    let mut i: usize = 0;
    assert(picked(files@.take(0), flags@.take(0)).to_set() =~= Set::<Seq<char>>::empty());
    assert(before.difference(Set::<Seq<char>>::empty()) =~= before);
    while i < files.len()
        invariant
            i <= files@.len(),
            files@.len() == flags@.len(),
            marks@ == before.difference(
                picked(files@.take(i as int), flags@.take(i as int)).to_set(),
            ),
        decreases files@.len() - i,
    {
        let ghost names = picked(files@.take(i as int), flags@.take(i as int));
        assert(files@.take(i + 1).drop_last() =~= files@.take(i as int));
        assert(flags@.take(i + 1).drop_last() =~= flags@.take(i as int));
        if flags[i] && !same_text(files[i].name.as_str(), "..") {
            marks.remove(files[i].name.as_str());
            proof {
                lemma_push_to_set(names, files@[i as int].name@);
                assert(before.difference(names.to_set()).remove(files@[i as int].name@)
                    =~= before.difference(names.to_set().insert(files@[i as int].name@)));
            }
        }
        i += 1;
    }
    assert(files@.take(i as int) =~= files@);
    assert(flags@.take(i as int) =~= flags@);
}

/// Whether all lines that a flag is set for are marked.
fn flagged_are_marked(files: &Vec<FileItem>, flags: &Vec<bool>, marks: &NameSet) -> (r: (bool, usize))
    requires
        files@.len() == flags@.len(),
    ensures
        r.0 == all_marked(picked(files@, flags@), marks@),
        r.1 == picked(files@, flags@).len(),
{
    let mut all = true;
    let mut count: usize = 0;
    let mut i: usize = 0;
    while i < files.len()
        invariant
            i <= files@.len(),
            files@.len() == flags@.len(),
            count <= i,
            count == picked(files@.take(i as int), flags@.take(i as int)).len(),
            all == all_marked(picked(files@.take(i as int), flags@.take(i as int)), marks@),
        decreases files@.len() - i,
    {
        let ghost names = picked(files@.take(i as int), flags@.take(i as int));
        assert(files@.take(i + 1).drop_last() =~= files@.take(i as int));
        assert(flags@.take(i + 1).drop_last() =~= flags@.take(i as int));
        if flags[i] && !same_text(files[i].name.as_str(), "..") {
            let ghost longer = names.push(files@[i as int].name@);
            let marked = marks.contains(files[i].name.as_str());
            proof {
                assert(longer[names.len() as int] == files@[i as int].name@);
                if all_marked(longer, marks@) {
                    assert forall|k: int| 0 <= k < names.len() implies marks@.contains(
                        #[trigger] names[k],
                    ) by {
                        assert(longer[k] == names[k]);
                    }
                    assert(marks@.contains(longer[names.len() as int]));
                }
                if all_marked(names, marks@) && marked {
                    assert forall|k: int| 0 <= k < longer.len() implies marks@.contains(
                        #[trigger] longer[k],
                    ) by {
                        if k < names.len() {
                            assert(longer[k] == names[k]);
                        }
                    }
                }
            }
            all = all && marked;
            count += 1;
        }
        i += 1;
    }
    assert(files@.take(i as int) =~= files@);
    assert(flags@.take(i as int) =~= flags@);
    (all, count)
}

/// Whether only the marks and the cursor of the panel with the focus changed.
pub open spec fn only_marks_changed(before: App, after: App) -> bool {
    let at = before.active_panel_index as int;
    &&& after == App { panels: after.panels, ..before }
    &&& after.panels@ == before.panels@.update(
        at,
        PanelState {
            selected_files: after.panels@[at].selected_files,
            selected_index: after.panels@[at].selected_index,
            ..before.active()
        },
    )
}

/// What marking the line under the cursor does.
pub open spec fn line_marked(before: App, after: App) -> bool {
    let panel = before.active();
    let marked = panel.current() matches Some(file) && file.name@ != ".."@;
    &&& only_marks_changed(before, after)
    &&& after.active().selected_files@ == toggled_mark(
        panel.selected_files@,
        panel.current(),
    )
    &&& after.active().selected_index == if marked && panel.selected_index + 1
        < panel.files@.len() {
        panel.selected_index + 1
    } else {
        panel.selected_index as int
    }
}

/// What marking all lines does.
pub open spec fn all_lines_marked(before: App, after: App) -> bool {
    let panel = before.active();
    &&& only_marks_changed(before, after)
    &&& after.active().selected_index == panel.selected_index
    &&& after.active().selected_files@ == if panel.selected_files@ == Set::<
        Seq<char>,
    >::empty() {
        picked(panel.files@, all_set(panel.files@.len())).to_set()
    } else {
        Set::<Seq<char>>::empty()
    }
}

/// What marking the files with the extension of the one under the cursor does.
pub open spec fn extension_marked(before: App, after: App) -> bool {
    let panel = before.active();
    let target = match panel.current() {
        Some(file) => lower_extension_of(file.name@),
        None => None,
    };
    match target {
        None => after == before,
        Some(extension) => {
            let names = picked(panel.files@, with_extension(panel.files@, extension));
            let all = all_marked(names, panel.selected_files@);
            &&& optional_text(after.message) == Some(
                if all { "Deselected "@ } else { "Selected "@ } + decimal(names.len())
                    + " ."@ + extension + " file(s)"@,
            )
            &&& only_marks_changed(
                (App {
                    message: after.message,
                    message_timer: 10,
                    ..before
                }),
                after,
            )
            &&& after.active().selected_index == panel.selected_index
            &&& after.active().selected_files@ == if all {
                panel.selected_files@.difference(names.to_set())
            } else {
                panel.selected_files@.union(names.to_set())
            }
        },
    }
}

/// What marking the files that a search found does.
pub open spec fn found_marked(before: App, after: App, found: Seq<bool>) -> bool {
    let panel = before.active();
    let names = picked(panel.files@, found);
    &&& optional_text(after.message) == Some(
        if names.len() > 0 {
            "Found "@ + decimal(names.len()) + " matching file(s)"@
        } else {
            "No files match the criteria"@
        },
    )
    &&& only_marks_changed(
        (App { message: after.message, message_timer: 10, ..before }),
        after,
    )
    &&& after.active().selected_index == panel.selected_index
    &&& after.active().selected_files@ == names.to_set()
}

impl App {
    fn take_marks(&mut self, at: usize) -> (r: NameSet)
        requires
            at < old(self).panels@.len(),
        ensures
            r@ == old(self).panels@[at as int].selected_files@,
            *final(self) == (App { panels: final(self).panels, ..*old(self) }),
            final(self).panels@ == old(self).panels@.update(
                at as int,
                (PanelState {
                    selected_files: final(self).panels@[at as int].selected_files,
                    ..old(self).panels@[at as int]
                }),
            ),
    {
        let mut marks = NameSet::new();
        core::mem::swap(&mut marks, &mut self.panels[at].selected_files);
        marks
    }

    /// Marks the line under the cursor, or takes its mark away, and moves on. The
    /// line to the parent cannot be marked.
    pub fn toggle_selection(&mut self)
        requires
            old(self).wf(),
        ensures
            line_marked(*old(self), *final(self)),
    {
        let at: usize = self.active_panel_index;
        let name: Option<String> = match self.panels[at].current_file() {
            Some(file) => if same_text(file.name.as_str(), "..") {
                None
            } else {
                Some(file.name.clone())
            },
            None => None,
        };
        if let Some(name) = name {
            let mut marks = self.take_marks(at);
            if marks.contains(name.as_str()) {
                marks.remove(name.as_str());
            } else {
                marks.insert(name);
            }
            self.panels[at].selected_files = marks;
            let count: usize = self.panels[at].files.len();
            if self.panels[at].selected_index < count - 1 {
                self.panels[at].selected_index = self.panels[at].selected_index + 1;
            }
        }
        assert(self.panels@ =~= old(self).panels@.update(at as int, self.panels@[at as int]));
    }

    /// Marks all lines but the one to the parent where none is marked, and else
    /// takes all marks away.
    pub fn toggle_all_selection(&mut self)
        requires
            old(self).wf(),
        ensures
            all_lines_marked(*old(self), *final(self)),
    {
        let at: usize = self.active_panel_index;
        if self.panels[at].selected_files.is_empty() {
            let mut flags: Vec<bool> = Vec::new();
            let count: usize = self.panels[at].files.len();
            let mut i: usize = 0;
            while i < count
                invariant
                    i <= count,
                    flags@ == all_set(i as nat),
                decreases count - i,
            {
                flags.push(true);
                assert(flags@ =~= all_set((i + 1) as nat));
                i += 1;
            }
            let mut marks = NameSet::new();
            let _ = mark_flagged(&self.panels[at].files, &flags, &mut marks);
            assert(Set::<Seq<char>>::empty().union(
                picked(old(self).active().files@, flags@).to_set(),
            ) =~= picked(old(self).active().files@, flags@).to_set());
            self.panels[at].selected_files = marks;
        } else {
            self.panels[at].selected_files = NameSet::new();
        }
        assert(self.panels@ =~= old(self).panels@.update(at as int, self.panels@[at as int]));
    }

    /// Marks all files with the extension of the one under the cursor, or takes
    /// their marks away where all of them are marked.
    pub fn select_by_extension(&mut self)
        requires
            old(self).wf(),
        ensures
            extension_marked(*old(self), *final(self)),
    {
        let at: usize = self.active_panel_index;
        let target = match self.panels[at].current_file() {
            Some(file) => extension_in_lower_case(file.name.as_str()),
            None => None,
        };
        let extension = match target {
            None => {
                return;
            },
            Some(extension) => extension,
        };
        let count: usize = self.panels[at].files.len();
        let ghost all = with_extension(old(self).active().files@, extension@);
        let mut flags: Vec<bool> = Vec::new();
        let mut i: usize = 0;
        while i < count
            invariant
                i <= count,
                at == self.active_panel_index,
                at < self.panels@.len(),
                count == self.panels@[at as int].files@.len(),
                *self == *old(self),
                all == with_extension(self.panels@[at as int].files@, extension@),
                flags@ == all.take(i as int),
            decreases count - i,
        {
            let file = &self.panels[at].files[i];
            let same = match extension_in_lower_case(file.name.as_str()) {
                Some(other) => same_text(other.as_str(), extension.as_str()),
                None => false,
            };
            flags.push(!file.is_directory && same);
            assert(all.take(i + 1) =~= all.take(i as int).push(all[i as int]));
            i += 1;
        }
        assert(all.take(i as int) =~= all);
        let (marked, found) = flagged_are_marked(
            &self.panels[at].files,
            &flags,
            &self.panels[at].selected_files,
        );
        let mut marks = self.take_marks(at);
        if marked {
            unmark_flagged(&self.panels[at].files, &flags, &mut marks);
        } else {
            let _ = mark_flagged(&self.panels[at].files, &flags, &mut marks);
        }
        self.panels[at].selected_files = marks;
        let number = number_text(found as u64);
        let word = if marked { "Deselected " } else { "Selected " };
        let text = concat5(word, number.as_str(), " .", extension.as_str(), " file(s)");
        self.show_message(text.as_str());
        assert(self.panels@ =~= old(self).panels@.update(at as int, self.panels@[at as int]));
    }

    /// Marks the lines that a search found, and no others. `found` is whether each
    /// line was found.
    pub fn execute_advanced_search(&mut self, found: &Vec<bool>)
        requires
            old(self).wf(),
            found@.len() == old(self).active().files@.len(),
        ensures
            found_marked(*old(self), *final(self), found@),
    {
        let at: usize = self.active_panel_index;
        let mut marks = NameSet::new();
        let count: usize = mark_flagged(&self.panels[at].files, found, &mut marks);
        assert(Set::<Seq<char>>::empty().union(
            picked(old(self).active().files@, found@).to_set(),
        ) =~= picked(old(self).active().files@, found@).to_set());
        self.panels[at].selected_files = marks;
        if count > 0 {
            let number = number_text(count as u64);
            let text = concat3("Found ", number.as_str(), " matching file(s)");
            self.show_message(text.as_str());
        } else {
            self.show_message("No files match the criteria");
        }
        assert(self.panels@ =~= old(self).panels@.update(at as int, self.panels@[at as int]));
    }

    fn toggle_sort(&mut self, sort_by: SortBy, now: FileTime) -> (r: bool)
        requires
            old(self).wf(),
        ensures
            App::only_active_changed(*old(self), *final(self)),
            sort_toggled(old(self).active(), final(self).active(), sort_by, now, r),
    {
        let at: usize = self.active_panel_index;
        let r = self.panels[at].toggle_sort(sort_by, now);
        assert(self.panels@ =~= old(self).panels@.update(at as int, self.panels@[at as int]));
        r
    }

    /// Sorts by name, or turns that sort round. True where the panel is to be read.
    pub fn toggle_sort_by_name(&mut self, now: FileTime) -> (r: bool)
        requires
            old(self).wf(),
        ensures
            App::only_active_changed(*old(self), *final(self)),
            sort_toggled(old(self).active(), final(self).active(), SortBy::Name, now, r),
    {
        self.toggle_sort(SortBy::Name, now)
    }

    /// Sorts by size, or turns that sort round. True where the panel is to be read.
    pub fn toggle_sort_by_size(&mut self, now: FileTime) -> (r: bool)
        requires
            old(self).wf(),
        ensures
            App::only_active_changed(*old(self), *final(self)),
            sort_toggled(old(self).active(), final(self).active(), SortBy::Size, now, r),
    {
        self.toggle_sort(SortBy::Size, now)
    }

    /// Sorts by date, or turns that sort round. True where the panel is to be read.
    pub fn toggle_sort_by_date(&mut self, now: FileTime) -> (r: bool)
        requires
            old(self).wf(),
        ensures
            App::only_active_changed(*old(self), *final(self)),
            sort_toggled(old(self).active(), final(self).active(), SortBy::Modified, now, r),
    {
        self.toggle_sort(SortBy::Modified, now)
    }

    /// Sorts by type, or turns that sort round. True where the panel is to be read.
    pub fn toggle_sort_by_type(&mut self, now: FileTime) -> (r: bool)
        requires
            old(self).wf(),
        ensures
            App::only_active_changed(*old(self), *final(self)),
            sort_toggled(old(self).active(), final(self).active(), SortBy::Type, now, r),
    {
        self.toggle_sort(SortBy::Type, now)
    }
}

/// The line to the parent is never marked, whatever is marked at once.
pub proof fn law_parent_line_is_never_picked(files: Seq<FileItem>, flags: Seq<bool>)
    ensures
        !picked(files, flags).contains(".."@),
    decreases files.len(),
{
    if files.len() > 0 {
        law_parent_line_is_never_picked(files.drop_last(), flags.drop_last());
        let before = picked(files.drop_last(), flags.drop_last());
        assert forall|i: int| 0 <= i < picked(files, flags).len() implies picked(files, flags)[i]
            != ".."@ by {
            if i < before.len() {
                assert(picked(files, flags)[i] == before[i]);
            }
        }
    }
}

/// What is picked are the names of the flagged lines, except that of the line to the
/// parent.
pub proof fn law_flagged_lines_are_picked(files: Seq<FileItem>, flags: Seq<bool>, name: Seq<char>)
    requires
        flags.len() == files.len(),
    ensures
        picked(files, flags).contains(name) <==> name != ".."@ && exists|i: int|
            0 <= i < files.len() && #[trigger] flags[i] && files[i].name@ == name,
        picked(files, flags).len() <= files.len(),
    decreases files.len(),
{
    if files.len() > 0 {
        let rest = files.drop_last();
        let less = flags.drop_last();
        law_flagged_lines_are_picked(rest, less, name);
        let before = picked(rest, less);
        let now = picked(files, flags);
        let last = files.len() - 1;
        if before.contains(name) {
            let k = choose|k: int| 0 <= k < before.len() && before[k] == name;
            assert(now[k] == name);
            let i = choose|i: int| 0 <= i < rest.len() && #[trigger] less[i] && rest[i].name@ == name;
            assert(flags[i] && files[i].name@ == name);
        }
        if now.contains(name) && !before.contains(name) {
            let k = choose|k: int| 0 <= k < now.len() && now[k] == name;
            if k < before.len() {
                assert(before[k] == name);
            }
            assert(flags[last] && files[last].name@ == name);
        }
        if name != ".."@ && exists|i: int|
            0 <= i < files.len() && #[trigger] flags[i] && files[i].name@ == name {
            let i = choose|i: int|
                0 <= i < files.len() && #[trigger] flags[i] && files[i].name@ == name;
            if i < last {
                assert(less[i] && rest[i].name@ == name);
            } else {
                assert(now[now.len() - 1] == name);
            }
        }
    }
}

/// Marking the line under the cursor changes its mark and no other, and goes on to the next
/// line; the line to the parent is never marked and keeps the cursor.
pub proof fn law_marking_a_line(before: App, after: App)
    requires
        before.wf(),
        line_marked(before, after),
    ensures
        ({
            let panel = before.active();
            let now = after.active();
            &&& now.files == panel.files
            &&& now.path == panel.path
            &&& panel.current() matches Some(file) ==> {
                &&& file.name@ != ".."@ ==> {
                    &&& now.selected_files@.contains(file.name@) != panel.selected_files@.contains(
                        file.name@,
                    )
                    &&& forall|other: Seq<char>|
                        other != file.name@ ==> (#[trigger] now.selected_files@.contains(other))
                            == panel.selected_files@.contains(other)
                    &&& now.selected_index == if panel.selected_index == panel.files@.len() - 1 {
                        panel.selected_index as int
                    } else {
                        panel.selected_index + 1
                    }
                }
                &&& file.name@ == ".."@ ==> now.selected_files@ == panel.selected_files@
                    && now.selected_index == panel.selected_index
            }
        }),
{
}

/// Marking all lines marks every one but the line to the parent where none was marked, and
/// none where some were.
pub proof fn law_marking_all_lines(before: App, after: App)
    requires
        before.wf(),
        all_lines_marked(before, after),
    ensures
        ({
            let panel = before.active();
            let marks = after.active().selected_files@;
            &&& panel.selected_files@ != Set::<Seq<char>>::empty() ==> marks
                == Set::<Seq<char>>::empty()
            &&& panel.selected_files@ == Set::<Seq<char>>::empty() ==> forall|name: Seq<char>|
                #[trigger] marks.contains(name) <==> name != ".."@ && exists|i: int|
                    0 <= i < panel.files@.len() && (#[trigger] panel.files@[i]).name@ == name
            &&& after.active().files == panel.files
            &&& after.active().selected_index == panel.selected_index
        }),
{
    let panel = before.active();
    let flags = all_set(panel.files@.len());
    let marks = after.active().selected_files@;
    if panel.selected_files@ == Set::<Seq<char>>::empty() {
        assert forall|name: Seq<char>| #[trigger] marks.contains(name) <==> name != ".."@
            && exists|i: int|
            0 <= i < panel.files@.len() && (#[trigger] panel.files@[i]).name@ == name by {
            law_flagged_lines_are_picked(panel.files@, flags, name);
            if exists|i: int|
                0 <= i < panel.files@.len() && (#[trigger] panel.files@[i]).name@ == name {
                let i = choose|i: int|
                    0 <= i < panel.files@.len() && (#[trigger] panel.files@[i]).name@ == name;
                assert(flags[i]);
            }
        }
    }
}

/// Marking by extension concerns files with the extension of the one under the cursor, in
/// any case, and no directory: all of them become marked, or, where all were, none; every
/// other mark stays.
pub proof fn law_marking_by_extension(before: App, after: App, i: int)
    requires
        before.wf(),
        extension_marked(before, after),
        before.active().current() is Some,
        0 <= i < before.active().files@.len(),
    ensures
        ({
            let panel = before.active();
            let wanted = name_extension(panel.current()->0.name@);
            let marks = after.active().selected_files@;
            let file = panel.files@[i];
            let concerned = |f: FileItem|
                {
                    &&& !f.is_directory
                    &&& name_extension(f.name@) matches Some(extension)
                    &&& lowercase_text(extension) == lowercase_text(wanted->0)
                    &&& f.name@ != ".."@
                };
            &&& wanted is None ==> after == before
            &&& wanted is Some && concerned(file) ==> (marks.contains(file.name@) <==> exists|j: int|
                0 <= j < panel.files@.len() && concerned(#[trigger] panel.files@[j])
                    && !panel.selected_files@.contains(panel.files@[j].name@))
            &&& wanted is Some ==> forall|name: Seq<char>|
                (forall|j: int|
                    0 <= j < panel.files@.len() && concerned(#[trigger] panel.files@[j])
                        ==> panel.files@[j].name@ != name) ==> (#[trigger] marks.contains(name))
                    == panel.selected_files@.contains(name)
        }),
{
    let panel = before.active();
    if let Some(wanted) = name_extension(panel.current()->0.name@) {
        let extension = lowercase_text(wanted);
        let flags = with_extension(panel.files@, extension);
        let names = picked(panel.files@, flags);
        let marks = after.active().selected_files@;
        let concerned = |f: FileItem|
            {
                &&& !f.is_directory
                &&& name_extension(f.name@) matches Some(e)
                &&& lowercase_text(e) == extension
                &&& f.name@ != ".."@
            };
        assert forall|j: int| 0 <= j < panel.files@.len() implies (concerned(
            #[trigger] panel.files@[j],
        ) <==> flags[j] && panel.files@[j].name@ != ".."@) by {}
        assert forall|name: Seq<char>| #[trigger] names.contains(name) <==> exists|j: int|
            0 <= j < panel.files@.len() && concerned(#[trigger] panel.files@[j])
                && panel.files@[j].name@ == name by {
            law_flagged_lines_are_picked(panel.files@, flags, name);
            if names.contains(name) {
                let j = choose|j: int|
                    0 <= j < panel.files@.len() && #[trigger] flags[j] && panel.files@[j].name@
                        == name;
                assert(concerned(panel.files@[j]));
            }
            if exists|j: int|
                0 <= j < panel.files@.len() && concerned(#[trigger] panel.files@[j])
                    && panel.files@[j].name@ == name {
                let j = choose|j: int|
                    0 <= j < panel.files@.len() && concerned(#[trigger] panel.files@[j])
                        && panel.files@[j].name@ == name;
                assert(flags[j]);
            }
        }
        let all = all_marked(names, panel.selected_files@);
        assert(all <==> !exists|j: int|
            0 <= j < panel.files@.len() && concerned(#[trigger] panel.files@[j])
                && !panel.selected_files@.contains(panel.files@[j].name@)) by {
            if !all {
                let k = choose|k: int|
                    0 <= k < names.len() && !panel.selected_files@.contains(#[trigger] names[k]);
                assert(names.contains(names[k]));
            }
            if exists|j: int|
                0 <= j < panel.files@.len() && concerned(#[trigger] panel.files@[j])
                    && !panel.selected_files@.contains(panel.files@[j].name@) {
                let j = choose|j: int|
                    0 <= j < panel.files@.len() && concerned(#[trigger] panel.files@[j])
                        && !panel.selected_files@.contains(panel.files@[j].name@);
                assert(names.contains(panel.files@[j].name@));
            }
        }
        if concerned(panel.files@[i]) {
            assert(names.contains(panel.files@[i].name@));
        }
        assert forall|name: Seq<char>|
            (forall|j: int|
                0 <= j < panel.files@.len() && concerned(#[trigger] panel.files@[j])
                    ==> panel.files@[j].name@ != name) implies (#[trigger] marks.contains(name))
            == panel.selected_files@.contains(name) by {
            assert(!names.contains(name));
        }
    }
}

/// After a search exactly the lines that were found are marked.
pub proof fn law_search_marks_what_it_found(before: App, after: App, found: Seq<bool>, name: Seq<char>)
    requires
        before.wf(),
        found.len() == before.active().files@.len(),
        found_marked(before, after, found),
    ensures
        after.active().selected_files@.contains(name) <==> name != ".."@ && exists|i: int|
            0 <= i < found.len() && #[trigger] found[i] && before.active().files@[i].name@ == name,
        after.active().files == before.active().files,
{
    law_flagged_lines_are_picked(before.active().files@, found, name);
}

} // verus!
