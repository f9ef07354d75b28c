//! Settings and the settings dialog, which previews changes without touching
//! the settings themselves.

use crate::diff_types::{codes, codes_of};
use crate::ranking::{arrange, arranged, ints, key_views, positions, ItemKey, Key};
use crate::remote_connect::RemoteProfile;
use crate::text::{chars_of, has_char, views};
use vstd::prelude::*;

verus! {

/// The theme that is used where no other one can be named.
pub const DEFAULT_THEME_NAME: &'static str = "light";

/// How carefully a move across volumes is verified.
#[derive(Debug, Clone, Copy, PartialEq, Eq, Structural)]
pub enum CrossVolumeMoveVerification {
    Standard,
    Strict,
}

/// The verification that a move worker is asked for.
#[derive(Debug, Clone, Copy, PartialEq, Eq, Structural)]
pub enum MoveVerification {
    Standard,
    Strict,
}

/// The verification that a setting asks of a move worker.
pub open spec fn verification_of(configured: CrossVolumeMoveVerification) -> MoveVerification {
    match configured {
        CrossVolumeMoveVerification::Standard => MoveVerification::Standard,
        CrossVolumeMoveVerification::Strict => MoveVerification::Strict,
    }
}

/// The verification that a setting asks of a move worker.
pub fn move_verification_policy(configured: CrossVolumeMoveVerification) -> (r: MoveVerification)
    ensures
        r == verification_of(configured),
{
    match configured {
        CrossVolumeMoveVerification::Standard => MoveVerification::Standard,
        CrossVolumeMoveVerification::Strict => MoveVerification::Strict,
    }
}

/// What the settings keep of a panel.
#[derive(Debug)]
pub struct PanelSettings {
    pub start_path: Option<String>,
    pub sort_by: String,
    pub sort_order: String,
}

/// The commands that open files of one extension, in the order of preference.
#[derive(Debug)]
pub struct ExtensionHandler {
    pub extension: String,
    pub commands: Vec<String>,
}

/// The settings of the program.
#[derive(Debug)]
pub struct Settings {
    pub panels: Vec<PanelSettings>,
    pub active_panel_index: usize,
    pub theme_name: String,
    pub diff_compare_method: String,
    pub cross_volume_move_verification: CrossVolumeMoveVerification,
    pub bookmarked_path: Vec<String>,
    pub tar_path: Option<String>,
    pub remote_profiles: Vec<RemoteProfile>,
    pub extension_handlers: Vec<ExtensionHandler>,
    pub telegram_polling_time: u64,
    pub encrypt_split_size: u64,
}

/// The settings dialog.
#[derive(Debug)]
pub struct SettingsState {
    /// The names of the themes, sorted.
    pub themes: Vec<String>,
    pub theme_index: usize,
    /// The selected row of the dialog: theme, diff method, move verification.
    pub selected_field: usize,
    pub diff_methods: Vec<String>,
    pub diff_method_index: usize,
    /// The verification that the dialog previews.
    pub cross_volume_move_verification: CrossVolumeMoveVerification,
}

/// The built-in themes and those that were found, each once, in that order.
pub open spec fn theme_names(found: Seq<Seq<char>>) -> Seq<Seq<char>>
    decreases found.len(),
{
    if found.len() == 0 {
        seq!["light"@, "dark"@]
    } else {
        let before = theme_names(found.drop_last());
        if found.last().contains(' ') || before.contains(found.last()) {
            before
        } else {
            before.push(found.last())
        }
    }
}

/// What a plain name is sorted by.
pub open spec fn text_key(s: Seq<char>) -> Key {
    Key { directory: false, major: codes(s), minor: Seq::empty(), path: Seq::empty() }
}

/// The names in alphabetical order.
pub open spec fn alphabetical(names: Seq<Seq<char>>) -> Seq<Seq<char>> {
    let order = arranged(
        Seq::new(names.len(), |i: int| text_key(names[i])),
        false,
        Seq::new(names.len(), |i: int| i),
    );
    Seq::new(order.len(), |k: int| names[order[k]])
}

/// The first position of the name from `from` on, or `none`.
pub open spec fn first_position(names: Seq<Seq<char>>, name: Seq<char>, from: int, none: int) -> int
    decreases names.len() - from,
{
    if from >= names.len() {
        none
    } else if names[from] == name {
        from
    } else {
        first_position(names, name, from + 1, none)
    }
}

/// The names in alphabetical order.
pub fn sort_texts(names: &Vec<String>) -> (r: Vec<String>)
    ensures
        views(r@) == alphabetical(views(names@)),
{
    let ghost all = views(names@);
    let mut keys: Vec<ItemKey> = Vec::new();
    let mut list: Vec<usize> = Vec::new();
    let mut i: usize = 0;
    while i < names.len()
        invariant
            i <= names@.len(),
            all == views(names@),
            keys@.len() == i,
            list@.len() == i,
            forall|k: int| 0 <= k < i ==> (#[trigger] keys@[k])@ == text_key(all[k]),
            forall|k: int| 0 <= k < i ==> #[trigger] list@[k] == k,
        decreases names@.len() - i,
    {
        let key = ItemKey {
            directory: false,
            major: codes_of(names[i].as_str()),
            minor: Vec::new(),
            path: Vec::new(),
        };
        assert(ints(key.minor@) == Seq::<int>::empty());
        assert(ints(key.path@) == Seq::<int>::empty());
        keys.push(key);
        list.push(i);
        i += 1;
    }
    assert(key_views(keys@) == Seq::new(all.len(), |i: int| text_key(all[i])));
    assert(positions(list@) == Seq::new(all.len(), |i: int| i));
    let order = arrange(&keys, false, &list);
    let mut r: Vec<String> = Vec::new();
    let mut k: usize = 0;
    let ghost wanted = alphabetical(all);
    while k < order.len()
        invariant
            k <= order@.len(),
            all == views(names@),
            wanted.len() == order@.len(),
            forall|m: int| 0 <= m < order@.len() ==> #[trigger] order@[m] < names@.len(),
            forall|m: int| 0 <= m < order@.len() ==> wanted[m] == all[#[trigger] order@[m] as int],
            views(r@) == wanted.take(k as int),
        decreases order@.len() - k,
    {
        assert(order@[k as int] < names@.len());
        let ghost before = r@;
        r.push(names[order[k]].clone());
        assert(views(r@) == views(before).push(all[order@[k as int] as int]));
        assert(wanted.take(k + 1) == wanted.take(k as int).push(wanted[k as int]));
        k += 1;
    }
    assert(wanted.take(k as int) == wanted);
    r
}

/// Whether the list holds the text.
pub fn holds_text(list: &Vec<String>, name: &str) -> (r: bool)
    ensures
        r == views(list@).contains(name@),
{
    let wanted = name.to_owned();
    let mut i: usize = 0;
    while i < list.len()
        invariant
            i <= list@.len(),
            wanted@ == name@,
            forall|k: int| 0 <= k < i ==> #[trigger] views(list@)[k] != name@,
        decreases list@.len() - i,
    {
        if list[i] == wanted {
            assert(views(list@)[i as int] == name@);
            return true;
        }
        i += 1;
    }
    false
}

/// The first position of the text in the list, or `none`.
pub fn position_of_text(list: &Vec<String>, name: &str, none: usize) -> (r: usize)
    ensures
        r == first_position(views(list@), name@, 0, none as int),
{
    let wanted = name.to_owned();
    let mut i: usize = 0;
    while i < list.len()
        invariant
            i <= list@.len(),
            wanted@ == name@,
            first_position(views(list@), name@, 0, none as int) == first_position(
                views(list@),
                name@,
                i as int,
                none as int,
            ),
        decreases list@.len() - i,
    {
        if list[i] == wanted {
            assert(views(list@)[i as int] == name@);
            return i;
        }
        assert(views(list@)[i as int] != name@);
        i += 1;
    }
    none
}

/// The step forward in a ring of `len` places.
pub open spec fn ring_next(index: int, len: int) -> int {
    if len == 0 {
        index
    } else {
        (index + 1) % len
    }
}

/// The step back in a ring of `len` places.
pub open spec fn ring_prev(index: int, len: int) -> int {
    if len == 0 {
        index
    } else if index == 0 {
        len - 1
    } else {
        index - 1
    }
}

impl SettingsState {
    /// Whether both selections name an entry of their list.
    pub open spec fn wf(self) -> bool {
        &&& self.theme_index < self.themes@.len()
        &&& self.diff_method_index < self.diff_methods@.len()
    }

    /// The dialog for the given settings. `theme_files` are the names of the
    /// theme files that were found.
    pub fn new(settings: &Settings, theme_files: &Vec<String>) -> (r: Self)
        ensures
            views(r.themes@) == alphabetical(theme_names(views(theme_files@))),
            r.theme_index == first_position(views(r.themes@), settings.theme_name@, 0, 0),
            r.selected_field == 0,
            views(r.diff_methods@) == seq![
                "content"@,
                "modified_time"@,
                "content_and_time"@,
            ],
            r.diff_method_index == first_position(
                views(r.diff_methods@),
                settings.diff_compare_method@,
                0,
                0,
            ),
            r.cross_volume_move_verification == settings.cross_volume_move_verification,
    {
        let mut names: Vec<String> = Vec::new();
        names.push("light".to_owned());
        names.push("dark".to_owned());
        let ghost found = views(theme_files@);
        assert(found.take(0) == Seq::<Seq<char>>::empty());
        assert(views(names@) == seq!["light"@, "dark"@]);
        let mut i: usize = 0;
        while i < theme_files.len()
            invariant
                i <= theme_files@.len(),
                found == views(theme_files@),
                views(names@) == theme_names(found.take(i as int)),
            decreases theme_files@.len() - i,
        {
            assert(found.take(i + 1).drop_last() == found.take(i as int));
            assert(found.take(i + 1).last() == theme_files@[i as int]@);
            let v = chars_of(theme_files[i].as_str());
            if !has_char(&v, ' ') && !holds_text(&names, theme_files[i].as_str()) {
                let ghost before = names@;
                names.push(theme_files[i].clone());
                assert(views(names@) == views(before).push(found[i as int]));
            }
            i += 1;
        }
        assert(found.take(i as int) == found);
        let themes = sort_texts(&names);
        let theme_index = position_of_text(&themes, settings.theme_name.as_str(), 0);
        let mut diff_methods: Vec<String> = Vec::new();
        diff_methods.push("content".to_owned());
        diff_methods.push("modified_time".to_owned());
        diff_methods.push("content_and_time".to_owned());
        assert(views(diff_methods@) == seq!["content"@, "modified_time"@, "content_and_time"@]);
        let diff_method_index = position_of_text(
            &diff_methods,
            settings.diff_compare_method.as_str(),
            0,
        );
        SettingsState {
            themes,
            theme_index,
            selected_field: 0,
            diff_methods,
            diff_method_index,
            cross_volume_move_verification: settings.cross_volume_move_verification,
        }
    }

    /// The selected theme.
    pub fn current_theme(&self) -> (r: &str)
        ensures
            r@ == theme_at(views(self.themes@), self.theme_index as int),
    {
        if self.theme_index < self.themes.len() {
            self.themes[self.theme_index].as_str()
        } else {
            DEFAULT_THEME_NAME
        }
    }

    /// Selects the theme that follows, around the list.
    pub fn next_theme(&mut self)
        requires
            old(self).themes@.len() > 0 ==> old(self).theme_index < usize::MAX,
        ensures
            *final(self) == (SettingsState { theme_index: final(self).theme_index, ..*old(self) }),
            final(self).theme_index == ring_next(
                old(self).theme_index as int,
                old(self).themes@.len() as int,
            ),
    {
        let count: usize = self.themes.len();
        if count > 0 {
            self.theme_index = (self.theme_index + 1) % count;
        }
    }

    /// Selects the theme before, around the list.
    pub fn prev_theme(&mut self)
        ensures
            *final(self) == (SettingsState { theme_index: final(self).theme_index, ..*old(self) }),
            final(self).theme_index == ring_prev(
                old(self).theme_index as int,
                old(self).themes@.len() as int,
            ),
    {
        if self.themes.len() > 0 {
            self.theme_index = if self.theme_index == 0 {
                self.themes.len() - 1
            } else {
                self.theme_index - 1
            };
        }
    }

    /// The selected diff method.
    pub fn current_diff_method(&self) -> (r: &str)
        ensures
            r@ == if self.diff_method_index < self.diff_methods@.len() {
                self.diff_methods@[self.diff_method_index as int]@
            } else {
                "content"@
            },
    {
        if self.diff_method_index < self.diff_methods.len() {
            self.diff_methods[self.diff_method_index].as_str()
        } else {
            "content"
        }
    }

    /// Selects the diff method that follows, around the list.
    pub fn next_diff_method(&mut self)
        requires
            old(self).diff_methods@.len() > 0 ==> old(self).diff_method_index < usize::MAX,
        ensures
            *final(self) == (SettingsState {
                diff_method_index: final(self).diff_method_index,
                ..*old(self)
            }),
            final(self).diff_method_index == ring_next(
                old(self).diff_method_index as int,
                old(self).diff_methods@.len() as int,
            ),
    {
        let count: usize = self.diff_methods.len();
        if count > 0 {
            self.diff_method_index = (self.diff_method_index + 1) % count;
        }
    }

    /// Selects the diff method before, around the list.
    pub fn prev_diff_method(&mut self)
        ensures
            *final(self) == (SettingsState {
                diff_method_index: final(self).diff_method_index,
                ..*old(self)
            }),
            final(self).diff_method_index == ring_prev(
                old(self).diff_method_index as int,
                old(self).diff_methods@.len() as int,
            ),
    {
        if self.diff_methods.len() > 0 {
            self.diff_method_index = if self.diff_method_index == 0 {
                self.diff_methods.len() - 1
            } else {
                self.diff_method_index - 1
            };
        }
    }

    /// What the dialog shows of the previewed verification.
    pub fn current_move_verification(&self) -> (r: &'static str)
        ensures
            r@ == verification_name(self.cross_volume_move_verification),
    {
        match self.cross_volume_move_verification {
            CrossVolumeMoveVerification::Standard => "Standard",
            CrossVolumeMoveVerification::Strict => "Strict",
        }
    }

    /// Switches the previewed verification.
    pub fn toggle_move_verification(&mut self)
        ensures
            *final(self) == (SettingsState {
                cross_volume_move_verification: other_verification(
                    old(self).cross_volume_move_verification,
                ),
                ..*old(self)
            }),
    {
        self.cross_volume_move_verification = match self.cross_volume_move_verification {
            CrossVolumeMoveVerification::Standard => CrossVolumeMoveVerification::Strict,
            CrossVolumeMoveVerification::Strict => CrossVolumeMoveVerification::Standard,
        };
    }
}

/// A step forward and a step back around a list undo each other, and a
/// selection inside the list stays inside.
pub proof fn law_ring_steps_are_inverse(index: int, len: int)
    requires
        0 <= index < len,
    ensures
        0 <= ring_next(index, len) < len,
        0 <= ring_prev(index, len) < len,
        ring_prev(ring_next(index, len), len) == index,
        ring_next(ring_prev(index, len), len) == index,
{
    if index + 1 < len {
        assert((index + 1) % len == index + 1) by (nonlinear_arith)
            requires
                0 <= index + 1 < len,
        ;
    } else {
        assert((index + 1) % len == 0) by (nonlinear_arith)
            requires
                index + 1 == len,
                len > 0,
        ;
    }
    if index > 0 {
        assert((index - 1 + 1) % len == index) by (nonlinear_arith)
            requires
                0 <= index < len,
        ;
    } else {
        assert((len - 1 + 1) % len == 0) by (nonlinear_arith)
            requires
                len > 0,
        ;
    }
}

proof fn lemma_first_position(names: Seq<Seq<char>>, name: Seq<char>, from: int, none: int)
    requires
        0 <= from,
    ensures
        first_position(names, name, from, none) == none || from <= first_position(
            names,
            name,
            from,
            none,
        ) < names.len(),
    decreases names.len() - from,
{
    if from < names.len() && names[from] != name {
        lemma_first_position(names, name, from + 1, none);
    }
}

proof fn lemma_theme_names(found: Seq<Seq<char>>)
    ensures
        theme_names(found).len() >= 2,
    decreases found.len(),
{
    if found.len() > 0 {
        lemma_theme_names(found.drop_last());
    }
}

/// A fresh dialog selects an entry of each list: there is always a theme to
/// select.
pub proof fn law_fresh_dialog_is_well_formed(state: SettingsState, found: Seq<Seq<char>>, theme: Seq<
    char,
>, method: Seq<char>)
    requires
        views(state.themes@) == alphabetical(theme_names(found)),
        state.theme_index == first_position(views(state.themes@), theme, 0, 0),
        views(state.diff_methods@) == seq!["content"@, "modified_time"@, "content_and_time"@],
        state.diff_method_index == first_position(views(state.diff_methods@), method, 0, 0),
    ensures
        state.wf(),
{
    let names = theme_names(found);
    lemma_theme_names(found);
    let list = Seq::new(names.len(), |i: int| i);
    assert(list.no_duplicates());
    crate::ranking::law_arranged_is_ordered_rearrangement(
        Seq::new(names.len(), |i: int| text_key(names[i])),
        false,
        list,
    );
    assert(views(state.themes@).len() == state.themes@.len());
    assert(views(state.diff_methods@).len() == state.diff_methods@.len());
    lemma_first_position(views(state.themes@), theme, 0, 0);
    lemma_first_position(views(state.diff_methods@), method, 0, 0);
}

/// The other way to verify a move.
pub open spec fn other_verification(configured: CrossVolumeMoveVerification) -> CrossVolumeMoveVerification {
    match configured {
        CrossVolumeMoveVerification::Standard => CrossVolumeMoveVerification::Strict,
        CrossVolumeMoveVerification::Strict => CrossVolumeMoveVerification::Standard,
    }
}

/// There are two ways to verify a move, and a move is verified in the way that is set.
pub proof fn law_moves_are_verified_as_set(configured: CrossVolumeMoveVerification)
    ensures
        other_verification(configured) != configured,
        other_verification(other_verification(configured)) == configured,
        verification_of(configured) == MoveVerification::Strict <==> configured
            == CrossVolumeMoveVerification::Strict,
{
}

/// The themes are the two that are always there and every one that was found, each once,
/// except names with a blank.
pub proof fn law_found_themes_are_listed(found: Seq<Seq<char>>, name: Seq<char>)
    ensures
        theme_names(found).contains("light"@),
        theme_names(found).contains("dark"@),
        found.contains(name) && !name.contains(' ') ==> theme_names(found).contains(name),
        theme_names(found).contains(name) ==> name == "light"@ || name == "dark"@ || (
        found.contains(name) && !name.contains(' ')),
        theme_names(found).no_duplicates(),
    decreases found.len(),
{
    reveal_strlit("light");
    reveal_strlit("dark");
    let now = theme_names(found);
    if found.len() == 0 {
        assert(now[0] == "light"@);
        assert(now[1] == "dark"@);
        assert("light"@.len() == 5 && "dark"@.len() == 4);
    } else {
        let rest = found.drop_last();
        law_found_themes_are_listed(rest, name);
        let before = theme_names(rest);
        let last = found.last();
        assert(found[found.len() - 1] == last);
        let a = choose|k: int| 0 <= k < before.len() && before[k] == "light"@;
        let b = choose|k: int| 0 <= k < before.len() && before[k] == "dark"@;
        assert(now[a] == "light"@ && now[b] == "dark"@);
        if before.contains(name) {
            let k = choose|k: int| 0 <= k < before.len() && before[k] == name;
            assert(now[k] == name);
        }
        if rest.contains(name) {
            let k = choose|k: int| 0 <= k < rest.len() && rest[k] == name;
            assert(found[k] == name);
        }
        if found.contains(name) && !rest.contains(name) {
            let k = choose|k: int| 0 <= k < found.len() && found[k] == name;
            if k < rest.len() {
                assert(rest[k] == name);
            }
            if !name.contains(' ') && !before.contains(name) {
                assert(now[now.len() - 1] == name);
            }
        }
        if now.contains(name) && !before.contains(name) {
            let k = choose|k: int| 0 <= k < now.len() && now[k] == name;
            if k < before.len() {
                assert(before[k] == name);
            }
        }
        if !(last.contains(' ') || before.contains(last)) {
            assert forall|i: int, j: int| 0 <= i < j < now.len() implies now[i] != now[j] by {
                if j == now.len() - 1 {
                    assert(before.contains(before[i]));
                } else {
                    assert(before[i] != before[j]);
                }
            }
        }
    }
}

/// The place of a name is its first one, or the one given where the name is not there.
pub proof fn law_first_place_of_a_name(names: Seq<Seq<char>>, name: Seq<char>, none: int)
    ensures
        !names.contains(name) ==> first_position(names, name, 0, none) == none,
        names.contains(name) ==> {
            let at = first_position(names, name, 0, none);
            &&& 0 <= at < names.len()
            &&& names[at] == name
            &&& forall|k: int| 0 <= k < at ==> names[k] != name
        },
{
    lemma_first_place(names, name, 0, none);
}

proof fn lemma_first_place(names: Seq<Seq<char>>, name: Seq<char>, from: int, none: int)
    requires
        0 <= from <= names.len(),
        forall|k: int| 0 <= k < from ==> names[k] != name,
    ensures
        !names.contains(name) ==> first_position(names, name, from, none) == none,
        names.contains(name) ==> {
            let at = first_position(names, name, from, none);
            &&& from <= at < names.len()
            &&& names[at] == name
            &&& forall|k: int| 0 <= k < at ==> names[k] != name
        },
    decreases names.len() - from,
{
    if from < names.len() && names[from] != name {
        lemma_first_place(names, name, from + 1, none);
    }
}

/// Going on from the last one leads to the first, going back from the first to the last, and
/// any other step to the neighbour.
pub proof fn law_ring_has_its_neighbours(index: int, len: int)
    requires
        0 <= index < len,
    ensures
        index < len - 1 ==> ring_next(index, len) == index + 1,
        index == len - 1 ==> ring_next(index, len) == 0,
        index > 0 ==> ring_prev(index, len) == index - 1,
        index == 0 ==> ring_prev(index, len) == len - 1,
{
    if index < len - 1 {
        vstd::arithmetic::div_mod::lemma_small_mod((index + 1) as nat, len as nat);
    } else {
        vstd::arithmetic::div_mod::lemma_mod_self_0(len);
    }
}

/// The name of a way to verify moves.
pub open spec fn verification_name(verification: CrossVolumeMoveVerification) -> Seq<char> {
    match verification {
        CrossVolumeMoveVerification::Standard => "Standard"@,
        CrossVolumeMoveVerification::Strict => "Strict"@,
    }
}

/// The theme at a place of the list, the usual one where there is none.
pub open spec fn theme_at(themes: Seq<Seq<char>>, index: int) -> Seq<char> {
    if index < themes.len() {
        themes[index]
    } else {
        DEFAULT_THEME_NAME@
    }
}

/// The theme that is shown is the one chosen from the list, and the usual one past its end;
/// the two ways to verify moves are named apart.
pub proof fn law_choices_are_shown(themes: Seq<Seq<char>>, index: int, theme: Seq<char>)
    ensures
        0 <= index <= themes.len() ==> theme_at(themes.insert(index, theme), index) == theme,
        theme_at(themes, themes.len() as int) == DEFAULT_THEME_NAME@,
        verification_name(CrossVolumeMoveVerification::Strict) == "Strict"@,
        verification_name(CrossVolumeMoveVerification::Standard) == "Standard"@,
{
}

} // verus!
