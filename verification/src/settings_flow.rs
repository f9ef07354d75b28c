//! The settings in use: how they are read, kept in step with the program, and
//! written.

use crate::app_state::{nothing_open, says, App};
use crate::clipboard::copy_texts;
use crate::dialogs::{dialog_view, plain_dialog, Dialog, DialogType, ThemeWatchState};
use crate::navigation::Places;
use crate::panel::{is_fresh_panel, PanelState};
use crate::paths::{components, same_path};
use crate::remote_connect::RemoteProfile;
use crate::settings::{
    alphabetical, first_position, law_first_place_of_a_name, position_of_text, theme_names,
    DEFAULT_THEME_NAME, ExtensionHandler, PanelSettings, Settings, SettingsState,
};
use crate::sorting::{
    law_sort_by_round_trip, law_sort_order_round_trip, lowercase_text, parse_sort_by,
    parse_sort_order, sort_by_to_string, sort_by_word, sort_order_to_string, sort_order_word,
    word_of_sort_by, word_of_sort_order, SortBy, SortOrder,
};
use crate::text::{concat2, concat3, same_text, views};
use vstd::prelude::*;

verus! {

/// A theme file: where it is, where there is one, and when it last changed.
#[derive(Debug)]
pub struct ThemeFile {
    pub path: Option<String>,
    pub modified: Option<u64>,
}

/// Whether two lists of handlers say the same.
pub open spec fn same_handlers(a: Seq<ExtensionHandler>, b: Seq<ExtensionHandler>) -> bool {
    &&& a.len() == b.len()
    &&& forall|i: int|
        #![trigger a[i]]
        #![trigger b[i]]
        0 <= i < a.len() ==> a[i].extension == b[i].extension && a[i].commands@ == b[i].commands@
}

/// Whether two settings say the same.
pub open spec fn same_settings(a: Settings, b: Settings) -> bool {
    &&& a.panels@ == b.panels@
    &&& a.active_panel_index == b.active_panel_index
    &&& a.theme_name == b.theme_name
    &&& a.diff_compare_method == b.diff_compare_method
    &&& a.cross_volume_move_verification == b.cross_volume_move_verification
    &&& a.bookmarked_path@ == b.bookmarked_path@
    &&& a.tar_path == b.tar_path
    &&& a.remote_profiles@ == b.remote_profiles@
    &&& same_handlers(a.extension_handlers@, b.extension_handlers@)
    &&& a.telegram_polling_time == b.telegram_polling_time
    &&& a.encrypt_split_size == b.encrypt_split_size
}

impl Clone for PanelSettings {
    fn clone(&self) -> (r: Self)
        ensures
            r == *self,
    {
        PanelSettings {
            start_path: match &self.start_path {
                Some(path) => Some(path.clone()),
                None => None,
            },
            sort_by: self.sort_by.clone(),
            sort_order: self.sort_order.clone(),
        }
    }
}

impl Settings {
    /// A copy that says the same.
    pub fn copy(&self) -> (r: Settings)
        ensures
            same_settings(r, *self),
    {
        let mut panels: Vec<PanelSettings> = Vec::new();
        let mut i: usize = 0;
        while i < self.panels.len()
            invariant
                i <= self.panels@.len(),
                panels@ == self.panels@.take(i as int),
            decreases self.panels@.len() - i,
        {
            panels.push(self.panels[i].clone());
            assert(self.panels@.take(i + 1) =~= self.panels@.take(i as int).push(
                self.panels@[i as int],
            ));
            i += 1;
        }
        assert(self.panels@.take(i as int) =~= self.panels@);
        let mut profiles: Vec<RemoteProfile> = Vec::new();
        let mut k: usize = 0;
        while k < self.remote_profiles.len()
            invariant
                k <= self.remote_profiles@.len(),
                profiles@ == self.remote_profiles@.take(k as int),
            decreases self.remote_profiles@.len() - k,
        {
            profiles.push(self.remote_profiles[k].clone());
            assert(self.remote_profiles@.take(k + 1) =~= self.remote_profiles@.take(k as int).push(
                self.remote_profiles@[k as int],
            ));
            k += 1;
        }
        assert(self.remote_profiles@.take(k as int) =~= self.remote_profiles@);
        let mut handlers: Vec<ExtensionHandler> = Vec::new();
        let mut m: usize = 0;
        while m < self.extension_handlers.len()
            invariant
                m <= self.extension_handlers@.len(),
                same_handlers(handlers@, self.extension_handlers@.take(m as int)),
            decreases self.extension_handlers@.len() - m,
        {
            let ghost held = handlers@;
            handlers.push(
                ExtensionHandler {
                    extension: self.extension_handlers[m].extension.clone(),
                    commands: copy_texts(&self.extension_handlers[m].commands),
                },
            );
            proof {
                let longer = self.extension_handlers@.take(m + 1);
                let shorter = self.extension_handlers@.take(m as int);
                assert forall|j: int| 0 <= j < handlers@.len() implies handlers@[j].extension
                    == #[trigger] longer[j].extension && handlers@[j].commands@
                    == longer[j].commands@ by {
                    if j < m {
                        assert(longer[j] == shorter[j]);
                        assert(handlers@[j] == held[j]);
                    }
                }
            }
            m += 1;
        }
        assert(self.extension_handlers@.take(m as int) =~= self.extension_handlers@);
        Settings {
            panels,
            active_panel_index: self.active_panel_index,
            theme_name: self.theme_name.clone(),
            diff_compare_method: self.diff_compare_method.clone(),
            cross_volume_move_verification: self.cross_volume_move_verification,
            bookmarked_path: copy_texts(&self.bookmarked_path),
            tar_path: match &self.tar_path {
                Some(path) => Some(path.clone()),
                None => None,
            },
            remote_profiles: profiles,
            extension_handlers: handlers,
            telegram_polling_time: self.telegram_polling_time,
            encrypt_split_size: self.encrypt_split_size,
        }
    }
}

/// A panel sorted as settings say.
pub open spec fn sorted_as(panel: PanelState, settings: PanelSettings) -> PanelState {
    PanelState {
        sort_by: sort_by_word(lowercase_text(settings.sort_by@)),
        sort_order: sort_order_word(lowercase_text(settings.sort_order@)),
        ..panel
    }
}

/// The panels sorted as settings say; a panel without settings stays.
pub open spec fn panels_sorted_as(panels: Seq<PanelState>, settings: Seq<PanelSettings>) -> Seq<
    PanelState,
> {
    Seq::new(
        panels.len(),
        |i: int|
            if i < settings.len() {
                sorted_as(panels[i], settings[i])
            } else {
                panels[i]
            },
    )
}

/// Which panels have to be read again once they are sorted otherwise.
pub open spec fn sorted_otherwise(before: Seq<PanelState>, after: Seq<PanelState>) -> Seq<bool> {
    Seq::new(
        before.len(),
        |i: int|
            before[i].sort_by != after[i].sort_by || before[i].sort_order != after[i].sort_order,
    )
}

/// The program with settings that were read: the theme follows, and the panels
/// are sorted as they say.
pub open spec fn applies(before: App, after: App, settings: Settings, theme: ThemeFile) -> bool {
    let other = settings.theme_name@ != before.settings.theme_name@;
    &&& after == App {
        settings,
        theme: after.theme,
        theme_watch_state: after.theme_watch_state,
        panels: after.panels,
        ..before
    }
    &&& after.theme == if other { settings.theme_name } else { before.theme }
    &&& after.theme_watch_state == if other {
        fresh_watch(theme)
    } else {
        before.theme_watch_state
    }
    &&& after.panels@ == panels_sorted_as(before.panels@, settings.panels@)
}

/// What the settings keep of the panels: a remote panel is kept as one on the
/// home directory.
pub open spec fn is_layout(panels: Seq<PanelState>, home: Seq<char>, kept: Seq<PanelSettings>) -> bool {
    &&& kept.len() == panels.len()
    &&& forall|i: int|
        #![trigger kept[i]]
        0 <= i < kept.len() ==> {
            &&& kept[i].start_path matches Some(path) && path@ == if panels[i].remote() {
                home
            } else {
                panels[i].path@
            }
            &&& kept[i].sort_by@ == word_of_sort_by(panels[i].sort_by)
            &&& kept[i].sort_order@ == word_of_sort_order(panels[i].sort_order)
        }
}

/// What is said of settings whose writing failed.
pub open spec fn doubt(head: Seq<char>, error: Seq<char>, what: Seq<char>, reloaded: bool) -> Seq<char> {
    head + error + "); "@ + if reloaded {
        "effective "@ + what + " were reloaded from disk"@
    } else {
        "disk could not be reread; the last known "@ + what + " were restored"@
    }
}

/// A settings dialog that was just opened.
pub open spec fn is_fresh_settings_dialog(
    state: SettingsState,
    settings: Settings,
    found: Seq<Seq<char>>,
) -> bool {
    &&& views(state.themes@) == alphabetical(theme_names(found))
    &&& state.theme_index == first_position(views(state.themes@), settings.theme_name@, 0, 0)
    &&& state.selected_field == 0
    &&& views(state.diff_methods@) == seq!["content"@, "modified_time"@, "content_and_time"@]
    &&& state.diff_method_index == first_position(
        views(state.diff_methods@),
        settings.diff_compare_method@,
        0,
        0,
    )
    &&& state.cross_volume_move_verification == settings.cross_volume_move_verification
}

/// The theme that the dialog shows.
pub open spec fn shown_theme(state: SettingsState) -> Seq<char> {
    if state.theme_index < state.themes@.len() {
        state.themes@[state.theme_index as int]@
    } else {
        DEFAULT_THEME_NAME@
    }
}

/// The compare method that the dialog shows.
pub open spec fn shown_method(state: SettingsState) -> Seq<char> {
    if state.diff_method_index < state.diff_methods@.len() {
        state.diff_methods@[state.diff_method_index as int]@
    } else {
        "content"@
    }
}

/// The watch over a theme file that was just taken into use.
pub open spec fn fresh_watch(theme: ThemeFile) -> ThemeWatchState {
    ThemeWatchState {
        theme_path: theme.path,
        last_modified: if theme.path is Some { theme.modified } else { None },
        check_counter: 0,
    }
}

/// What comes of writing settings: where it failed, the settings that are on disk
/// are taken, or the previous ones where none can be read; and the user is told.
pub open spec fn settled(
    before: App,
    after: App,
    previous: Settings,
    result: Result<(), String>,
    persisted: Option<Settings>,
    theme: ThemeFile,
    good: Seq<char>,
    bad: Seq<char>,
    what: Seq<char>,
) -> bool {
    match result {
        Ok(_) => says(before, after, good),
        Err(error) => {
            &&& after.message matches Some(text) && text@ == doubt(
                bad,
                error@,
                what,
                persisted is Some,
            )
            &&& applies(
                App { message: after.message, message_timer: 10, ..before },
                after,
                match persisted {
                    Some(settings) => settings,
                    None => previous,
                },
                theme,
            )
        },
    }
}

/// The bookmarks with a path taken out where it is there, and put in where it is
/// not.
pub open spec fn toggled(bookmarks: Seq<String>, path: String) -> Seq<String> {
    let at = first_position(views(bookmarks), path@, 0, bookmarks.len() as int);
    if at < bookmarks.len() {
        bookmarks.remove(at)
    } else {
        bookmarks.push(path)
    }
}

/// Whether a theme file is watched from the beginning.
pub open spec fn watches(watch: ThemeWatchState, theme: ThemeFile) -> bool {
    &&& watch.theme_path == theme.path
    &&& watch.last_modified == if theme.path is Some { theme.modified } else { None }
    &&& watch.check_counter == 0
}

/// What agreeing to the settings dialog does.
pub open spec fn dialog_applied(
    before: App,
    after: App,
    theme: ThemeFile,
    r: Option<Settings>,
) -> bool {
    match before.settings_state {
        None => r is None && after == (App { dialog: None, ..before }),
        Some(state) => {
            let other = shown_theme(state) != before.settings.theme_name@;
            &&& r matches Some(previous) && same_settings(previous, before.settings)
            &&& after == (App {
                settings: Settings {
                    theme_name: after.settings.theme_name,
                    diff_compare_method: after.settings.diff_compare_method,
                    cross_volume_move_verification: state.cross_volume_move_verification,
                    ..before.settings
                },
                theme: after.theme,
                theme_watch_state: if other {
                    fresh_watch(theme)
                } else {
                    before.theme_watch_state
                },
                settings_state: None,
                dialog: None,
                ..before
            })
            &&& after.settings.theme_name@ == shown_theme(state)
            &&& after.theme@ == if other {
                shown_theme(state)
            } else {
                before.theme@
            }
            &&& after.settings.diff_compare_method@ == shown_method(state)
        },
    }
}

/// What is written to the disk.
pub open spec fn merges_settings(
    app: App,
    on_disk: Result<Settings, String>,
    home: Seq<char>,
    r: Result<Settings, String>,
) -> bool {
    match on_disk {
        Err(error) => r matches Err(e) && e@
            == "refusing to replace unreadable settings: "@ + error@,
        Ok(settings) => {
            &&& r matches Ok(merged)
            &&& merged == (Settings {
                panels: merged.panels,
                active_panel_index: app.active_panel_index,
                ..settings
            })
            &&& is_layout(app.panels@, home, merged.panels@)
        },
    }
}

impl App {
    /// The program on two directories with the default settings.
    pub fn new(
        first_path: &str,
        second_path: &str,
        places: &Places,
        settings: Settings,
        theme: ThemeFile,
    ) -> (r: App)
        ensures
            r.wf(),
            nothing_open(r),
            r.panels@.len() == 2,
            is_fresh_panel(
                r.panels@[0],
                places.nearest(first_path@),
                SortBy::Name,
                SortOrder::Asc,
            ),
            is_fresh_panel(
                r.panels@[1],
                places.nearest(second_path@),
                SortBy::Name,
                SortOrder::Asc,
            ),
            r.active_panel_index == 0,
            r.settings == settings,
            r.theme@ == DEFAULT_THEME_NAME@,
            watches(r.theme_watch_state, theme),
    {
        let mut panels: Vec<PanelState> = Vec::new();
        panels.push(PanelState::new(first_path, places));
        panels.push(PanelState::new(second_path, places));
        let watch = ThemeWatchState::watch_theme(theme.path, theme.modified);
        App::with_panels(panels, 0, settings, DEFAULT_THEME_NAME.to_owned(), watch)
    }

    /// The program with the settings that were read. `paths` holds the directory
    /// that each panel of the settings starts on; without any panel the program
    /// starts on `first` and at home.
    pub fn with_settings(
        settings: Settings,
        paths: Vec<String>,
        first: &str,
        places: &Places,
        theme: ThemeFile,
    ) -> (r: App)
        requires
            paths@.len() == settings.panels@.len(),
        ensures
            r.wf(),
            nothing_open(r),
            r.settings == settings,
            r.theme == settings.theme_name,
            watches(r.theme_watch_state, theme),
            r.active_panel_index == if settings.active_panel_index < r.panels@.len() {
                settings.active_panel_index as int
            } else {
                r.panels@.len() - 1
            },
            settings.panels@.len() == 0 ==> {
                &&& r.panels@.len() == 2
                &&& is_fresh_panel(
                    r.panels@[0],
                    places.nearest(first@),
                    SortBy::Name,
                    SortOrder::Asc,
                )
                &&& is_fresh_panel(
                    r.panels@[1],
                    places.nearest(places.home@),
                    SortBy::Name,
                    SortOrder::Asc,
                )
            },
            settings.panels@.len() > 0 ==> {
                &&& r.panels@.len() == paths@.len()
                &&& forall|i: int|
                    0 <= i < paths@.len() ==> is_fresh_panel(
                        #[trigger] r.panels@[i],
                        places.nearest(paths@[i]@),
                        sort_by_word(lowercase_text(settings.panels@[i].sort_by@)),
                        sort_order_word(lowercase_text(settings.panels@[i].sort_order@)),
                    )
            },
    {
        let mut panels: Vec<PanelState> = Vec::new();
        if settings.panels.len() == 0 {
            panels.push(PanelState::new(first, places));
            panels.push(PanelState::new(places.home.as_str(), places));
        } else {
            let mut i: usize = 0;
            while i < settings.panels.len()
                invariant
                    i <= settings.panels@.len(),
                    paths@.len() == settings.panels@.len(),
                    panels@.len() == i,
                    forall|k: int|
                        0 <= k < i ==> is_fresh_panel(
                            #[trigger] panels@[k],
                            places.nearest(paths@[k]@),
                            sort_by_word(lowercase_text(settings.panels@[k].sort_by@)),
                            sort_order_word(lowercase_text(settings.panels@[k].sort_order@)),
                        ),
                decreases settings.panels@.len() - i,
            {
                panels.push(
                    PanelState::with_settings(
                        paths[i].as_str(),
                        settings.panels[i].sort_by.as_str(),
                        settings.panels[i].sort_order.as_str(),
                        places,
                    ),
                );
                i += 1;
            }
        }
        let last: usize = panels.len() - 1;
        let active: usize = if settings.active_panel_index < last {
            settings.active_panel_index
        } else {
            last
        };
        let name = settings.theme_name.clone();
        let watch = ThemeWatchState::watch_theme(theme.path, theme.modified);
        App::with_panels(panels, active, settings, name, watch)
    }

    /// What the settings keep of the panels.
    pub fn panel_layout(&self, home: &str) -> (r: Vec<PanelSettings>)
        ensures
            is_layout(self.panels@, home@, r@),
    {
        let mut r: Vec<PanelSettings> = Vec::new();
        let mut i: usize = 0;
        while i < self.panels.len()
            invariant
                i <= self.panels@.len(),
                is_layout(self.panels@.take(i as int), home@, r@),
            decreases self.panels@.len() - i,
        {
            let ghost held = r@;
            let panel = &self.panels[i];
            let path = if panel.is_remote() { home.to_owned() } else { panel.path.clone() };
            r.push(
                PanelSettings {
                    start_path: Some(path),
                    sort_by: sort_by_to_string(panel.sort_by),
                    sort_order: sort_order_to_string(panel.sort_order),
                },
            );
            proof {
                let longer = self.panels@.take(i + 1);
                assert forall|k: int| #![trigger r@[k]] 0 <= k < r@.len() implies {
                    &&& r@[k].start_path matches Some(path) && path@ == if longer[k].remote() {
                        home@
                    } else {
                        longer[k].path@
                    }
                    &&& r@[k].sort_by@ == word_of_sort_by(longer[k].sort_by)
                    &&& r@[k].sort_order@ == word_of_sort_order(longer[k].sort_order)
                } by {
                    if k < i {
                        assert(r@[k] == held[k]);
                        assert(longer[k] == self.panels@.take(i as int)[k]);
                    }
                }
            }
            i += 1;
        }
        assert(self.panels@.take(i as int) =~= self.panels@);
        r
    }

    /// The settings to write when the program ends: those on disk, with the panels
    /// as they are now. Settings that cannot be read are not replaced.
    pub fn save_settings(&self, on_disk: Result<Settings, String>, home: &str) -> (r: Result<
        Settings,
        String,
    >)
        ensures
            merges_settings(*self, on_disk, home@, r),
    {
        match on_disk {
            Err(error) => Err(
                concat2("refusing to replace unreadable settings: ", error.as_str()),
            ),
            Ok(settings) => {
                let mut merged = settings;
                merged.panels = self.panel_layout(home);
                merged.active_panel_index = self.active_panel_index;
                Ok(merged)
            },
        }
    }

    /// Takes settings over once they were written.
    pub fn settings_saved(&mut self, merged: Settings, result: &Result<(), String>)
        ensures
            *final(self) == (App {
                settings: if *result is Ok { merged } else { old(self).settings },
                ..*old(self)
            }),
    {
        if result.is_ok() {
            self.settings = merged;
        }
    }

    /// Brings the program in step with settings that were read. `theme` is the
    /// file of their theme. Says which panels have to be read again.
    pub fn apply_loaded_settings(&mut self, new_settings: Settings, theme: ThemeFile) -> (reload:
        Vec<bool>)
        ensures
            applies(*old(self), *final(self), new_settings, theme),
            reload@ == sorted_otherwise(old(self).panels@, final(self).panels@),
    {
        if !same_text(new_settings.theme_name.as_str(), self.settings.theme_name.as_str()) {
            self.theme = new_settings.theme_name.clone();
            self.theme_watch_state.update_theme(theme.path, theme.modified);
        }
        let ghost before = self.panels@;
        let ghost wanted = panels_sorted_as(before, new_settings.panels@);
        let ghost flags = sorted_otherwise(before, wanted);
        let ghost frame = *self;
        let mut reload: Vec<bool> = Vec::new();
        let mut i: usize = 0;
        while i < self.panels.len()
            invariant
                i <= self.panels@.len(),
                self.panels@.len() == before.len(),
                wanted == panels_sorted_as(before, new_settings.panels@),
                flags == sorted_otherwise(before, wanted),
                *self == (App { panels: self.panels, ..frame }),
                forall|k: int| 0 <= k < i ==> (#[trigger] self.panels@[k]) == wanted[k],
                forall|k: int| i <= k < before.len() ==> (#[trigger] self.panels@[k]) == before[k],
                reload@ == flags.take(i as int),
            decreases self.panels@.len() - i,
        {
            assert(self.panels@[i as int] == before[i as int]);
            let mut changed = false;
            if i < new_settings.panels.len() {
                let by = parse_sort_by(new_settings.panels[i].sort_by.as_str());
                let order = parse_sort_order(new_settings.panels[i].sort_order.as_str());
                changed = self.panels[i].sort_by != by || self.panels[i].sort_order != order;
                self.panels[i].sort_by = by;
                self.panels[i].sort_order = order;
            }
            reload.push(changed);
            assert(self.panels@[i as int] == wanted[i as int]);
            assert(flags.take(i + 1) =~= flags.take(i as int).push(flags[i as int]));
            i += 1;
        }
        assert(self.panels@ =~= wanted);
        assert(flags.take(i as int) =~= flags);
        self.settings = new_settings;
        reload
    }

    /// Takes settings that were read again. Says whether they could be, and which
    /// panels have to be read again.
    pub fn reload_settings(&mut self, loaded: Result<Settings, String>, theme: ThemeFile) -> (r: (
        bool,
        Vec<bool>,
    ))
        ensures
            match loaded {
                Err(error) => {
                    &&& says(*old(self), *final(self), "Settings error: "@ + error@)
                    &&& !r.0
                    &&& r.1@.len() == 0
                },
                Ok(settings) => {
                    &&& r.0
                    &&& final(self).message_timer == 10
                    &&& final(self).message matches Some(text) && text@ == "Settings reloaded"@
                    &&& applies(
                        (App { message: final(self).message, message_timer: 10, ..*old(self) }),
                        *final(self),
                        settings,
                        theme,
                    )
                    &&& r.1@ == sorted_otherwise(old(self).panels@, final(self).panels@)
                },
            },
    {
        match loaded {
            Err(error) => {
                let text = concat2("Settings error: ", error.as_str());
                self.show_message(text.as_str());
                (false, Vec::new())
            },
            Ok(settings) => {
                let reload = self.apply_loaded_settings(settings, theme);
                self.show_message("Settings reloaded");
                (true, reload)
            },
        }
    }

    /// Brings the program in step with the settings that hold once writing them
    /// failed: those on disk, or the previous ones where none can be read. Says
    /// whether there were any on disk, and which panels have to be read again.
    pub fn reconcile_settings_after_save_error(
        &mut self,
        previous: Settings,
        persisted: Option<Settings>,
        theme: ThemeFile,
    ) -> (r: (bool, Vec<bool>))
        ensures
            r.0 == (persisted is Some),
            applies(
                *old(self),
                *final(self),
                match persisted {
                    Some(settings) => settings,
                    None => previous,
                },
                theme,
            ),
            r.1@ == sorted_otherwise(old(self).panels@, final(self).panels@),
    {
        match persisted {
            Some(settings) => (true, self.apply_loaded_settings(settings, theme)),
            None => (false, self.apply_loaded_settings(previous, theme)),
        }
    }

    /// Opens the settings dialog. `theme_files` holds the themes that were found.
    pub fn show_settings_dialog(&mut self, theme_files: &Vec<String>)
        ensures
            *final(self) == (App {
                settings_state: final(self).settings_state,
                dialog: final(self).dialog,
                ..*old(self)
            }),
            final(self).settings_state matches Some(state) && is_fresh_settings_dialog(
                state,
                old(self).settings,
                views(theme_files@),
            ),
            dialog_view(final(self).dialog) == Some(
                plain_dialog(DialogType::Settings, Seq::empty(), Seq::empty()),
            ),
    {
        self.settings_state = Some(SettingsState::new(&self.settings, theme_files));
        let dialog = Dialog::plain(DialogType::Settings, String::new(), String::new());
        assert(dialog@ == plain_dialog(DialogType::Settings, Seq::empty(), Seq::empty()));
        self.dialog = Some(dialog);
    }

    /// Takes over what the settings dialog shows and closes it. `theme` is the file
    /// of the theme that it shows. Gives the settings as they were; the new ones
    /// are still to be written.
    pub fn apply_settings_from_dialog(&mut self, theme: ThemeFile) -> (r: Option<Settings>)
        ensures
            dialog_applied(*old(self), *final(self), theme, r),
    {
        self.dialog = None;
        match self.settings_state.take() {
            None => None,
            Some(state) => {
                let previous = self.settings.copy();
                let name = state.current_theme();
                if !same_text(name, self.settings.theme_name.as_str()) {
                    self.settings.theme_name = name.to_owned();
                    self.theme = name.to_owned();
                    self.theme_watch_state.update_theme(theme.path, theme.modified);
                }
                self.settings.diff_compare_method = state.current_diff_method().to_owned();
                self.settings.cross_volume_move_verification = state.cross_volume_move_verification;
                Some(previous)
            },
        }
    }

    fn settle(
        &mut self,
        previous: Settings,
        result: Result<(), String>,
        persisted: Option<Settings>,
        theme: ThemeFile,
        good: &str,
        bad: &str,
        what: &str,
    ) -> (reload: Vec<bool>)
        ensures
            settled(
                *old(self),
                *final(self),
                previous,
                result,
                persisted,
                theme,
                good@,
                bad@,
                what@,
            ),
            result is Ok ==> reload@.len() == 0,
            result is Err ==> reload@ == sorted_otherwise(old(self).panels@, final(self).panels@),
    {
        match result {
            Ok(_) => {
                self.show_message(good);
                Vec::new()
            },
            Err(error) => {
                let (reloaded, reload) = self.reconcile_settings_after_save_error(
                    previous,
                    persisted,
                    theme,
                );
                let head = concat3(bad, error.as_str(), "); ");
                let detail = if reloaded {
                    concat3("effective ", what, " were reloaded from disk")
                } else {
                    concat3("disk could not be reread; the last known ", what, " were restored")
                };
                let text = concat2(head.as_str(), detail.as_str());
                self.show_message(text.as_str());
                reload
            },
        }
    }

    /// Tells the user what came of writing the settings of the dialog.
    pub fn settings_dialog_saved(
        &mut self,
        previous: Settings,
        result: Result<(), String>,
        persisted: Option<Settings>,
        theme: ThemeFile,
    ) -> (reload: Vec<bool>)
        ensures
            settled(
                *old(self),
                *final(self),
                previous,
                result,
                persisted,
                theme,
                "Settings saved!"@,
                "Could not confirm settings durability ("@,
                "settings"@,
            ),
            result is Ok ==> reload@.len() == 0,
            result is Err ==> reload@ == sorted_otherwise(old(self).panels@, final(self).panels@),
    {
        self.settle(
            previous,
            result,
            persisted,
            theme,
            "Settings saved!",
            "Could not confirm settings durability (",
            "settings",
        )
    }

    /// Bookmarks the path of the panel, or takes its bookmark away. `remote` stands
    /// for its remote path. Gives the settings as they were, and what the user is
    /// told once the new ones were written.
    pub fn toggle_bookmark(&mut self, remote: String) -> (r: (Settings, String))
        requires
            old(self).wf(),
        ensures
            same_settings(r.0, old(self).settings),
            *final(self) == (App {
                settings: Settings {
                    bookmarked_path: final(self).settings.bookmarked_path,
                    ..old(self).settings
                },
                ..*old(self)
            }),
            ({
                let path = old(self).active().shown_as(remote);
                let bookmarks = old(self).settings.bookmarked_path@;
                &&& final(self).settings.bookmarked_path@ == toggled(bookmarks, path)
                &&& r.1@ == if views(bookmarks).contains(path@) {
                    "Bookmark removed: "@ + path@
                } else {
                    "Bookmark added: "@ + path@
                }
            }),
    {
        let current_path = self.active_panel().display_path(remote);
        let previous = self.settings.copy();
        let count: usize = self.settings.bookmarked_path.len();
        let at: usize = position_of_text(
            &self.settings.bookmarked_path,
            current_path.as_str(),
            count,
        );
        proof {
            lemma_first_position(
                views(old(self).settings.bookmarked_path@),
                current_path@,
                0,
            );
        }
        if at < count {
            let _ = self.settings.bookmarked_path.remove(at);
            (previous, concat2("Bookmark removed: ", current_path.as_str()))
        } else {
            let text = concat2("Bookmark added: ", current_path.as_str());
            self.settings.bookmarked_path.push(current_path);
            (previous, text)
        }
    }

    /// Tells the user what came of writing the bookmarks.
    pub fn bookmark_saved(
        &mut self,
        previous: Settings,
        success: &str,
        result: Result<(), String>,
        persisted: Option<Settings>,
        theme: ThemeFile,
    ) -> (reload: Vec<bool>)
        ensures
            settled(
                *old(self),
                *final(self),
                previous,
                result,
                persisted,
                theme,
                success@,
                "Could not confirm bookmark durability ("@,
                "bookmarks"@,
            ),
            result is Ok ==> reload@.len() == 0,
            result is Err ==> reload@ == sorted_otherwise(old(self).panels@, final(self).panels@),
    {
        self.settle(
            previous,
            result,
            persisted,
            theme,
            success,
            "Could not confirm bookmark durability (",
            "bookmarks",
        )
    }

    /// Closes the settings dialog without a change; the theme in use is again the
    /// one of the settings.
    pub fn cancel_settings_dialog(&mut self)
        ensures
            *final(self) == (App {
                theme: old(self).settings.theme_name,
                settings_state: None,
                dialog: None,
                ..*old(self)
            }),
    {
        self.theme = self.settings.theme_name.clone();
        self.settings_state = None;
        self.dialog = None;
    }

    /// Takes the theme of the settings into use.
    pub fn reload_theme(&mut self)
        ensures
            *final(self) == (App { theme: old(self).settings.theme_name, ..*old(self) }),
    {
        self.theme = self.settings.theme_name.clone();
    }

    /// Whether a path is that of the settings file.
    pub fn is_settings_file(path: &str, config_path: Option<&str>) -> (r: bool)
        ensures
            r == (config_path matches Some(config) && components(path@) == components(config@)),
    {
        match config_path {
            Some(config) => same_path(path, config),
            None => false,
        }
    }
}

/// Bookmarking a path twice leaves the bookmarks as they were, where it was not
/// bookmarked.
pub proof fn law_bookmarking_twice_is_nothing(bookmarks: Seq<String>, path: String)
    requires
        !views(bookmarks).contains(path@),
    ensures
        toggled(toggled(bookmarks, path), path) == bookmarks,
{
    let longer = bookmarks.push(path);
    lemma_first_position(views(bookmarks), path@, 0);
    assert(toggled(bookmarks, path) == longer);
    assert forall|k: int| 0 <= k < bookmarks.len() implies (#[trigger] views(longer)[k]) != path@ by {
        assert(views(longer)[k] == views(bookmarks)[k]);
    }
    assert(views(longer)[bookmarks.len() as int] == path@);
    lemma_first_position(views(longer), path@, 0);
    assert(longer.remove(bookmarks.len() as int) =~= bookmarks);
}

proof fn lemma_first_position(names: Seq<Seq<char>>, name: Seq<char>, from: int)
    requires
        0 <= from <= names.len(),
    ensures
        ({
            let at = first_position(names, name, from, names.len() as int);
            &&& from <= at <= names.len()
            &&& at < names.len() ==> names[at] == name
            &&& forall|k: int| from <= k < at ==> (#[trigger] names[k]) != name
        }),
        from == 0 ==> (first_position(names, name, 0, names.len() as int) < names.len())
            == names.contains(name),
    decreases names.len() - from,
{
    if from < names.len() && names[from] != name {
        lemma_first_position(names, name, from + 1);
    }
    let at = first_position(names, name, from, names.len() as int);
    if from == 0 && names.contains(name) {
        let k = choose|k: int| 0 <= k < names.len() && names[k] == name;
        assert(at <= k);
    }
}

/// Settings that were loaded change the sorting of the panels that they know, and nothing
/// else of any panel; the theme changes only where another one is named.
pub proof fn law_loaded_settings_change_the_sorting(
    before: App,
    after: App,
    settings: Settings,
    theme: ThemeFile,
    i: int,
)
    requires
        applies(before, after, settings, theme),
        0 <= i < before.panels@.len(),
    ensures
        after.settings == settings,
        after.panels@.len() == before.panels@.len(),
        after.panels@[i].path == before.panels@[i].path,
        after.panels@[i].files == before.panels@[i].files,
        after.panels@[i].selected_files == before.panels@[i].selected_files,
        i >= settings.panels@.len() ==> after.panels@[i] == before.panels@[i],
        i < settings.panels@.len() ==> {
            &&& after.panels@[i].sort_by == sort_by_word(
                lowercase_text(settings.panels@[i].sort_by@),
            )
            &&& after.panels@[i].sort_order == sort_order_word(
                lowercase_text(settings.panels@[i].sort_order@),
            )
        },
        settings.theme_name@ == before.settings.theme_name@ ==> after.theme == before.theme
            && after.theme_watch_state == before.theme_watch_state,
        settings.theme_name@ != before.settings.theme_name@ ==> after.theme == settings.theme_name
            && after.theme_watch_state.check_counter == 0 && after.theme_watch_state.theme_path
            == theme.path,
        sorted_otherwise(before.panels@, after.panels@)[i] <==> (before.panels@[i].sort_by
            != after.panels@[i].sort_by || before.panels@[i].sort_order
            != after.panels@[i].sort_order),
{
}

/// A panel is kept with the directory it shows, a remote one with the home directory, and
/// with words that mean how it is sorted.
pub proof fn law_layout_means_the_panels(
    panels: Seq<PanelState>,
    home: Seq<char>,
    kept: Seq<PanelSettings>,
    i: int,
)
    requires
        is_layout(panels, home, kept),
        0 <= i < panels.len(),
    ensures
        kept.len() == panels.len(),
        kept[i].start_path is Some,
        panels[i].remote() ==> kept[i].start_path->0@ == home,
        !panels[i].remote() ==> kept[i].start_path->0@ == panels[i].path@,
        sort_by_word(kept[i].sort_by@) == panels[i].sort_by,
        sort_order_word(kept[i].sort_order@) == panels[i].sort_order,
{
    assert(kept[i].start_path is Some);
    law_sort_by_round_trip(panels[i].sort_by);
    law_sort_order_round_trip(panels[i].sort_order);
}

/// Settings that cannot be read are never replaced; of those that can, only the layout of
/// the panels is.
pub proof fn law_saving_keeps_other_settings(
    app: App,
    on_disk: Result<Settings, String>,
    home: Seq<char>,
    r: Result<Settings, String>,
)
    requires
        merges_settings(app, on_disk, home, r),
    ensures
        r is Ok <==> on_disk is Ok,
        r matches Ok(merged) ==> {
            &&& merged.theme_name == on_disk->Ok_0.theme_name
            &&& merged.diff_compare_method == on_disk->Ok_0.diff_compare_method
            &&& merged.bookmarked_path == on_disk->Ok_0.bookmarked_path
            &&& merged.remote_profiles == on_disk->Ok_0.remote_profiles
            &&& merged.extension_handlers == on_disk->Ok_0.extension_handlers
            &&& merged.cross_volume_move_verification
                == on_disk->Ok_0.cross_volume_move_verification
            &&& merged.active_panel_index == app.active_panel_index
            &&& merged.panels@.len() == app.panels@.len()
        },
{
}

/// The settings become what the dialog shows, and the dialog closes; without one only the
/// dialog closes.
pub proof fn law_dialog_sets_what_it_shows(
    before: App,
    after: App,
    theme: ThemeFile,
    r: Option<Settings>,
)
    requires
        dialog_applied(before, after, theme, r),
    ensures
        after.dialog is None,
        r is Some <==> before.settings_state is Some,
        before.settings_state is Some && before.settings_state->0.wf() ==> {
            let state = before.settings_state->0;
            &&& after.settings.theme_name@ == state.themes@[state.theme_index as int]@
            &&& after.settings.diff_compare_method@
                == state.diff_methods@[state.diff_method_index as int]@
            &&& after.settings.cross_volume_move_verification
                == state.cross_volume_move_verification
            &&& after.settings_state is None
            &&& after.settings.bookmarked_path == before.settings.bookmarked_path
            &&& r->0.theme_name == before.settings.theme_name
            &&& after.settings.theme_name@ != before.settings.theme_name@ ==> after.theme@
                == after.settings.theme_name@
            &&& after.settings.theme_name@ == before.settings.theme_name@ ==> after.theme@
                == before.theme@
        },
        before.settings_state is None ==> after.settings == before.settings,
{
}

/// Where saving failed, what is on the disk counts, or what was set before where the disk
/// cannot be read; where it went well what was set stays.
pub proof fn law_failed_saving_is_settled(
    before: App,
    after: App,
    previous: Settings,
    result: Result<(), String>,
    persisted: Option<Settings>,
    theme: ThemeFile,
    good: Seq<char>,
    bad: Seq<char>,
    what: Seq<char>,
)
    requires
        settled(before, after, previous, result, persisted, theme, good, bad, what),
    ensures
        after.message is Some,
        result is Ok ==> after.settings == before.settings && after.message->0@ == good,
        result is Err && persisted is Some ==> after.settings == persisted->0,
        result is Err && persisted is None ==> after.settings == previous,
        result is Err ==> (bad + result->Err_0@).is_prefix_of(after.message->0@),
{
    if let Err(error) = result {
        let head = bad + error@;
        let text = after.message->0@;
        assert(text.subrange(0, head.len() as int) =~= head);
    }
}

/// Bookmarking changes whether the path is bookmarked, and keeps every other bookmark.
pub proof fn law_bookmarking_changes_one_path(
    bookmarks: Seq<String>,
    path: String,
    other: Seq<char>,
)
    requires
        views(bookmarks).no_duplicates(),
    ensures
        views(toggled(bookmarks, path)).contains(path@) == !views(bookmarks).contains(path@),
        other != path@ ==> views(toggled(bookmarks, path)).contains(other) == views(
            bookmarks,
        ).contains(other),
{
    let list = views(bookmarks);
    let now = toggled(bookmarks, path);
    law_first_place_of_a_name(list, path@, bookmarks.len() as int);
    let at = first_position(list, path@, 0, bookmarks.len() as int);
    if list.contains(path@) {
        assert(views(now) =~= list.remove(at));
        if views(now).contains(path@) {
            let k = choose|k: int| 0 <= k < views(now).len() && views(now)[k] == path@;
            let m = if k < at {
                k
            } else {
                k + 1
            };
            assert(list[m] == list[at]);
        }
        if other != path@ && list.contains(other) {
            let k = choose|k: int| 0 <= k < list.len() && list[k] == other;
            if k < at {
                assert(views(now)[k] == other);
            } else {
                assert(views(now)[k - 1] == other);
            }
        }
        if views(now).contains(other) {
            let k = choose|k: int| 0 <= k < views(now).len() && views(now)[k] == other;
            if k < at {
                assert(list[k] == other);
            } else {
                assert(list[k + 1] == other);
            }
        }
    } else {
        assert(views(now) =~= list.push(path@));
        assert(views(now)[list.len() as int] == path@);
        if list.contains(other) {
            let k = choose|k: int| 0 <= k < list.len() && list[k] == other;
            assert(views(now)[k] == other);
        }
        if views(now).contains(other) && other != path@ {
            let k = choose|k: int| 0 <= k < views(now).len() && views(now)[k] == other;
            assert(list[k] == other);
        }
    }
}

} // verus!
