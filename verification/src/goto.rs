//! Going to a path that was typed, or that a search found.

use crate::app_state::{says, App, SearchResultItem, SearchResultState};
use crate::archive_lines::{contains_text, holds_text};
use crate::dialogs::Screen;
use crate::names::NameSet;
use crate::navigation::{get_valid_path, panel_goes_to, valid_path};
use crate::panel::PanelState;
use crate::paths::{components, join_path, joined_path, local_parent, parent_of_path, same_path};
use crate::remote_connect::{given_text, optional_text, RemoteProfile};
use crate::remote_ops::{begins_listing, goes_to_machine, ListJob, RemoteGoto};
use crate::remote_path::resolved;
use crate::text::{chars_of, concat2, same_text, slice_of, starts_with_text, string_of};
use vstd::prelude::*;

verus! {

/// A typed path of a remote machine, in its parts.
#[derive(Debug)]
pub struct RemoteAddress {
    pub user: String,
    pub host: String,
    /// The host in canonical form, where it has one.
    pub canonical: Option<String>,
    pub port: u16,
    pub path: String,
}

/// What going to a typed path asks for.
#[derive(Debug)]
pub enum GotoStep {
    Done,
    /// To a remote machine.
    Machine(RemoteGoto),
    /// The panel with the focus is to be read.
    Read,
    List(ListJob),
    /// The path climbs: it is to be resolved first.
    Resolve(String),
    /// The path is to be gone to where it can be read.
    Check(String),
}

/// Where a typed path leads, seen from a panel.
pub enum GotoClass {
    /// Other remote work is under way.
    Busy,
    /// Home, away from the remote machine.
    Leave,
    /// To a local path, away from the remote machine.
    LeaveAndGo,
    /// To a path of the remote machine.
    Remote,
    /// To a local path.
    Local,
}

/// Whether a text begins with a character.
pub open spec fn begins(s: Seq<char>, c: char) -> bool {
    s.len() > 0 && s[0] == c
}

/// Where a typed path leads. `found` is whether it names something on this
/// machine.
pub open spec fn goto_class(app: App, typed: Seq<char>, found: bool) -> GotoClass {
    if !app.active().remote() {
        GotoClass::Local
    } else if app.remote_spinner is Some {
        GotoClass::Busy
    } else if typed == "~"@ {
        GotoClass::Leave
    } else if "~/"@.is_prefix_of(typed) || "~\\"@.is_prefix_of(typed) {
        GotoClass::LeaveAndGo
    } else if begins(typed, '/') && found {
        GotoClass::LeaveAndGo
    } else {
        GotoClass::Remote
    }
}

/// A text without the separators at its start.
pub open spec fn without_slashes(s: Seq<char>) -> Seq<char>
    decreases s.len(),
{
    if s.len() > 0 && (s[0] == '/' || s[0] == '\\') {
        without_slashes(s.skip(1))
    } else {
        s
    }
}

/// The path that was typed: below the home directory behind a `~`, absolute, or
/// below the directory of the panel.
pub open spec fn typed_path(typed: Seq<char>, home: Option<Seq<char>>, dir: Seq<char>) -> Seq<char> {
    if begins(typed, '~') {
        match home {
            Some(path) => joined_path(path, without_slashes(typed.skip(1))),
            None => typed,
        }
    } else if begins(typed, '/') {
        typed
    } else {
        joined_path(dir, typed)
    }
}

fn strip_slashes(s: &Vec<char>, start: usize) -> (r: Vec<char>)
    requires
        start <= s@.len(),
    ensures
        r@ == without_slashes(s@.skip(start as int)),
{
    let count: usize = s.len();
    let mut from: usize = start;
    while from < count && (s[from] == '/' || s[from] == '\\')
        invariant
            start <= from <= count,
            count == s@.len(),
            without_slashes(s@.skip(start as int)) == without_slashes(s@.skip(from as int)),
        decreases count - from,
    {
        assert(s@.skip(from as int)[0] == s@[from as int]);
        assert(s@.skip(from as int).skip(1) =~= s@.skip(from + 1));
        from += 1;
    }
    assert(from < count ==> s@.skip(from as int)[0] == s@[from as int]);
    let r = slice_of(s, from, count);
    assert(r@ =~= s@.skip(from as int));
    r
}

/// The path that was typed.
pub fn resolve_typed_path(typed: &str, home: Option<&str>, dir: &str) -> (r: String)
    ensures
        r@ == typed_path(
            typed@,
            match home {
                Some(path) => Some(path@),
                None => None,
            },
            dir@,
        ),
{
    let chars = chars_of(typed);
    if chars.len() > 0 && chars[0] == '~' {
        match home {
            Some(path) => {
                let rest = strip_slashes(&chars, 1);
                let text = string_of(&rest);
                join_path(path, text.as_str())
            },
            None => typed.to_owned(),
        }
    } else if chars.len() > 0 && chars[0] == '/' {
        typed.to_owned()
    } else {
        join_path(dir, typed)
    }
}

/// Whether a panel left its remote machine for a local directory.
pub open spec fn left_remote(before: App, after: App, home: Seq<char>) -> bool {
    &&& optional_text(after.message) == Some("Disconnected from remote server"@)
    &&& panel_goes_to(
        App { message: after.message, message_timer: 10, ..before },
        after,
        PanelState { remote_ctx: None, remote_display: None, ..before.active() },
        home,
    )
}

/// The step to a local path.
pub open spec fn is_local_step(r: GotoStep, typed: Seq<char>, home: Option<Seq<char>>, dir: Seq<char>) -> bool {
    if contains_text(typed, ".."@) {
        r matches GotoStep::Resolve(path) && path@ == typed_path(typed, home, dir)
    } else {
        r matches GotoStep::Check(path) && path@ == typed_path(typed, home, dir)
    }
}

/// The listing that a step holds.
pub open spec fn step_listing(r: GotoStep) -> Option<ListJob> {
    match r {
        GotoStep::List(job) => Some(job),
        _ => None,
    }
}

/// Whether the panel with the focus went to a path, and the user is told.
pub open spec fn moves(before: App, after: App, path: Seq<char>, head: Seq<char>) -> bool {
    &&& optional_text(after.message) == Some(head + path)
    &&& panel_goes_to(
        App { message: after.message, message_timer: 10, ..before },
        after,
        before.active(),
        path,
    )
}

/// What going to a typed path that names no remote machine comes to.
pub open spec fn typed_here(
    before: App,
    after: App,
    typed: Seq<char>,
    home: Option<Seq<char>>,
    found: bool,
    r: GotoStep,
) -> bool {
    let base = match home {
        Some(path) => path,
        None => "/"@,
    };
    let panel = before.active();
    match goto_class(before, typed, found) {
        GotoClass::Busy => after == before && r is Done,
        GotoClass::Leave => left_remote(before, after, base) && r is Read,
        GotoClass::Remote => {
            &&& r is Done || r is List
            &&& if typed.contains('\0') {
                says(before, after, "Remote path contains a NUL byte"@)
                    && r is Done
            } else {
                begins_listing(
                    before,
                    after,
                    panel,
                    resolved(panel.path@, typed),
                    step_listing(r),
                )
            }
        },
        GotoClass::LeaveAndGo => {
            &&& left_remote(before, after, base)
            &&& is_local_step(r, typed, home, base)
        },
        GotoClass::Local => {
            &&& after == before
            &&& is_local_step(r, typed, home, panel.path@)
        },
    }
}

impl SearchResultState {
    /// The line under the cursor.
    pub open spec fn current(self) -> Option<SearchResultItem> {
        if self.selected_index < self.results@.len() {
            Some(self.results@[self.selected_index as int])
        } else {
            None
        }
    }
}

/// What going to a path that was looked at comes to.
pub open spec fn moves_to_checked(
    before: App,
    after: App,
    path: Seq<char>,
    root: Seq<char>,
    readable: Set<Seq<char>>,
    r: bool,
) -> bool {
    let here = before.active().path@;
    let target = valid_path(path, here, root, readable);
    let reached = components(target) == components(path);
    if components(target) == components(here) {
        &&& !r
        &&& says(
            before,
            after,
            if reached {
                "Already at: "@ + target
            } else {
                "Error: Path not found or not accessible"@
            },
        )
    } else {
        &&& r
        &&& moves(
            before,
            after,
            target,
            if reached { "Moved to: "@ } else { "Moved to nearest valid: "@ },
        )
    }
}

/// What going to a result of a search comes to.
pub open spec fn moves_to_result(
    before: App,
    after: App,
    r: bool,
) -> bool {
    match before.search_result_state.current() {
        None => after == before && !r,
        Some(item) => {
            let above = local_parent(item.full_path@);
            let closed = App {
                search_result_state: SearchResultState {
                    active: false,
                    ..before.search_result_state
                },
                current_screen: Screen::FilePanel,
                message: after.message,
                message_timer: 10,
                ..before
            };
            &&& optional_text(after.message) == Some(
                "Moved to: "@ + item.relative_path@,
            )
            &&& r == (item.is_directory || above is Some)
            &&& if item.is_directory {
                panel_goes_to(
                    closed,
                    after,
                    (PanelState { pending_focus: None, ..before.active() }),
                    item.full_path@,
                )
            } else if above is Some {
                panel_goes_to(
                    closed,
                    after,
                    (PanelState { pending_focus: Some(item.name), ..before.active() }),
                    above->0,
                )
            } else {
                after == closed
            }
        },
    }
}

impl App {
    /// Begins to go to a typed path. `machine` is what it names on a remote machine,
    /// and `profile` the saved profile of that machine; `found` is whether it names
    /// something on this machine, `home` the home directory.
    pub fn execute_goto(
        &mut self,
        typed: &str,
        machine: Option<RemoteAddress>,
        profile: Option<&RemoteProfile>,
        home: Option<&str>,
        found: bool,
    ) -> (r: GotoStep)
        requires
            old(self).wf(),
        ensures
            match machine {
                Some(m) => r matches GotoStep::Machine(to) && goes_to_machine(
                    *old(self),
                    *final(self),
                    (m.user@, m.host@, m.port, m.path@),
                    optional_text(m.canonical),
                    match profile {
                        Some(known) => Some(*known),
                        None => None,
                    },
                    to,
                ),
                None => typed_here(
                    *old(self),
                    *final(self),
                    typed@,
                    match home {
                        Some(path) => Some(path@),
                        None => None,
                    },
                    found,
                    r,
                ),
            },
    {
        if let Some(m) = machine {
            let canonical = match &m.canonical {
                Some(name) => Some(name.as_str()),
                None => None,
            };
            assert(given_text(canonical) == optional_text(m.canonical));
            return GotoStep::Machine(
                self.execute_goto_remote(
                    m.user.as_str(),
                    m.host.as_str(),
                    canonical,
                    m.port,
                    m.path.as_str(),
                    profile,
                ),
            );
        }
        if self.active_panel().is_remote() {
            if self.remote_spinner.is_some() {
                return GotoStep::Done;
            }
            let base = match home {
                Some(path) => path.to_owned(),
                None => "/".to_owned(),
            };
            if same_text(typed, "~") {
                self.leave(base);
                return GotoStep::Read;
            }
            let chars = chars_of(typed);
            let rooted = chars.len() > 0 && chars[0] == '/';
            if starts_with_text(typed, "~/") || starts_with_text(typed, "~\\") || (rooted
                && found) {
                self.leave(base);
            } else {
                return match self.execute_goto_remote_relative(typed) {
                    Some(job) => GotoStep::List(job),
                    None => GotoStep::Done,
                };
            }
        }
        let path = resolve_typed_path(typed, home, self.active_panel().path.as_str());
        if holds_text(typed, "..") {
            GotoStep::Resolve(path)
        } else {
            GotoStep::Check(path)
        }
    }

    fn leave(&mut self, base: String)
        requires
            old(self).wf(),
        ensures
            final(self).wf(),
            left_remote(*old(self), *final(self), base@),
            final(self).active().path@ == base@,
    {
        self.disconnect_remote_panel(base);
        assert(self.panels@ =~= old(self).panels@.update(
            old(self).active_panel_index as int,
            self.active(),
        ));
    }

    fn move_to(&mut self, path: String, head: &str)
        requires
            old(self).wf(),
        ensures
            moves(*old(self), *final(self), path@, head@),
    {
        let text = concat2(head, path.as_str());
        let at: usize = self.active_panel_index;
        self.panels[at].path = path;
        self.panels[at].selected_index = 0;
        self.panels[at].selected_files = NameSet::new();
        self.show_message(text.as_str());
        assert(self.panels@ =~= old(self).panels@.update(at as int, self.panels@[at as int]));
    }

    /// Goes to a typed path once it was resolved; None stands for one that could
    /// not be. `readable` holds the directories that can be read. True where the
    /// panel is to be read.
    pub fn goto_resolved(&mut self, canonical: Option<&str>, root: &str, readable: &NameSet) -> (r:
        bool)
        requires
            old(self).wf(),
        ensures
            match canonical {
                None => says(*old(self), *final(self), "Error: Invalid path"@) && !r,
                Some(path) => {
                    let here = old(self).active().path@;
                    let target = valid_path(path@, here, root@, readable@);
                    if components(target) != components(here) {
                        moves(*old(self), *final(self), target, "Moved to: "@) && r
                    } else {
                        says(
                            *old(self),
                            *final(self),
                            "Error: Path not found or not accessible"@,
                        ) && !r
                    }
                },
            },
    {
        match canonical {
            None => {
                self.show_message("Error: Invalid path");
                false
            },
            Some(path) => {
                let target = get_valid_path(
                    path,
                    self.active_panel().path.as_str(),
                    root,
                    readable,
                );
                if same_path(target.as_str(), self.active_panel().path.as_str()) {
                    self.show_message("Error: Path not found or not accessible");
                    return false;
                }
                self.move_to(target, "Moved to: ");
                true
            },
        }
    }

    /// Goes to a path, or to the nearest above it that can be read. True where the
    /// panel is to be read.
    pub fn goto_checked(&mut self, path: &str, root: &str, readable: &NameSet) -> (r: bool)
        requires
            old(self).wf(),
        ensures
            moves_to_checked(*old(self), *final(self), path@, root@, readable@, r),
    {
        let target = get_valid_path(path, self.active_panel().path.as_str(), root, readable);
        let reached = same_path(target.as_str(), path);
        if same_path(target.as_str(), self.active_panel().path.as_str()) {
            if reached {
                let text = concat2("Already at: ", target.as_str());
                self.show_message(text.as_str());
            } else {
                self.show_message("Error: Path not found or not accessible");
            }
            return false;
        }
        if reached {
            self.move_to(target, "Moved to: ");
        } else {
            self.move_to(target, "Moved to nearest valid: ");
        }
        true
    }

    /// Goes to what the search found under the cursor: to a directory, or to the
    /// directory of a file with the cursor on it. True where the panel is to be
    /// read.
    pub fn goto_search_result(&mut self) -> (r: bool)
        requires
            old(self).wf(),
        ensures
            moves_to_result(*old(self), *final(self), r),
    {
        let at: usize = self.search_result_state.selected_index;
        if at >= self.search_result_state.results.len() {
            return false;
        }
        let item = &self.search_result_state.results[at];
        let directory = item.is_directory;
        let path = item.full_path.clone();
        let name = item.name.clone();
        let text = concat2("Moved to: ", item.relative_path.as_str());
        let mut read = false;
        if directory {
            self.goto_directory_with_focus(path.as_str(), None);
            read = true;
        } else if let Some(above) = parent_of_path(path.as_str()) {
            self.goto_directory_with_focus(above.as_str(), Some(name));
            read = true;
        }
        self.search_result_state.active = false;
        self.current_screen = Screen::FilePanel;
        self.show_message(text.as_str());
        read
    }
}

/// A path that was typed is taken from the home directory where it begins with a tilde, as
/// it is where it begins at the root, and from the directory shown else.
pub proof fn law_typed_path_has_its_start(
    rest: Seq<char>,
    typed: Seq<char>,
    home: Seq<char>,
    dir: Seq<char>,
)
    requires
        rest.len() == 0 || (rest[0] != '/' && rest[0] != '\\'),
    ensures
        typed_path("~/"@ + rest, Some(home), dir) == joined_path(home, rest),
        typed_path("~"@, Some(home), dir) == joined_path(home, Seq::empty()),
        typed_path("~"@ + rest, None, dir) == "~"@ + rest,
        typed_path("/"@ + rest, Some(home), dir) == "/"@ + rest,
        typed.len() > 0 && typed[0] != '~' && typed[0] != '/' ==> typed_path(typed, Some(home), dir)
            == joined_path(dir, typed),
{
    reveal_strlit("~/");
    reveal_strlit("~");
    reveal_strlit("/");
    let a = "~/"@ + rest;
    assert(a[0] == '~');
    assert(a.skip(1) =~= seq!['/'] + rest);
    assert((seq!['/'] + rest).skip(1) =~= rest);
    reveal_with_fuel(without_slashes, 2);
    assert("~"@.skip(1) =~= Seq::empty());
    assert("~"@[0] == '~');
    assert(("~"@ + rest)[0] == '~');
    assert(("/"@ + rest)[0] == '/');
}

/// From a remote panel one leaves for this machine with a tilde, or with a path that is
/// there; any other path is one of the remote machine. While work is under way one stays.
pub proof fn law_leaving_a_remote_panel(app: App, typed: Seq<char>, rest: Seq<char>, found: bool)
    ensures
        !app.active().remote() ==> goto_class(app, typed, found) is Local,
        app.active().remote() && app.remote_spinner is Some ==> goto_class(
            app,
            typed,
            found,
        ) is Busy,
        app.active().remote() && app.remote_spinner is None ==> {
            &&& goto_class(app, "~"@, found) is Leave
            &&& goto_class(app, "~/"@ + rest, found) is LeaveAndGo
            &&& goto_class(app, "/"@ + rest, true) is LeaveAndGo
            &&& goto_class(app, "/"@ + rest, false) is Remote
            &&& typed.len() > 0 && typed[0] != '~' && typed[0] != '/' ==> goto_class(
                app,
                typed,
                found,
            ) is Remote
        },
{
    reveal_strlit("~");
    reveal_strlit("~/");
    reveal_strlit("~\\");
    reveal_strlit("/");
    assert("~"@.len() == 1 && "~/"@.len() == 2 && "~\\"@.len() == 2);
    let a = "~/"@ + rest;
    assert(a.subrange(0, 2) =~= "~/"@);
    assert(a.len() >= 2);
    let b = "/"@ + rest;
    assert(b[0] == '/');
    if "~/"@.is_prefix_of(b) {
        assert(b.subrange(0, 2)[0] == b[0]);
    }
    if "~\\"@.is_prefix_of(b) {
        assert(b.subrange(0, 2)[0] == b[0]);
    }
    assert("~"@[0] == '~');
    if typed.len() > 0 && typed[0] != '~' {
        if "~/"@.is_prefix_of(typed) {
            assert(typed.subrange(0, 2)[0] == typed[0]);
        }
        if "~\\"@.is_prefix_of(typed) {
            assert(typed.subrange(0, 2)[0] == typed[0]);
        }
    }
}

/// Going to a path that can be read leads there, else to the nearest directory that can;
/// nothing happens where that is the one shown.
pub proof fn law_goto_leads_to_the_nearest_directory(
    before: App,
    after: App,
    path: Seq<char>,
    root: Seq<char>,
    readable: Set<Seq<char>>,
    r: bool,
)
    requires
        before.wf(),
        moves_to_checked(before, after, path, root, readable, r),
    ensures
        ({
            let target = valid_path(path, before.active().path@, root, readable);
            &&& r <==> components(target) != components(before.active().path@)
            &&& r ==> after.active().path@ == target && after.active().selected_index == 0
                && after.active().selected_files@ == Set::<Seq<char>>::empty()
            &&& !r ==> after.panels == before.panels
            &&& readable.contains(path) && components(path) != components(before.active().path@)
                ==> r && after.active().path@ == path
        }),
{
}

/// A result of a search is gone to in its directory with the cursor on it, or inside where
/// it is a directory itself; the search closes.
pub proof fn law_result_is_gone_to(before: App, after: App, r: bool)
    requires
        before.wf(),
        moves_to_result(before, after, r),
        before.search_result_state.selected_index < before.search_result_state.results@.len(),
    ensures
        ({
            let item = before.search_result_state.results@[before.search_result_state.selected_index as int];
            &&& !after.search_result_state.active
            &&& after.current_screen == Screen::FilePanel
            &&& item.is_directory ==> r && after.active().path@ == item.full_path@
                && after.active().pending_focus is None
            &&& !item.is_directory && local_parent(item.full_path@) is Some ==> r
                && after.active().path@ == local_parent(item.full_path@)->0
                && after.active().pending_focus == Some(item.name)
            &&& !item.is_directory && local_parent(item.full_path@) is None ==> !r
                && after.panels == before.panels
        }),
{
}

/// A busy panel takes nothing typed; one that leaves its machine is local afterwards, with no
/// session of its own, and the user is told; a name with a NUL byte goes nowhere.
pub proof fn law_typed_path_is_taken(
    before: App,
    after: App,
    typed: Seq<char>,
    home: Option<Seq<char>>,
    found: bool,
    r: GotoStep,
)
    requires
        typed_here(before, after, typed, home, found, r),
    ensures
        before.active().remote() && before.remote_spinner is Some ==> after == before && r is Done,
        before.active().remote() && before.remote_spinner is None && typed == "~"@ ==> r is Read
            && optional_text(after.message) == Some("Disconnected from remote server"@),
        before.active().remote() && before.remote_spinner is None && typed.contains('\0')
            && typed.len() > 0 && typed[0] != '~' && !found ==> optional_text(after.message)
            == Some("Remote path contains a NUL byte"@) && r is Done,
{
    reveal_strlit("~");
    reveal_strlit("~/");
    reveal_strlit("~\\");
    if typed.len() > 0 && typed[0] != '~' {
        assert("~"@[0] == '~');
        assert("~/"@[0] == '~');
        assert("~\\"@[0] == '~');
    }
}

/// A panel that leaves its machine is local afterwards, in the directory it goes to.
pub proof fn law_leaving_ends_the_session(before: App, after: App, home: Seq<char>)
    requires
        left_remote(before, after, home),
    ensures
        optional_text(after.message) == Some("Disconnected from remote server"@),
        after.active_panel_index == before.active_panel_index,
        after.remote_spinner == before.remote_spinner,
        before.active_panel_index < before.panels@.len() ==> !after.active().remote()
            && after.active().path@ == home,
{
}

/// A typed path with steps upwards is resolved first; any other is looked at as it is.
pub proof fn law_steps_upwards_are_resolved(
    typed: Seq<char>,
    home: Option<Seq<char>>,
    dir: Seq<char>,
    r: GotoStep,
)
    requires
        is_local_step(r, typed, home, dir),
    ensures
        r is Resolve <==> contains_text(typed, ".."@),
        r is Check <==> !contains_text(typed, ".."@),
        r matches GotoStep::Resolve(path) ==> path@ == typed_path(typed, home, dir),
        r matches GotoStep::Check(path) ==> path@ == typed_path(typed, home, dir),
{
}

} // verus!
