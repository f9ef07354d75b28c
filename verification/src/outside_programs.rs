//! Opening the directory of a panel in another program.

use crate::app_state::{says, App};
use crate::text::{concat2, concat4};
use vstd::prelude::*;

verus! {

/// The editor that is used: the one that is there.
pub open spec fn editor_choice(code: bool, insiders: bool) -> Option<Seq<char>> {
    if code {
        Some("code"@)
    } else if insiders {
        Some("code-insiders"@)
    } else {
        None
    }
}

impl App {
    /// Says what came of showing the panel's directory in the file browser of the
    /// system, named by `browser`.
    fn opened_in_browser(&mut self, browser: &str, outcome: Result<(), String>)
        requires
            old(self).wf(),
        ensures
            match outcome {
                Ok(_) => says(
                    *old(self),
                    *final(self),
                    "Opened in "@ + browser@ + ": "@ + old(self).active().path@,
                ),
                Err(error) => says(*old(self), *final(self), "Failed to open: "@ + error@),
            },
    {
        let text = match outcome {
            Ok(_) => concat4("Opened in ", browser, ": ", self.active_panel().path.as_str()),
            Err(error) => concat2("Failed to open: ", error.as_str()),
        };
        self.show_message(text.as_str());
    }

    /// Says what came of showing the panel's directory in the Finder.
    pub fn open_in_finder(&mut self, outcome: Result<(), String>)
        requires
            old(self).wf(),
        ensures
            match outcome {
                Ok(_) => says(
                    *old(self),
                    *final(self),
                    "Opened in "@ + "Finder"@ + ": "@ + old(self).active().path@,
                ),
                Err(error) => says(*old(self), *final(self), "Failed to open: "@ + error@),
            },
    {
        self.opened_in_browser("Finder", outcome);
    }

    /// Says what came of showing the panel's directory in the Explorer.
    pub fn open_in_explorer(&mut self, outcome: Result<(), String>)
        requires
            old(self).wf(),
        ensures
            match outcome {
                Ok(_) => says(
                    *old(self),
                    *final(self),
                    "Opened in "@ + "Explorer"@ + ": "@ + old(self).active().path@,
                ),
                Err(error) => says(*old(self), *final(self), "Failed to open: "@ + error@),
            },
    {
        self.opened_in_browser("Explorer", outcome);
    }

    /// The editor in which the panel's directory is opened, given which ones are
    /// there.
    pub fn choose_vscode(&mut self, code: bool, insiders: bool) -> (r: Option<String>)
        ensures
            match editor_choice(code, insiders) {
                Some(command) => *final(self) == *old(self) && (r matches Some(c) && c@ == command),
                None => r is None && says(
                    *old(self),
                    *final(self),
                    "VS Code not found (tried: code, code-insiders)"@,
                ),
            },
    {
        if code {
            Some("code".to_owned())
        } else if insiders {
            Some("code-insiders".to_owned())
        } else {
            self.show_message("VS Code not found (tried: code, code-insiders)");
            None
        }
    }

    /// Says what came of opening the panel's directory in an editor.
    pub fn open_in_vscode(&mut self, command: &str, outcome: Result<(), String>)
        requires
            old(self).wf(),
        ensures
            match outcome {
                Ok(_) => says(
                    *old(self),
                    *final(self),
                    "Opened in "@ + command@ + ": "@ + old(self).active().path@,
                ),
                Err(error) => says(
                    *old(self),
                    *final(self),
                    "Failed to open "@ + command@ + ": "@ + error@,
                ),
            },
    {
        let text = match outcome {
            Ok(_) => concat4("Opened in ", command, ": ", self.active_panel().path.as_str()),
            Err(error) => concat4("Failed to open ", command, ": ", error.as_str()),
        };
        self.show_message(text.as_str());
    }
}

/// The plain editor comes before its preview, and nothing else is called.
pub proof fn law_plain_editor_comes_first(insiders: bool)
    ensures
        editor_choice(true, insiders) == Some("code"@),
        editor_choice(false, true) == Some("code-insiders"@),
        editor_choice(false, false) is None,
{
}

} // verus!
