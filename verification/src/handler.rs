//! The commands that open files: how the path of a file is put into them, and
//! which of them is tried.

use crate::app_state::App;
use crate::paths::{
    extension_of, is_plain_name, joined_path, law_joined_name_is_found_again, local_name,
    name_extension, name_of_path,
};
use crate::text::{
    blank, chars_of, concat2, is_blank, occurs_at, slice_of, spaces_trimmed_end, stands_at,
    string_of, trim_spaces_end,
};
use vstd::prelude::*;

verus! {

/// What stands for the path of the file in a command.
pub const HANDLER_FILEPATH_PLACEHOLDER: &'static str = "{{FILEPATH}}";

/// The variable that a command finds the path of the file in.
pub const HANDLER_FILEPATH_ENV: &'static str = "COKACDIR_HANDLER_FILEPATH";

/// Where a command stands with regard to quotes.
#[derive(Debug, Clone, Copy, PartialEq, Eq, Structural)]
pub enum Quote {
    Unquoted,
    Single,
    Double,
}

/// What the placeholder becomes inside these quotes: always an expansion of the
/// variable inside double quotes.
pub open spec fn expansion(quote: Quote) -> Seq<char> {
    match quote {
        Quote::Unquoted => "\"$"@ + HANDLER_FILEPATH_ENV@ + "\""@,
        Quote::Double => "$"@ + HANDLER_FILEPATH_ENV@,
        Quote::Single => "'\"$"@ + HANDLER_FILEPATH_ENV@ + "\"'"@,
    }
}

/// The quotes after a character.
pub open spec fn quote_after(quote: Quote, c: char) -> Quote {
    match quote {
        Quote::Unquoted => if c == '\'' {
            Quote::Single
        } else if c == '"' {
            Quote::Double
        } else {
            Quote::Unquoted
        },
        Quote::Single => if c == '\'' {
            Quote::Unquoted
        } else {
            Quote::Single
        },
        Quote::Double => if c == '"' {
            Quote::Unquoted
        } else {
            Quote::Double
        },
    }
}

/// Whether a character keeps the next one from being read.
pub open spec fn escapes(quote: Quote, c: char) -> bool {
    c == '\\' && quote != Quote::Single
}

/// A command from `at` on, with the placeholder replaced as the quotes around it
/// ask. A character behind a backslash is kept and not looked at.
pub open spec fn substituted(template: Seq<char>, at: int, quote: Quote) -> Seq<char>
    decreases template.len() - at,
{
    if at < 0 || at >= template.len() {
        Seq::empty()
    } else if occurs_at(template, HANDLER_FILEPATH_PLACEHOLDER@, at) && HANDLER_FILEPATH_PLACEHOLDER@.len()
        > 0 {
        expansion(quote) + substituted(
            template,
            at + HANDLER_FILEPATH_PLACEHOLDER@.len(),
            quote,
        )
    } else if escapes(quote, template[at]) && at + 1 < template.len() {
        seq![template[at], template[at + 1]] + substituted(template, at + 2, quote)
    } else {
        seq![template[at]] + substituted(template, at + 1, quote_after(quote, template[at]))
    }
}

fn expansion_text(quote: Quote) -> (r: String)
    ensures
        r@ == expansion(quote),
{
    match quote {
        Quote::Unquoted => {
            let head = concat2("\"$", HANDLER_FILEPATH_ENV);
            concat2(head.as_str(), "\"")
        },
        Quote::Double => concat2("$", HANDLER_FILEPATH_ENV),
        Quote::Single => {
            let head = concat2("'\"$", HANDLER_FILEPATH_ENV);
            concat2(head.as_str(), "\"'")
        },
    }
}

fn append(output: &mut Vec<char>, text: &str)
    ensures
        final(output)@ == old(output)@ + text@,
{
    let v = chars_of(text);
    let ghost before = output@;
    let mut i: usize = 0;
    assert(before + v@.take(0) =~= before);
    while i < v.len()
        invariant
            i <= v@.len(),
            v@ == text@,
            output@ == before + v@.take(i as int),
        decreases v@.len() - i,
    {
        output.push(v[i]);
        assert(v@.take(i + 1) =~= v@.take(i as int).push(v@[i as int]));
        assert(before + v@.take(i + 1) =~= (before + v@.take(i as int)).push(v@[i as int]));
        i += 1;
    }
    assert(v@.take(i as int) =~= v@);
}

/// A command of a shell with the placeholder replaced by an expansion of a
/// variable. The path itself never becomes part of the command.
pub fn substitute_handler_filepath(template: &str) -> (r: String)
    ensures
        r@ == substituted(template@, 0, Quote::Unquoted),
{
    let chars = chars_of(template);
    let placeholder = chars_of(HANDLER_FILEPATH_PLACEHOLDER);
    proof {
        reveal_strlit("{{FILEPATH}}");
    }
    let size: usize = placeholder.len();
    let count: usize = chars.len();
    let mut output: Vec<char> = Vec::new();
    let mut quote = Quote::Unquoted;
    let mut at: usize = 0;
    assert(output@ + substituted(template@, 0, Quote::Unquoted) =~= substituted(
        template@,
        0,
        Quote::Unquoted,
    ));
    while at < count
        invariant
            at <= count,
            count == chars@.len(),
            chars@ == template@,
            placeholder@ == HANDLER_FILEPATH_PLACEHOLDER@,
            size == placeholder@.len(),
            size > 0,
            output@ + substituted(template@, at as int, quote) == substituted(
                template@,
                0,
                Quote::Unquoted,
            ),
        decreases count - at,
    {
        let ghost before = output@;
        let ghost rest = substituted(template@, at as int, quote);
        if stands_at(&chars, &placeholder, at) {
            let text = expansion_text(quote);
            append(&mut output, text.as_str());
            proof {
                let next = substituted(template@, at + size, quote);
                assert(rest == expansion(quote) + next);
                assert(before + rest =~= (before + expansion(quote)) + next);
            }
            at = at + size;
        } else {
            let c = chars[at];
            output.push(c);
            if c == '\\' && quote != Quote::Single && at + 1 < count {
                output.push(chars[at + 1]);
                proof {
                    let next = substituted(template@, at + 2, quote);
                    assert(rest == seq![template@[at as int], template@[at + 1]] + next);
                    assert(before + rest =~= before.push(c).push(template@[at + 1]) + next);
                }
                at = at + 2;
            } else {
                let ghost turned = quote_after(quote, c);
                proof {
                    let next = substituted(template@, at + 1, turned);
                    assert(rest == seq![template@[at as int]] + next);
                    assert(before + rest =~= before.push(c) + next);
                }
                quote =
                match quote {
                    Quote::Unquoted => if c == '\'' {
                        Quote::Single
                    } else if c == '"' {
                        Quote::Double
                    } else {
                        Quote::Unquoted
                    },
                    Quote::Single => if c == '\'' {
                        Quote::Unquoted
                    } else {
                        Quote::Single
                    },
                    Quote::Double => if c == '"' {
                        Quote::Unquoted
                    } else {
                        Quote::Double
                    },
                };
                at = at + 1;
            }
        }
    }
    assert(output@ + Seq::<char>::empty() =~= output@);
    string_of(&output)
}

/// What the placeholder becomes in a command of the Windows shell.
pub open spec fn percent_expansion(quoted: bool) -> Seq<char> {
    let name = "%"@ + HANDLER_FILEPATH_ENV@ + "%"@;
    if quoted {
        name
    } else {
        "\""@ + name + "\""@
    }
}

/// A command of the Windows shell from `at` on, with the placeholder replaced. A
/// character behind a caret is kept and not looked at.
pub open spec fn percent_substituted(template: Seq<char>, at: int, quoted: bool) -> Seq<char>
    decreases template.len() - at,
{
    if at < 0 || at >= template.len() {
        Seq::empty()
    } else if occurs_at(template, HANDLER_FILEPATH_PLACEHOLDER@, at) && HANDLER_FILEPATH_PLACEHOLDER@.len()
        > 0 {
        percent_expansion(quoted) + percent_substituted(
            template,
            at + HANDLER_FILEPATH_PLACEHOLDER@.len(),
            quoted,
        )
    } else if template[at] == '^' && at + 1 < template.len() {
        seq![template[at], template[at + 1]] + percent_substituted(template, at + 2, quoted)
    } else {
        seq![template[at]] + percent_substituted(
            template,
            at + 1,
            if template[at] == '"' { !quoted } else { quoted },
        )
    }
}

fn percent_text(quoted: bool) -> (r: String)
    ensures
        r@ == percent_expansion(quoted),
{
    let head = concat2("%", HANDLER_FILEPATH_ENV);
    let name = concat2(head.as_str(), "%");
    if quoted {
        name
    } else {
        let open = concat2("\"", name.as_str());
        concat2(open.as_str(), "\"")
    }
}

/// A command of the Windows shell with the placeholder replaced by an expansion
/// of a variable.
pub fn substitute_handler_filepath_windows(template: &str) -> (r: String)
    ensures
        r@ == percent_substituted(template@, 0, false),
{
    let chars = chars_of(template);
    let placeholder = chars_of(HANDLER_FILEPATH_PLACEHOLDER);
    proof {
        reveal_strlit("{{FILEPATH}}");
    }
    let size: usize = placeholder.len();
    let count: usize = chars.len();
    let mut output: Vec<char> = Vec::new();
    let mut quoted = false;
    let mut at: usize = 0;
    assert(output@ + percent_substituted(template@, 0, false) =~= percent_substituted(
        template@,
        0,
        false,
    ));
    while at < count
        invariant
            at <= count,
            count == chars@.len(),
            chars@ == template@,
            placeholder@ == HANDLER_FILEPATH_PLACEHOLDER@,
            size == placeholder@.len(),
            size > 0,
            output@ + percent_substituted(template@, at as int, quoted) == percent_substituted(
                template@,
                0,
                false,
            ),
        decreases count - at,
    {
        let ghost before = output@;
        let ghost rest = percent_substituted(template@, at as int, quoted);
        if stands_at(&chars, &placeholder, at) {
            let text = percent_text(quoted);
            append(&mut output, text.as_str());
            proof {
                let next = percent_substituted(template@, at + size, quoted);
                assert(rest == percent_expansion(quoted) + next);
                assert(before + rest =~= (before + percent_expansion(quoted)) + next);
            }
            at = at + size;
        } else {
            let c = chars[at];
            output.push(c);
            if c == '^' && at + 1 < count {
                output.push(chars[at + 1]);
                proof {
                    let next = percent_substituted(template@, at + 2, quoted);
                    assert(rest == seq![template@[at as int], template@[at + 1]] + next);
                    assert(before + rest =~= before.push(c).push(template@[at + 1]) + next);
                }
                at = at + 2;
            } else {
                proof {
                    let next = percent_substituted(
                        template@,
                        at + 1,
                        if c == '"' { !quoted } else { quoted },
                    );
                    assert(rest == seq![template@[at as int]] + next);
                    assert(before + rest =~= before.push(c) + next);
                }
                if c == '"' {
                    quoted = !quoted;
                }
                at = at + 1;
            }
        }
    }
    assert(output@ + Seq::<char>::empty() =~= output@);
    string_of(&output)
}

/// A command that does not hold the placeholder is not changed.
pub proof fn law_other_commands_stay(template: Seq<char>, at: int, quote: Quote)
    requires
        0 <= at <= template.len(),
        forall|k: int| !(#[trigger] occurs_at(template, HANDLER_FILEPATH_PLACEHOLDER@, k)),
    ensures
        substituted(template, at, quote) == template.skip(at),
    decreases template.len() - at,
{
    if at < template.len() {
        assert(!occurs_at(template, HANDLER_FILEPATH_PLACEHOLDER@, at));
        if escapes(quote, template[at]) && at + 1 < template.len() {
            law_other_commands_stay(template, at + 2, quote);
            assert(seq![template[at], template[at + 1]] + template.skip(at + 2) =~= template.skip(
                at,
            ));
        } else {
            law_other_commands_stay(template, at + 1, quote_after(quote, template[at]));
            assert(seq![template[at]] + template.skip(at + 1) =~= template.skip(at));
        }
    } else {
        assert(template.skip(at) =~= Seq::<char>::empty());
    }
}

/// A command that opens a file.
#[derive(Debug)]
pub struct HandlerCommand {
    /// Whether the program goes on while the command runs.
    pub background: bool,
    pub template: String,
    pub command: String,
}

/// What a handler asks for.
pub open spec fn is_command_of(c: HandlerCommand, handler: Seq<char>) -> bool {
    let background = handler.len() > 0 && handler[0] == '@';
    &&& c.background == background
    &&& c.template@ == if background { handler.skip(1) } else { handler }
    &&& c.command@ == substituted(c.template@, 0, Quote::Unquoted)
}

/// The command that a handler asks for: one behind an `@` runs in the background.
pub fn handler_command(handler: &str) -> (r: HandlerCommand)
    ensures
        is_command_of(r, handler@),
{
    let chars = chars_of(handler);
    let background = chars.len() > 0 && chars[0] == '@';
    let template = if background {
        let rest = slice_of(&chars, 1, chars.len());
        assert(rest@ =~= handler@.skip(1));
        string_of(&rest)
    } else {
        handler.to_owned()
    };
    let command = substitute_handler_filepath(template.as_str());
    HandlerCommand { background, template, command }
}

/// The handlers of an extension while they are tried, one after the other.
#[derive(Debug)]
pub struct HandlerRun {
    pub handlers: Vec<String>,
    pub next: usize,
    pub last_error: String,
}

/// What trying handlers came to.
#[derive(Debug)]
pub enum HandlerStep {
    /// This command is to be run.
    Run(HandlerCommand),
    /// A command did its work; the panels are to be read again.
    Opened,
    /// There is no handler.
    NoHandler,
    /// No command did its work.
    Failed(String),
}

/// What a command that was run says of an error.
pub open spec fn error_after(before: Seq<char>, background: bool, template: Seq<char>, outcome: Result<
    bool,
    String,
>) -> Seq<char> {
    match outcome {
        Err(error) => error@,
        Ok(_) => if background {
            before
        } else {
            "Command failed: "@ + template
        },
    }
}

/// What the end of a handler comes to.
pub open spec fn handler_ran(
    before: HandlerRun,
    after: HandlerRun,
    outcome: Result<bool, String>,
    r: HandlerStep,
) -> bool {
    if outcome == Ok::<bool, String>(true) {
        after == before && r is Opened
    } else {
        let handler = before.handlers@[before.next as int]@;
        let background = handler.len() > 0 && handler[0] == '@';
        &&& after == (HandlerRun {
            next: (before.next + 1) as usize,
            last_error: after.last_error,
            ..before
        })
        &&& after.last_error@ == error_after(
            before.last_error@,
            background,
            if background { handler.skip(1) } else { handler },
            outcome,
        )
        &&& after.is_step(r)
    }
}

impl HandlerRun {
    pub open spec fn wf(self) -> bool {
        self.next <= self.handlers@.len()
    }

    /// What is to be done now.
    pub open spec fn is_step(self, step: HandlerStep) -> bool {
        if self.handlers@.len() == 0 {
            step is NoHandler
        } else if self.next < self.handlers@.len() {
            step matches HandlerStep::Run(c) && is_command_of(
                c,
                self.handlers@[self.next as int]@,
            )
        } else {
            step matches HandlerStep::Failed(error) && error@ == self.last_error@
        }
    }

    /// Begins to try handlers.
    pub fn start(handlers: Vec<String>) -> (r: (HandlerRun, HandlerStep))
        ensures
            r.0.wf(),
            r.0.handlers == handlers,
            r.0.next == 0,
            r.0.last_error@.len() == 0,
            r.0.is_step(r.1),
    {
        let run = HandlerRun { handlers, next: 0, last_error: String::new() };
        let step = run.step();
        (run, step)
    }

    fn step(&self) -> (r: HandlerStep)
        requires
            self.wf(),
        ensures
            self.is_step(r),
    {
        if self.handlers.len() == 0 {
            HandlerStep::NoHandler
        } else if self.next < self.handlers.len() {
            HandlerStep::Run(handler_command(self.handlers[self.next].as_str()))
        } else {
            HandlerStep::Failed(self.last_error.clone())
        }
    }

    /// Takes what came of the command that was run: where it did not do its work,
    /// the next one is tried.
    pub fn ran(&mut self, outcome: Result<bool, String>) -> (r: HandlerStep)
        requires
            old(self).wf(),
            old(self).next < old(self).handlers@.len(),
        ensures
            final(self).wf(),
            handler_ran(*old(self), *final(self), outcome, r),
    {
        let _count: usize = self.handlers.len();
        let current = handler_command(self.handlers[self.next].as_str());
        match outcome {
            Ok(done) => {
                if done {
                    return HandlerStep::Opened;
                }
                if !current.background {
                    self.last_error = concat2("Command failed: ", current.template.as_str());
                }
            },
            Err(error) => {
                self.last_error = error;
            },
        }
        self.next = self.next + 1;
        self.step()
    }
}

/// The extension of a file that is known by its path.
pub open spec fn path_extension(path: Seq<char>) -> Option<Seq<char>> {
    match local_name(path) {
        Some(name) => name_extension(name),
        None => None,
    }
}

/// The extension of a file that is known by its path.
pub fn extension_of_path(path: &str) -> (r: Option<String>)
    ensures
        match path_extension(path@) {
            Some(extension) => r matches Some(e) && e@ == extension,
            None => r is None,
        },
{
    match name_of_path(path) {
        Some(name) => extension_of(name.as_str()),
        None => None,
    }
}

impl App {
    /// Begins to open a file with the handlers of its extension. `handlers` are those
    /// that the settings hold for the extension, if they hold any; a file without an
    /// extension has none.
    pub fn try_extension_handler(&self, path: &str, handlers: Option<Vec<String>>) -> (r: (
        HandlerRun,
        HandlerStep,
    ))
        ensures
            r.0.wf(),
            r.0.next == 0,
            r.0.last_error@.len() == 0,
            r.0.is_step(r.1),
            match (path_extension(path@), handlers) {
                (Some(_), Some(list)) => r.0.handlers == list,
                _ => r.0.handlers@.len() == 0,
            },
    {
        match (extension_of_path(path), handlers) {
            (Some(_), Some(list)) => HandlerRun::start(list),
            _ => HandlerRun::start(Vec::new()),
        }
    }
}

/// What came of a command in the background a moment after it was started.
#[derive(Debug)]
pub enum BackgroundOutcome {
    NotStarted(String),
    StillRunning,
    /// It ended; `stderr` is what it printed on errors where it failed.
    Ended { success: bool, stderr: Option<String> },
    Unknown(String),
}

/// A text without the white space around it, given one without that at its end.
pub open spec fn spaces_trimmed_start(s: Seq<char>) -> Seq<char>
    decreases s.len(),
{
    if s.len() > 0 && crate::text::is_space(s[0]) {
        spaces_trimmed_start(s.skip(1))
    } else {
        s
    }
}

/// A text without the white space around it.
pub open spec fn spaces_trimmed(s: Seq<char>) -> Seq<char> {
    spaces_trimmed_start(spaces_trimmed_end(s))
}

/// A text without the white space around it.
pub fn trim_spaces(s: &str) -> (r: String)
    ensures
        r@ == spaces_trimmed(s@),
{
    let trimmed = trim_spaces_end(s);
    let v = chars_of(trimmed.as_str());
    let count: usize = v.len();
    let mut from: usize = 0;
    assert(trimmed@.skip(0) =~= trimmed@);
    while from < count && crate::text::space_char(v[from])
        invariant
            from <= count,
            count == v@.len(),
            v@ == trimmed@,
            spaces_trimmed_start(trimmed@) == spaces_trimmed_start(trimmed@.skip(from as int)),
        decreases count - from,
    {
        assert(trimmed@.skip(from as int)[0] == trimmed@[from as int]);
        assert(trimmed@.skip(from as int).skip(1) =~= trimmed@.skip(from + 1));
        from += 1;
    }
    assert(from < count ==> trimmed@.skip(from as int)[0] == trimmed@[from as int]);
    let rest = slice_of(&v, from, count);
    assert(rest@ =~= trimmed@.skip(from as int));
    string_of(&rest)
}

/// What a command in the background counts as: one that goes on, or that has
/// ended well, did its work.
pub fn background_result(outcome: BackgroundOutcome, template: &str) -> (r: Result<bool, String>)
    ensures
        match outcome {
            BackgroundOutcome::NotStarted(error) => r matches Err(e) && e@ == "Failed to execute '"@
                + template@ + ("': "@ + error@),
            BackgroundOutcome::StillRunning => r == Ok::<bool, String>(true),
            BackgroundOutcome::Unknown(error) => r matches Err(e) && e@
                == "Failed to check process: "@ + error@,
            BackgroundOutcome::Ended { success, stderr } => if success {
                r == Ok::<bool, String>(true)
            } else {
                r matches Err(e) && e@ == if stderr matches Some(text) && !blank(text@) {
                    spaces_trimmed(stderr->0@)
                } else {
                    "Command failed: "@ + template@
                }
            },
        },
{
    match outcome {
        BackgroundOutcome::NotStarted(error) => {
            let head = concat2("Failed to execute '", template);
            let tail = concat2("': ", error.as_str());
            Err(concat2(head.as_str(), tail.as_str()))
        },
        BackgroundOutcome::StillRunning => Ok(true),
        BackgroundOutcome::Unknown(error) => Err(
            concat2("Failed to check process: ", error.as_str()),
        ),
        BackgroundOutcome::Ended { success, stderr } => {
            if success {
                return Ok(true);
            }
            match stderr {
                Some(text) => if is_blank(text.as_str()) {
                    Err(concat2("Command failed: ", template))
                } else {
                    Err(trim_spaces(text.as_str()))
                },
                None => Err(concat2("Command failed: ", template)),
            }
        },
    }
}

/// Whether a byte is a control character that no text holds.
pub open spec fn is_control(b: u8) -> bool {
    b < 9 || (13 < b && b < 32) || b == 127
}

/// How many bytes are control characters.
pub open spec fn controls(bytes: Seq<u8>) -> nat
    decreases bytes.len(),
{
    if bytes.len() == 0 {
        0
    } else {
        controls(bytes.drop_last()) + if is_control(bytes.last()) {
            1nat
        } else {
            0nat
        }
    }
}

/// Whether the start of a file is not text: a zero byte, or more than a tenth of
/// control characters.
pub open spec fn looks_binary(bytes: Seq<u8>) -> bool {
    bytes.contains(0u8) || controls(bytes) > bytes.len() / 10
}

/// Whether the start of a file is not text.
pub fn is_binary_file(bytes: &Vec<u8>) -> (r: bool)
    ensures
        r == looks_binary(bytes@),
{
    let count: usize = bytes.len();
    let mut found: usize = 0;
    let mut i: usize = 0;
    while i < count
        invariant
            i <= count,
            count == bytes@.len(),
            found == controls(bytes@.take(i as int)),
            found <= i,
            forall|k: int| 0 <= k < i ==> (#[trigger] bytes@[k]) != 0,
        decreases count - i,
    {
        assert(bytes@.take(i + 1).drop_last() =~= bytes@.take(i as int));
        let b: u8 = bytes[i];
        if b == 0 {
            assert(bytes@[i as int] == 0u8);
            return true;
        }
        if b < 9 || (b > 13 && b < 32) || b == 127 {
            found += 1;
        }
        i += 1;
    }
    assert(bytes@.take(i as int) =~= bytes@);
    found > count / 10
}

/// Whether a text means nothing to a shell: no quotes, no backslash, no caret and nothing
/// that a placeholder begins with.
pub open spec fn is_plain_text(s: Seq<char>) -> bool {
    forall|i: int|
        0 <= i < s.len() ==> {
            let c = #[trigger] s[i];
            c != '{' && c != '\'' && c != '"' && c != '\\' && c != '^'
        }
}

/// The placeholder is replaced by a variable of the shell that is quoted however the
/// placeholder stands: alone it gets quotes of its own, within double quotes it needs none,
/// and single quotes are left for it and opened again. All else stays as it is.
pub proof fn law_placeholder_becomes_a_quoted_variable(before: Seq<char>, after: Seq<char>)
    requires
        is_plain_text(before),
        is_plain_text(after),
    ensures
        substituted(before + "{{FILEPATH}}"@ + after, 0, Quote::Unquoted) == before
            + "\"$COKACDIR_HANDLER_FILEPATH\""@ + after,
        substituted(
            "\""@ + before + "{{FILEPATH}}"@ + after + "\""@,
            0,
            Quote::Unquoted,
        ) == "\""@ + before + "$COKACDIR_HANDLER_FILEPATH"@ + after + "\""@,
        substituted(
            "'"@ + before + "{{FILEPATH}}"@ + after + "'"@,
            0,
            Quote::Unquoted,
        ) == "'"@ + before + "'\"$COKACDIR_HANDLER_FILEPATH\"'"@ + after + "'"@,
{
    lemma_shell_texts();
    let bare = before + "{{FILEPATH}}"@ + after;
    let n = before.len() as int;
    let m = n + 12;
    lemma_plain_run(bare, 0, n, Quote::Unquoted);
    assert(bare.subrange(n, m) =~= "{{FILEPATH}}"@);
    lemma_plain_run(bare, m, bare.len() as int, Quote::Unquoted);
    assert(bare.subrange(0, n) =~= before);
    assert(bare.subrange(m, bare.len() as int) =~= after);
    assert(substituted(bare, 0, Quote::Unquoted) =~= before
        + "\"$COKACDIR_HANDLER_FILEPATH\""@ + after);
    lemma_within(before, after, '"', Quote::Double);
    lemma_within(before, after, '\'', Quote::Single);
    let double = "\""@ + before + "{{FILEPATH}}"@ + after + "\""@;
    assert(double =~= seq!['"'] + before + "{{FILEPATH}}"@ + after + seq!['"']);
    let single = "'"@ + before + "{{FILEPATH}}"@ + after + "'"@;
    assert(single =~= seq!['\''] + before + "{{FILEPATH}}"@ + after + seq!['\'']);
}

proof fn lemma_shell_texts()
    ensures
        HANDLER_FILEPATH_PLACEHOLDER@ == "{{FILEPATH}}"@,
        "{{FILEPATH}}"@.len() == 12,
        "{{FILEPATH}}"@[0] == '{',
        "\""@ == seq!['"'],
        "'"@ == seq!['\''],
        expansion(Quote::Unquoted) == "\"$COKACDIR_HANDLER_FILEPATH\""@,
        expansion(Quote::Double) == "$COKACDIR_HANDLER_FILEPATH"@,
        expansion(Quote::Single) == "'\"$COKACDIR_HANDLER_FILEPATH\"'"@,
        percent_expansion(false) == "\"%COKACDIR_HANDLER_FILEPATH%\""@,
        percent_expansion(true) == "%COKACDIR_HANDLER_FILEPATH%"@,
{
    reveal_strlit("{{FILEPATH}}");
    reveal_strlit("\"");
    reveal_strlit("'");
    reveal_strlit("\"$");
    reveal_strlit("$");
    reveal_strlit("'\"$");
    reveal_strlit("\"'");
    reveal_strlit("%");
    reveal_strlit("COKACDIR_HANDLER_FILEPATH");
    reveal_strlit("\"$COKACDIR_HANDLER_FILEPATH\"");
    reveal_strlit("$COKACDIR_HANDLER_FILEPATH");
    reveal_strlit("'\"$COKACDIR_HANDLER_FILEPATH\"'");
    reveal_strlit("\"%COKACDIR_HANDLER_FILEPATH%\"");
    reveal_strlit("%COKACDIR_HANDLER_FILEPATH%");
    assert("\""@ =~= seq!['"']);
    assert("'"@ =~= seq!['\'']);
    assert(expansion(Quote::Unquoted) =~= "\"$COKACDIR_HANDLER_FILEPATH\""@);
    assert(expansion(Quote::Double) =~= "$COKACDIR_HANDLER_FILEPATH"@);
    assert(expansion(Quote::Single) =~= "'\"$COKACDIR_HANDLER_FILEPATH\"'"@);
    assert(percent_expansion(false) =~= "\"%COKACDIR_HANDLER_FILEPATH%\""@);
    assert(percent_expansion(true) =~= "%COKACDIR_HANDLER_FILEPATH%"@);
}

/// Plain characters are handed on as they are.
proof fn lemma_plain_run(template: Seq<char>, at: int, to: int, quote: Quote)
    requires
        0 <= at <= to <= template.len(),
        forall|i: int|
            at <= i < to ==> {
                let c = #[trigger] template[i];
                c != '{' && c != '\'' && c != '"' && c != '\\' && c != '^'
            },
    ensures
        substituted(template, at, quote) == template.subrange(at, to) + substituted(
            template,
            to,
            quote,
        ),
    decreases to - at,
{
    lemma_shell_texts();
    if at == to {
        assert(template.subrange(at, to) =~= Seq::empty());
        assert(Seq::<char>::empty() + substituted(template, to, quote) =~= substituted(
            template,
            to,
            quote,
        ));
    } else {
        assert(template[at] != '{');
        if occurs_at(template, HANDLER_FILEPATH_PLACEHOLDER@, at) {
            assert(template.subrange(at, at + 12)[0] == template[at]);
        }
        lemma_plain_run(template, at + 1, to, quote);
        assert(template.subrange(at, to) =~= seq![template[at]] + template.subrange(at + 1, to));
        assert(substituted(template, at, quote) =~= template.subrange(at, to) + substituted(
            template,
            to,
            quote,
        ));
    }
}

/// A placeholder within quotes.
proof fn lemma_within(before: Seq<char>, after: Seq<char>, mark: char, quote: Quote)
    requires
        is_plain_text(before),
        is_plain_text(after),
        mark == '"' && quote == Quote::Double || mark == '\'' && quote == Quote::Single,
    ensures
        substituted(
            seq![mark] + before + "{{FILEPATH}}"@ + after + seq![mark],
            0,
            Quote::Unquoted,
        ) == seq![mark] + before + expansion(quote) + after + seq![mark],
{
    lemma_shell_texts();
    let whole = seq![mark] + before + "{{FILEPATH}}"@ + after + seq![mark];
    let n = 1 + before.len() as int;
    let m = n + 12;
    let e = m + after.len() as int;
    assert(whole[0] == mark);
    if occurs_at(whole, HANDLER_FILEPATH_PLACEHOLDER@, 0) {
        assert(whole.subrange(0, 12)[0] == whole[0]);
    }
    assert forall|i: int| 1 <= i < n implies {
        let c = #[trigger] whole[i];
        c != '{' && c != '\'' && c != '"' && c != '\\' && c != '^'
    } by {
        assert(whole[i] == before[i - 1]);
    }
    lemma_plain_run(whole, 1, n, quote);
    assert(whole.subrange(n, m) =~= "{{FILEPATH}}"@);
    assert forall|i: int| m <= i < e implies {
        let c = #[trigger] whole[i];
        c != '{' && c != '\'' && c != '"' && c != '\\' && c != '^'
    } by {
        assert(whole[i] == after[i - m]);
    }
    lemma_plain_run(whole, m, e, quote);
    assert(whole[e] == mark);
    if occurs_at(whole, HANDLER_FILEPATH_PLACEHOLDER@, e) {
        assert(whole.subrange(e, e + 12)[0] == whole[e]);
    }
    reveal_with_fuel(substituted, 2);
    assert(whole.subrange(1, n) =~= before);
    assert(whole.subrange(m, e) =~= after);
    assert(substituted(whole, e, quote) =~= seq![mark]);
    assert(substituted(whole, 0, Quote::Unquoted) =~= seq![mark] + before + expansion(quote) + after
        + seq![mark]);
}

/// On Windows the placeholder becomes a variable between percent signs, in quotes of its own
/// unless it stands in quotes already.
pub proof fn law_placeholder_becomes_a_percent_variable(before: Seq<char>, after: Seq<char>)
    requires
        is_plain_text(before),
        is_plain_text(after),
    ensures
        percent_substituted(before + "{{FILEPATH}}"@ + after, 0, false) == before
            + "\"%COKACDIR_HANDLER_FILEPATH%\""@ + after,
        percent_substituted(before + "{{FILEPATH}}"@ + after, 0, true) == before
            + "%COKACDIR_HANDLER_FILEPATH%"@ + after,
{
    lemma_percent(before, after, false);
    lemma_percent(before, after, true);
    lemma_shell_texts();
}

proof fn lemma_percent(before: Seq<char>, after: Seq<char>, quoted: bool)
    requires
        is_plain_text(before),
        is_plain_text(after),
    ensures
        percent_substituted(before + "{{FILEPATH}}"@ + after, 0, quoted) == before
            + percent_expansion(quoted) + after,
{
    lemma_shell_texts();
    let bare = before + "{{FILEPATH}}"@ + after;
    let n = before.len() as int;
    let m = n + 12;
    lemma_percent_run(bare, 0, n, quoted);
    assert(bare.subrange(n, m) =~= "{{FILEPATH}}"@);
    lemma_percent_run(bare, m, bare.len() as int, quoted);
    assert(bare.subrange(0, n) =~= before);
    assert(bare.subrange(m, bare.len() as int) =~= after);
    assert(percent_substituted(bare, 0, quoted) =~= before + percent_expansion(quoted) + after);
}

proof fn lemma_percent_run(template: Seq<char>, at: int, to: int, quoted: bool)
    requires
        0 <= at <= to <= template.len(),
        forall|i: int|
            at <= i < to ==> {
                let c = #[trigger] template[i];
                c != '{' && c != '\'' && c != '"' && c != '\\' && c != '^'
            },
    ensures
        percent_substituted(template, at, quoted) == template.subrange(at, to)
            + percent_substituted(template, to, quoted),
    decreases to - at,
{
    lemma_shell_texts();
    if at == to {
        assert(template.subrange(at, to) =~= Seq::empty());
        assert(Seq::<char>::empty() + percent_substituted(template, to, quoted)
            =~= percent_substituted(template, to, quoted));
    } else {
        assert(template[at] != '{');
        if occurs_at(template, HANDLER_FILEPATH_PLACEHOLDER@, at) {
            assert(template.subrange(at, at + 12)[0] == template[at]);
        }
        lemma_percent_run(template, at + 1, to, quoted);
        assert(template.subrange(at, to) =~= seq![template[at]] + template.subrange(at + 1, to));
        assert(percent_substituted(template, at, quoted) =~= template.subrange(at, to)
            + percent_substituted(template, to, quoted));
    }
}

/// A command with a sign in front runs in the background, without the sign.
pub proof fn law_sign_means_background(c: HandlerCommand, rest: Seq<char>, handler: Seq<char>)
    ensures
        is_command_of(c, "@"@ + rest) ==> c.background && c.template@ == rest,
        is_command_of(c, handler) && handler.len() > 0 && handler[0] != '@' ==> !c.background
            && c.template@ == handler,
{
    reveal_strlit("@");
    assert(("@"@ + rest)[0] == '@');
    assert(("@"@ + rest).skip(1) =~= rest);
}

/// A file with a zero byte is binary; one without control characters is not. Tabs and line
/// ends are no control characters.
pub proof fn law_text_is_told_from_binary(bytes: Seq<u8>)
    ensures
        bytes.contains(0u8) ==> looks_binary(bytes),
        (forall|i: int| 0 <= i < bytes.len() ==> !is_control(#[trigger] bytes[i])) ==> !looks_binary(
            bytes,
        ),
        !bytes.contains(0u8) ==> (looks_binary(bytes) <==> bytes.filter(
            |b: u8| is_control(b),
        ).len() > bytes.len() / 10),
        !is_control('\t' as u8),
        !is_control('\n' as u8),
        !is_control('\r' as u8),
        is_control(0u8),
        is_control(27u8),
        is_control(127u8),
        forall|b: u8| 32 <= b < 127 ==> !#[trigger] is_control(b),
        forall|b: u8| 128 <= b ==> !#[trigger] is_control(b),
{
    lemma_controls(bytes);
    if forall|i: int| 0 <= i < bytes.len() ==> !is_control(#[trigger] bytes[i]) {
        if bytes.contains(0u8) {
            let i = choose|i: int| 0 <= i < bytes.len() && bytes[i] == 0u8;
            assert(is_control(bytes[i]));
        }
        lemma_no_controls(bytes);
    }
}

proof fn lemma_controls(bytes: Seq<u8>)
    ensures
        controls(bytes) == bytes.filter(|b: u8| is_control(b)).len(),
    decreases bytes.len(),
{
    reveal(Seq::filter);
    if bytes.len() > 0 {
        lemma_controls(bytes.drop_last());
    }
}

proof fn lemma_no_controls(bytes: Seq<u8>)
    requires
        forall|i: int| 0 <= i < bytes.len() ==> !is_control(#[trigger] bytes[i]),
    ensures
        controls(bytes) == 0,
    decreases bytes.len(),
{
    if bytes.len() > 0 {
        let rest = bytes.drop_last();
        assert forall|i: int| 0 <= i < rest.len() implies !is_control(#[trigger] rest[i]) by {
            assert(rest[i] == bytes[i]);
        }
        lemma_no_controls(rest);
        assert(bytes.last() == bytes[bytes.len() - 1]);
    }
}

/// The extension of a path is that of its last component.
pub proof fn law_extension_of_the_last_component(dir: Seq<char>, name: Seq<char>)
    requires
        is_plain_name(name),
    ensures
        path_extension(joined_path(dir, name)) == name_extension(name),
{
    law_joined_name_is_found_again(dir, name);
}

/// Handlers are tried in their order until one opens the file; the next one only after the
/// one before failed.
pub proof fn law_handlers_are_tried_in_order(
    before: HandlerRun,
    after: HandlerRun,
    outcome: Result<bool, String>,
    r: HandlerStep,
)
    requires
        before.wf(),
        before.next < before.handlers@.len(),
        handler_ran(before, after, outcome, r),
    ensures
        r is Opened <==> outcome == Ok::<bool, String>(true),
        !(r is Opened) ==> after.next == before.next + 1,
        r is Run <==> !(r is Opened) && before.next + 1 < before.handlers@.len(),
        r matches HandlerStep::Run(c) ==> is_command_of(
            c,
            before.handlers@[before.next + 1]@,
        ),
        r is Failed <==> !(r is Opened) && before.next + 1 == before.handlers@.len(),
        r is Failed && outcome is Err ==> r->Failed_0@ == outcome->Err_0@,
{
    assert(before.handlers.len() == before.handlers@.len());
}

/// Trimming takes white space from both ends and nothing else: what is left neither begins
/// nor ends with any, and all that was taken is white space.
pub proof fn law_trimmed_text_has_no_space_around(s: Seq<char>) -> (r: (Seq<char>, Seq<char>))
    ensures
        s == r.0 + spaces_trimmed(s) + r.1,
        forall|i: int| 0 <= i < r.0.len() ==> crate::text::is_space(#[trigger] r.0[i]),
        forall|i: int| 0 <= i < r.1.len() ==> crate::text::is_space(#[trigger] r.1[i]),
        spaces_trimmed(s).len() > 0 ==> !crate::text::is_space(spaces_trimmed(s)[0])
            && !crate::text::is_space(spaces_trimmed(s).last()),
{
    let end = lemma_trimmed_end(s);
    let middle = spaces_trimmed_end(s);
    let start = lemma_trimmed_start(middle);
    assert(s =~= start + spaces_trimmed(s) + end);
    if spaces_trimmed(s).len() > 0 {
        assert(middle.last() == spaces_trimmed(s).last());
    }
    (start, end)
}

proof fn lemma_trimmed_end(s: Seq<char>) -> (r: Seq<char>)
    ensures
        s == spaces_trimmed_end(s) + r,
        forall|i: int| 0 <= i < r.len() ==> crate::text::is_space(#[trigger] r[i]),
        spaces_trimmed_end(s).len() > 0 ==> !crate::text::is_space(spaces_trimmed_end(s).last()),
    decreases s.len(),
{
    if s.len() > 0 && crate::text::is_space(s.last()) {
        let rest = lemma_trimmed_end(s.drop_last());
        let r = rest.push(s.last());
        assert(s.drop_last() == spaces_trimmed_end(s.drop_last()) + rest);
        assert(spaces_trimmed_end(s) == spaces_trimmed_end(s.drop_last()));
        assert(s =~= s.drop_last().push(s.last()));
        assert(s =~= spaces_trimmed_end(s) + r);
        r
    } else {
        assert(s =~= s + Seq::<char>::empty());
        Seq::empty()
    }
}

proof fn lemma_trimmed_start(s: Seq<char>) -> (r: Seq<char>)
    ensures
        s == r + spaces_trimmed_start(s),
        forall|i: int| 0 <= i < r.len() ==> crate::text::is_space(#[trigger] r[i]),
        spaces_trimmed_start(s).len() > 0 ==> !crate::text::is_space(spaces_trimmed_start(s)[0]),
    decreases s.len(),
{
    if s.len() > 0 && crate::text::is_space(s[0]) {
        let rest = lemma_trimmed_start(s.skip(1));
        let r = seq![s[0]] + rest;
        assert(s.skip(1) == rest + spaces_trimmed_start(s.skip(1)));
        assert(s =~= seq![s[0]] + s.skip(1));
        assert(s =~= r + spaces_trimmed_start(s));
        r
    } else {
        assert(s =~= Seq::<char>::empty() + s);
        Seq::empty()
    }
}

/// A quote opens where none is open and is closed by the same mark; the other mark means
/// nothing in between.
pub proof fn law_quotes_close_by_their_own_mark(quote: Quote, c: char)
    ensures
        quote_after(Quote::Unquoted, '\'') == Quote::Single,
        quote_after(Quote::Unquoted, '"') == Quote::Double,
        quote_after(Quote::Single, '\'') == Quote::Unquoted,
        quote_after(Quote::Double, '"') == Quote::Unquoted,
        quote_after(Quote::Single, '"') == Quote::Single,
        quote_after(Quote::Double, '\'') == Quote::Double,
        c != '\'' && c != '"' ==> quote_after(quote, c) == quote,
{
}

} // verus!
