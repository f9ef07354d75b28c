//! The progress of a file operation, as its worker reports it.

use crate::names::NameSet;
use crate::remote_connect::optional_text;
use crate::text::{concat2, concat3, same_text, views};
use vstd::prelude::*;

verus! {

/// What an operation does.
#[derive(Debug, Clone, Copy, PartialEq, Eq, Structural)]
pub enum FileOperationType {
    Copy,
    Move,
    Delete,
    Download,
    Encrypt,
    Decrypt,
    Tar,
    Untar,
}

/// What is being done about the current file.
#[derive(Debug, Clone, Copy, PartialEq, Eq, Structural)]
pub enum FileOperationPhase {
    Copying,
    Finalizing,
}

/// What came of an operation.
#[derive(Debug)]
pub struct FileOperationResult {
    pub success_count: usize,
    pub failure_count: usize,
    pub last_error: Option<String>,
    pub warnings: Vec<String>,
}

/// What a worker reports.
#[derive(Debug)]
pub enum ProgressMessage {
    Preparing(String),
    PrepareComplete,
    FileStarted(String),
    /// Bytes done and bytes in all of the current file.
    FileProgress(u64, u64),
    Phase(FileOperationPhase),
    FileCompleted(String),
    /// Files done and in all, bytes done and in all.
    TotalProgress(usize, usize, u64, u64),
    /// Successes and failures. The worker reports nothing after this.
    Completed(usize, usize),
    Error(String, String),
    /// An item whose destination may be in place but could not be verified.
    TerminalError(String, String),
    Warning(String, String),
}

/// What a worker reports, as text.
pub enum MessageView {
    Preparing(Seq<char>),
    PrepareComplete,
    FileStarted(Seq<char>),
    FileProgress(u64, u64),
    Phase(FileOperationPhase),
    FileCompleted(Seq<char>),
    TotalProgress(usize, usize, u64, u64),
    Completed(usize, usize),
    Error(Seq<char>, Seq<char>),
    TerminalError(Seq<char>, Seq<char>),
    Warning(Seq<char>, Seq<char>),
}

impl View for ProgressMessage {
    type V = MessageView;

    open spec fn view(&self) -> MessageView {
        match self {
            ProgressMessage::Preparing(text) => MessageView::Preparing(text@),
            ProgressMessage::PrepareComplete => MessageView::PrepareComplete,
            ProgressMessage::FileStarted(name) => MessageView::FileStarted(name@),
            ProgressMessage::FileProgress(done, size) => MessageView::FileProgress(*done, *size),
            ProgressMessage::Phase(phase) => MessageView::Phase(*phase),
            ProgressMessage::FileCompleted(name) => MessageView::FileCompleted(name@),
            ProgressMessage::TotalProgress(a, b, c, d) => MessageView::TotalProgress(
                *a,
                *b,
                *c,
                *d,
            ),
            ProgressMessage::Completed(a, b) => MessageView::Completed(*a, *b),
            ProgressMessage::Error(name, error) => MessageView::Error(name@, error@),
            ProgressMessage::TerminalError(name, error) => MessageView::TerminalError(
                name@,
                error@,
            ),
            ProgressMessage::Warning(name, text) => MessageView::Warning(name@, text@),
        }
    }
}

/// The messages of a worker, as text.
pub open spec fn message_views(messages: Seq<ProgressMessage>) -> Seq<MessageView> {
    Seq::new(messages.len(), |i: int| messages[i]@)
}

/// The state of an operation.
#[derive(Debug)]
pub struct FileOperationProgress {
    pub operation_type: FileOperationType,
    pub is_active: bool,
    pub is_preparing: bool,
    pub preparing_message: String,
    pub current_file: String,
    /// How much of the current file is done: `current_done` of `current_size`.
    pub current_done: u64,
    pub current_size: u64,
    pub phase: FileOperationPhase,
    pub total_files: usize,
    pub completed_files: usize,
    pub total_bytes: u64,
    pub completed_bytes: u64,
    /// The top-level items that the worker completed.
    pub completed_item_names: NameSet,
    /// The items that must not be tried again by themselves.
    pub terminal_item_names: NameSet,
    /// The cut items that were skipped on purpose and stay on the clipboard.
    pub skipped_cut_item_names: NameSet,
    pub result: Option<FileOperationResult>,
    pub last_error: Option<String>,
    pub warnings: Vec<String>,
}

/// The result of an operation, as text.
pub struct ResultView {
    pub success_count: usize,
    pub failure_count: usize,
    pub last_error: Option<Seq<char>>,
    pub warnings: Seq<Seq<char>>,
}

/// The state of an operation, as text.
pub struct OperationView {
    pub operation_type: FileOperationType,
    pub is_active: bool,
    pub is_preparing: bool,
    pub preparing_message: Seq<char>,
    pub current_file: Seq<char>,
    pub current_done: u64,
    pub current_size: u64,
    pub phase: FileOperationPhase,
    pub total_files: usize,
    pub completed_files: usize,
    pub total_bytes: u64,
    pub completed_bytes: u64,
    pub completed_item_names: Set<Seq<char>>,
    pub terminal_item_names: Set<Seq<char>>,
    pub skipped_cut_item_names: Set<Seq<char>>,
    pub result: Option<ResultView>,
    pub last_error: Option<Seq<char>>,
    pub warnings: Seq<Seq<char>>,
}

impl View for FileOperationResult {
    type V = ResultView;

    open spec fn view(&self) -> ResultView {
        ResultView {
            success_count: self.success_count,
            failure_count: self.failure_count,
            last_error: optional_text(self.last_error),
            warnings: views(self.warnings@),
        }
    }
}

impl View for FileOperationProgress {
    type V = OperationView;

    open spec fn view(&self) -> OperationView {
        OperationView {
            operation_type: self.operation_type,
            is_active: self.is_active,
            is_preparing: self.is_preparing,
            preparing_message: self.preparing_message@,
            current_file: self.current_file@,
            current_done: self.current_done,
            current_size: self.current_size,
            phase: self.phase,
            total_files: self.total_files,
            completed_files: self.completed_files,
            total_bytes: self.total_bytes,
            completed_bytes: self.completed_bytes,
            completed_item_names: self.completed_item_names@,
            terminal_item_names: self.terminal_item_names@,
            skipped_cut_item_names: self.skipped_cut_item_names@,
            result: match self.result {
                Some(r) => Some(r@),
                None => None,
            },
            last_error: optional_text(self.last_error),
            warnings: views(self.warnings@),
        }
    }
}

/// A fresh operation, not yet active.
pub open spec fn fresh_operation(operation_type: FileOperationType) -> OperationView {
    OperationView {
        operation_type,
        is_active: false,
        is_preparing: false,
        preparing_message: Seq::empty(),
        current_file: Seq::empty(),
        current_done: 0,
        current_size: 1,
        phase: FileOperationPhase::Copying,
        total_files: 0,
        completed_files: 0,
        total_bytes: 0,
        completed_bytes: 0,
        completed_item_names: Set::empty(),
        terminal_item_names: Set::empty(),
        skipped_cut_item_names: Set::empty(),
        result: None,
        last_error: None,
        warnings: Seq::empty(),
    }
}

/// A note about an item; one without a name stands for itself.
pub open spec fn noted(name: Seq<char>, between: Seq<char>, alone: Seq<char>, text: Seq<char>) -> Seq<
    char,
> {
    if name.len() == 0 {
        alone + text
    } else {
        name + between + text
    }
}

/// The operation after one message.
pub open spec fn after_message(p: OperationView, m: ProgressMessage) -> OperationView {
    match m {
        ProgressMessage::Preparing(text) => OperationView {
            is_preparing: true,
            preparing_message: text@,
            ..p
        },
        ProgressMessage::PrepareComplete => OperationView {
            is_preparing: false,
            preparing_message: Seq::empty(),
            phase: FileOperationPhase::Copying,
            ..p
        },
        ProgressMessage::FileStarted(name) => OperationView {
            current_file: name@,
            current_done: 0,
            current_size: 1,
            phase: FileOperationPhase::Copying,
            ..p
        },
        ProgressMessage::FileProgress(done, size) => if size > 0 {
            OperationView { current_done: done, current_size: size, ..p }
        } else {
            p
        },
        ProgressMessage::Phase(phase) => OperationView { phase, ..p },
        ProgressMessage::FileCompleted(name) => OperationView {
            current_done: 1,
            current_size: 1,
            completed_item_names: p.completed_item_names.insert(name@),
            ..p
        },
        ProgressMessage::TotalProgress(done, all, bytes, all_bytes) => OperationView {
            completed_files: done,
            total_files: all,
            completed_bytes: bytes,
            total_bytes: all_bytes,
            ..p
        },
        ProgressMessage::Completed(success, failure) => OperationView {
            is_active: false,
            result: Some(
                ResultView {
                    success_count: success,
                    failure_count: failure,
                    last_error: p.last_error,
                    warnings: p.warnings,
                },
            ),
            last_error: None,
            warnings: Seq::empty(),
            ..p
        },
        ProgressMessage::Error(_, error) => if error@ != "Cancelled"@ || p.last_error is None {
            OperationView { last_error: Some(error@), ..p }
        } else {
            p
        },
        ProgressMessage::TerminalError(name, error) => OperationView {
            terminal_item_names: p.terminal_item_names.insert(name@),
            warnings: p.warnings.push(
                noted(
                    name@,
                    ": manual recovery required: "@,
                    "Manual recovery required: "@,
                    error@,
                ),
            ),
            last_error: Some(error@),
            ..p
        },
        ProgressMessage::Warning(name, warning) => OperationView {
            warnings: p.warnings.push(noted(name@, ": "@, Seq::empty(), warning@)),
            ..p
        },
    }
}

/// The operation after the messages, up to the one that ends it.
pub open spec fn after_all(p: OperationView, messages: Seq<ProgressMessage>) -> OperationView
    decreases messages.len(),
{
    if messages.len() == 0 {
        p
    } else {
        let before = after_all(p, messages.drop_last());
        if before.is_active {
            after_message(before, messages.last())
        } else {
            before
        }
    }
}

/// The operation after its worker went away without a word.
pub open spec fn after_disconnect(p: OperationView, cancelled: bool) -> OperationView {
    OperationView {
        is_active: false,
        result: Some(
            ResultView {
                success_count: 0,
                failure_count: 1,
                last_error: if cancelled {
                    Some("Cancelled"@)
                } else if p.last_error is Some {
                    p.last_error
                } else {
                    Some("Operation worker exited without a completion message"@)
                },
                warnings: p.warnings,
            },
        ),
        last_error: if cancelled { p.last_error } else { None },
        warnings: Seq::empty(),
        ..p
    }
}

/// The operation after a look at its worker.
pub open spec fn after_poll(
    p: OperationView,
    messages: Seq<ProgressMessage>,
    disconnected: bool,
    cancelled: bool,
) -> OperationView {
    if !p.is_active {
        p
    } else {
        let told = after_all(p, messages);
        if told.is_active && disconnected {
            after_disconnect(told, cancelled)
        } else {
            told
        }
    }
}

fn take_texts(v: &mut Vec<String>) -> (r: Vec<String>)
    ensures
        r@ == old(v)@,
        final(v)@ == Seq::<String>::empty(),
{
    let mut r: Vec<String> = Vec::new();
    core::mem::swap(&mut r, v);
    r
}

impl FileOperationProgress {
    /// An operation that has not started.
    pub fn new(operation_type: FileOperationType) -> (r: Self)
        ensures
            r@ == fresh_operation(operation_type),
    {
        let r = FileOperationProgress {
            operation_type,
            is_active: false,
            is_preparing: false,
            preparing_message: String::new(),
            current_file: String::new(),
            current_done: 0,
            current_size: 1,
            phase: FileOperationPhase::Copying,
            total_files: 0,
            completed_files: 0,
            total_bytes: 0,
            completed_bytes: 0,
            completed_item_names: NameSet::new(),
            terminal_item_names: NameSet::new(),
            skipped_cut_item_names: NameSet::new(),
            result: None,
            last_error: None,
            warnings: Vec::new(),
        };
        assert(views(r.warnings@) == Seq::<Seq<char>>::empty());
        r
    }

    fn note(&mut self, text: String)
        ensures
            final(self)@ == (OperationView {
                warnings: old(self)@.warnings.push(text@),
                ..old(self)@
            }),
    {
        let ghost before = self.warnings@;
        self.warnings.push(text);
        assert(views(self.warnings@) == views(before).push(text@));
    }

    /// Takes in one message.
    pub fn apply(&mut self, message: ProgressMessage)
        ensures
            final(self)@ == after_message(old(self)@, message),
    {
        match message {
            ProgressMessage::Preparing(text) => {
                self.is_preparing = true;
                self.preparing_message = text;
            },
            ProgressMessage::PrepareComplete => {
                self.is_preparing = false;
                self.preparing_message = String::new();
                self.phase = FileOperationPhase::Copying;
            },
            ProgressMessage::FileStarted(name) => {
                self.current_file = name;
                self.current_done = 0;
                self.current_size = 1;
                self.phase = FileOperationPhase::Copying;
            },
            ProgressMessage::FileProgress(done, size) => {
                if size > 0 {
                    self.current_done = done;
                    self.current_size = size;
                }
            },
            ProgressMessage::Phase(phase) => {
                self.phase = phase;
            },
            ProgressMessage::FileCompleted(name) => {
                self.current_done = 1;
                self.current_size = 1;
                self.completed_item_names.insert(name);
            },
            ProgressMessage::TotalProgress(done, all, bytes, all_bytes) => {
                self.completed_files = done;
                self.total_files = all;
                self.completed_bytes = bytes;
                self.total_bytes = all_bytes;
            },
            ProgressMessage::Completed(success, failure) => {
                let last_error = self.last_error.take();
                let warnings = take_texts(&mut self.warnings);
                self.result =
                Some(
                    FileOperationResult {
                        success_count: success,
                        failure_count: failure,
                        last_error,
                        warnings,
                    },
                );
                self.is_active = false;
                assert(views(self.warnings@) == Seq::<Seq<char>>::empty());
            },
            ProgressMessage::Error(_, error) => {
                if !same_text(error.as_str(), "Cancelled") || self.last_error.is_none() {
                    self.last_error = Some(error);
                }
            },
            ProgressMessage::TerminalError(name, error) => {
                let text = if name.as_str().is_empty() {
                    concat2("Manual recovery required: ", error.as_str())
                } else {
                    concat3(name.as_str(), ": manual recovery required: ", error.as_str())
                };
                self.note(text);
                self.terminal_item_names.insert(name);
                self.last_error = Some(error);
            },
            ProgressMessage::Warning(name, warning) => {
                let text = if name.as_str().is_empty() {
                    assert(Seq::<char>::empty() + warning@ == warning@);
                    warning
                } else {
                    concat3(name.as_str(), ": ", warning.as_str())
                };
                self.note(text);
            },
        }
    }

    /// Takes in what the worker reported since the last look. A worker that is
    /// gone without ending the operation fails it. True while it goes on.
    pub fn poll(&mut self, messages: Vec<ProgressMessage>, disconnected: bool, cancelled: bool) -> (r:
        bool)
        ensures
            final(self)@ == after_poll(old(self)@, messages@, disconnected, cancelled),
            r == final(self)@.is_active,
    {
        if !self.is_active {
            return false;
        }
        let ghost all = messages@;
        let mut rest = messages;
        let ghost start = self@;
        let ghost mut taken: int = 0;
        proof {
            assert(all.take(0) == Seq::<ProgressMessage>::empty());
            assert(all.skip(0) == all);
        }
        while rest.len() > 0 && self.is_active
            invariant
                0 <= taken <= all.len(),
                rest@ == all.skip(taken),
                self@ == after_all(start, all.take(taken)),
            decreases rest@.len(),
        {
            let message = rest.remove(0);
            proof {
                assert(all.skip(taken)[0] == all[taken]);
                assert(all.take(taken + 1).drop_last() == all.take(taken));
                assert(all.take(taken + 1).last() == all[taken]);
                assert(all.skip(taken).remove(0) == all.skip(taken + 1));
            }
            self.apply(message);
            proof {
                taken = taken + 1;
            }
        }
        proof {
            if rest@.len() == 0 {
                assert(all.take(taken) == all);
            } else {
                lemma_ended_stays(start, all, taken);
            }
        }
        if !self.is_active {
            return false;
        }
        if disconnected {
            let last_error: Option<String> = if cancelled {
                Some("Cancelled".to_owned())
            } else {
                match self.last_error.take() {
                    Some(error) => Some(error),
                    None => Some("Operation worker exited without a completion message".to_owned()),
                }
            };
            let warnings = take_texts(&mut self.warnings);
            self.result =
            Some(
                FileOperationResult { success_count: 0, failure_count: 1, last_error, warnings },
            );
            self.is_active = false;
            assert(views(self.warnings@) == Seq::<Seq<char>>::empty());
            return false;
        }
        true
    }
}

proof fn lemma_ended_stays(p: OperationView, messages: Seq<ProgressMessage>, n: int)
    requires
        0 <= n <= messages.len(),
        !after_all(p, messages.take(n)).is_active,
    ensures
        after_all(p, messages) == after_all(p, messages.take(n)),
    decreases messages.len() - n,
{
    if n < messages.len() {
        assert(messages.take(n + 1).drop_last() == messages.take(n));
        lemma_ended_stays(p, messages, n + 1);
    } else {
        assert(messages.take(n) == messages);
    }
}

/// An operation that has ended stays as it is, whatever is still reported.
pub proof fn law_ended_operation_is_final(
    p: OperationView,
    messages: Seq<ProgressMessage>,
    disconnected: bool,
    cancelled: bool,
)
    requires
        !p.is_active,
    ensures
        after_poll(p, messages, disconnected, cancelled) == p,
{
}

proof fn lemma_active_has_no_result(p: OperationView, messages: Seq<ProgressMessage>)
    requires
        p.is_active,
        p.result is None,
    ensures
        after_all(p, messages).is_active <==> after_all(p, messages).result is None,
    decreases messages.len(),
{
    if messages.len() > 0 {
        lemma_active_has_no_result(p, messages.drop_last());
    }
}

/// A running operation has a result exactly once it has ended: it never ends
/// without one, and shows none before.
pub proof fn law_result_exactly_at_the_end(
    p: OperationView,
    messages: Seq<ProgressMessage>,
    disconnected: bool,
    cancelled: bool,
)
    requires
        p.is_active,
        p.result is None,
    ensures
        ({
            let after = after_poll(p, messages, disconnected, cancelled);
            after.is_active <==> after.result is None
        }),
        disconnected ==> !after_poll(p, messages, disconnected, cancelled).is_active,
{
    lemma_active_has_no_result(p, messages);
}

/// The word that an operation was cancelled never hides an error that was
/// reported before.
pub proof fn law_cancellation_hides_no_error(p: OperationView, name: String, error: String)
    requires
        error@ == "Cancelled"@,
        p.last_error is Some,
    ensures
        after_message(p, ProgressMessage::Error(name, error)).last_error == p.last_error,
{
}

/// What a message tells stands in the operation: what is prepared, which file is at work and
/// how far it is, how much is done of how much.
pub proof fn law_message_is_taken_in(p: OperationView, text: String, a: u64, b: u64, n: usize, m: usize)
    ensures
        after_message(p, ProgressMessage::Preparing(text)).is_preparing,
        after_message(p, ProgressMessage::Preparing(text)).preparing_message == text@,
        !after_message(p, ProgressMessage::PrepareComplete).is_preparing,
        after_message(p, ProgressMessage::FileStarted(text)).current_file == text@,
        after_message(p, ProgressMessage::FileStarted(text)).current_done == 0,
        after_message(p, ProgressMessage::FileStarted(text)).completed_item_names
            == p.completed_item_names,
        b > 0 ==> after_message(p, ProgressMessage::FileProgress(a, b)).current_done == a
            && after_message(p, ProgressMessage::FileProgress(a, b)).current_size == b,
        after_message(p, ProgressMessage::FileProgress(a, 0)) == p,
        after_message(p, ProgressMessage::FileCompleted(text)).completed_item_names.contains(text@),
        after_message(p, ProgressMessage::FileCompleted(text)).current_done == after_message(
            p,
            ProgressMessage::FileCompleted(text),
        ).current_size,
        ({
            let now = after_message(p, ProgressMessage::TotalProgress(n, m, a, b));
            now.completed_files == n && now.total_files == m && now.completed_bytes == a
                && now.total_bytes == b && now.completed_item_names == p.completed_item_names
        }),
{
}

/// The end tells how many went well and how many failed, with the last error and all
/// warnings; an item that was left half done is noted and its error kept.
pub proof fn law_end_tells_what_happened(
    p: OperationView,
    name: String,
    error: String,
    success: usize,
    failure: usize,
)
    ensures
        ({
            let end = after_message(p, ProgressMessage::Completed(success, failure));
            &&& !end.is_active
            &&& end.result == Some(
                ResultView {
                    success_count: success,
                    failure_count: failure,
                    last_error: p.last_error,
                    warnings: p.warnings,
                },
            )
        }),
        error@ != "Cancelled"@ ==> after_message(
            p,
            ProgressMessage::Error(name, error),
        ).last_error == Some(error@),
        after_message(p, ProgressMessage::Error(name, error)).terminal_item_names
            == p.terminal_item_names,
        ({
            let left = after_message(p, ProgressMessage::TerminalError(name, error));
            &&& left.terminal_item_names.contains(name@)
            &&& left.last_error == Some(error@)
            &&& left.warnings.len() == p.warnings.len() + 1
        }),
        ({
            let warned = after_message(p, ProgressMessage::Warning(name, error));
            &&& warned.last_error == p.last_error
            &&& warned.terminal_item_names == p.terminal_item_names
            &&& name@.len() > 0 ==> warned.warnings == p.warnings.push(name@ + ": "@ + error@)
            &&& name@.len() == 0 ==> warned.warnings == p.warnings.push(error@)
        }),
{
    assert(Seq::<char>::empty() + error@ =~= error@);
}

/// Messages are taken in one after the other, up to the end; what comes behind it is not.
pub proof fn law_messages_are_taken_in_order(
    p: OperationView,
    messages: Seq<ProgressMessage>,
    next: ProgressMessage,
)
    ensures
        after_all(p, Seq::empty()) == p,
        after_all(p, messages).is_active ==> after_all(p, messages.push(next)) == after_message(
            after_all(p, messages),
            next,
        ),
        !after_all(p, messages).is_active ==> after_all(p, messages.push(next)) == after_all(
            p,
            messages,
        ),
{
    assert(messages.push(next).drop_last() =~= messages);
}

/// Work that ends without a word counts as failed, with the error that is known.
pub proof fn law_silent_end_is_a_failure(p: OperationView, cancelled: bool)
    ensures
        ({
            let end = after_disconnect(p, cancelled);
            &&& !end.is_active
            &&& end.result is Some
            &&& end.result->0.success_count == 0
            &&& end.result->0.failure_count == 1
            &&& end.result->0.last_error is Some
            &&& cancelled ==> end.result->0.last_error == Some("Cancelled"@)
            &&& !cancelled && p.last_error is Some ==> end.result->0.last_error == p.last_error
            &&& end.result->0.warnings == p.warnings
        }),
{
}

} // verus!
