//! Copies of files beside themselves: the names that the copies get, and the
//! worker that makes them one by one.

use crate::authorization::PathAuthorization;
use crate::names::NameSet;
use crate::paths::lemma_last_position;
use crate::progress::{message_views, MessageView, ProgressMessage};
use crate::text::{
    chars_of, concat2, concat3, decimal, find_last, last_position, number_text, same_text, slice_of,
    string_of,
};
use vstd::prelude::*;

verus! {

/// How many names are tried before the clock gives one.
pub const MAX_DUP_NAMES: u64 = 10000;

/// What a copy's name carries before the extension.
pub open spec fn dup_suffix(k: nat) -> Seq<char> {
    if k == 1 {
        "_dup"@
    } else {
        "_dup"@ + decimal(k)
    }
}

/// A name with `suffix` put before its extension.
pub open spec fn suffixed(name: Seq<char>, suffix: Seq<char>) -> Seq<char> {
    let dot = last_position(name, '.');
    if dot < 0 {
        name + suffix
    } else {
        name.take(dot) + suffix + name.skip(dot)
    }
}

/// Whether the first `n` names that are tried are all taken.
pub open spec fn all_taken(name: Seq<char>, taken: Set<Seq<char>>, n: nat) -> bool {
    forall|k: nat| 1 <= k <= n ==> taken.contains(#[trigger] suffixed(name, dup_suffix(k)))
}

/// A name for a copy: the first of `name_dup`, `name_dup2`, ... that is not
/// taken, up to ten thousand of them, or else one made of the clock.
pub open spec fn is_dup_name(name: Seq<char>, taken: Set<Seq<char>>, millis: u64, r: Seq<char>) -> bool {
    if all_taken(name, taken, MAX_DUP_NAMES as nat) {
        r == suffixed(name, "_dup"@ + decimal(millis as nat))
    } else {
        exists|k: nat|
            1 <= k <= MAX_DUP_NAMES && r == #[trigger] suffixed(name, dup_suffix(k))
                && !taken.contains(r) && all_taken(name, taken, (k - 1) as nat)
    }
}

fn put_suffix(base: &str, ext: &str, suffix: &str) -> (r: String)
    ensures
        r@ == base@ + suffix@ + ext@,
{
    let r = concat3(base, suffix, ext);
    r
}

/// A name for a copy of `name`. `taken` holds the names that are there, and
/// `millis` is the clock.
pub fn generate_dup_filename(name: &str, taken: &NameSet, millis: u64) -> (r: String)
    ensures
        is_dup_name(name@, taken@, millis, r@),
{
    let chars = chars_of(name);
    proof {
        lemma_last_position(name@, '.');
    }
    let (base, ext) = match find_last(&chars, '.') {
        Some(dot) => (
            string_of(&slice_of(&chars, 0, dot)),
            string_of(&slice_of(&chars, dot, chars.len())),
        ),
        None => (name.to_owned(), String::new()),
    };
    assert forall|suffix: Seq<char>| #[trigger]
        suffixed(name@, suffix) == base@ + suffix + ext@ by {
        if last_position(name@, '.') < 0 {
            assert(base@ + suffix + ext@ =~= name@ + suffix);
        } else {
            assert(base@ =~= name@.take(last_position(name@, '.')));
            assert(ext@ =~= name@.skip(last_position(name@, '.')));
        }
    }
    let mut k: u64 = 1;
    while k <= MAX_DUP_NAMES
        invariant
            1 <= k <= MAX_DUP_NAMES + 1,
            forall|suffix: Seq<char>| #[trigger]
                suffixed(name@, suffix) == base@ + suffix + ext@,
            all_taken(name@, taken@, (k - 1) as nat),
        decreases MAX_DUP_NAMES + 1 - k,
    {
        let suffix = if k == 1 {
            "_dup".to_owned()
        } else {
            let count = number_text(k);
            concat2("_dup", count.as_str())
        };
        let candidate = put_suffix(base.as_str(), ext.as_str(), suffix.as_str());
        assert(candidate@ == suffixed(name@, dup_suffix(k as nat)));
        if !taken.contains(candidate.as_str()) {
            return candidate;
        }
        k += 1;
    }
    let clock = number_text(millis);
    let suffix = concat2("_dup", clock.as_str());
    put_suffix(base.as_str(), ext.as_str(), suffix.as_str())
}

/// A copy never takes a name that is taken, unless ten thousand are.
pub proof fn law_dup_name_is_new(name: Seq<char>, taken: Set<Seq<char>>, millis: u64, r: Seq<char>)
    requires
        is_dup_name(name, taken, millis, r),
        !all_taken(name, taken, MAX_DUP_NAMES as nat),
    ensures
        !taken.contains(r),
        taken.contains(name) ==> r != name,
{
}

/// A file to be copied beside itself.
#[derive(Debug)]
pub struct DupEntry {
    pub name: String,
    pub dup_name: String,
    pub authorization: Option<PathAuthorization>,
}

/// The worker that copies files beside themselves.
#[derive(Debug)]
pub struct DupRun {
    pub entries: Vec<DupEntry>,
    /// Whether the files are bound to their directory.
    pub bound: bool,
    pub next: usize,
    pub completed: usize,
    pub failed: usize,
    pub completed_bytes: u64,
    pub completed_files: usize,
    pub total_bytes: u64,
    pub total_files: usize,
    pub ended: bool,
}

/// What came of copying one file.
#[derive(Debug)]
pub enum CopyOutcome {
    /// A link was copied.
    Link { warnings: Vec<String> },
    /// A directory was copied, and the counters were moved on to these.
    Directory { warnings: Vec<String>, completed_bytes: u64, completed_files: usize },
    /// A file was copied.
    File { size: u64, warnings: Vec<String> },
    /// The user cancelled the copying.
    Interrupted,
    /// The copying failed, with the counters at these.
    Failed { error: String, completed_bytes: u64, completed_files: usize },
}

/// Whether a list of messages says that the worker has ended, and says it last.
pub open spec fn closes(messages: Seq<MessageView>) -> bool {
    &&& messages.len() > 0
    &&& messages.last() is Completed
    &&& forall|i: int| 0 <= i < messages.len() - 1 ==> !((#[trigger] messages[i]) is Completed)
}

/// Whether a list of messages says nothing of an end.
pub open spec fn goes_on(messages: Seq<MessageView>) -> bool {
    forall|i: int| 0 <= i < messages.len() ==> !((#[trigger] messages[i]) is Completed)
}

/// One warning for each text.
pub open spec fn warned(name: Seq<char>, warnings: Seq<String>) -> Seq<MessageView> {
    Seq::new(warnings.len(), |i: int| MessageView::Warning(name, warnings[i]@))
}

fn error_note(name: &str, text: &str) -> (r: ProgressMessage)
    ensures
        r@ == MessageView::Error(name@, text@),
{
    ProgressMessage::Error(name.to_owned(), text.to_owned())
}

fn push_warnings(messages: &mut Vec<ProgressMessage>, name: &str, warnings: &Vec<String>)
    ensures
        message_views(final(messages)@) == message_views(old(messages)@) + warned(
            name@,
            warnings@,
        ),
{
    let ghost before = message_views(messages@);
    let ghost all = warned(name@, warnings@);
    let mut i: usize = 0;
    assert(message_views(messages@) =~= before + all.take(0));
    while i < warnings.len()
        invariant
            i <= warnings@.len(),
            all == warned(name@, warnings@),
            message_views(messages@) == before + all.take(i as int),
        decreases warnings@.len() - i,
    {
        let ghost held = messages@;
        messages.push(ProgressMessage::Warning(name.to_owned(), warnings[i].clone()));
        assert(message_views(messages@) =~= message_views(held).push(all[i as int]));
        assert(all.take(i + 1) =~= all.take(i as int).push(all[i as int]));
        assert(before + all.take(i + 1) =~= (before + all.take(i as int)).push(all[i as int]));
        i += 1;
    }
    assert(all.take(i as int) =~= all);
}

/// What comes next in a run of copies.
pub open spec fn dup_step(
    before: DupRun,
    after: DupRun,
    cancelled: bool,
    directory: Result<(), String>,
    taken: bool,
    r: (Vec<ProgressMessage>, Option<usize>),
) -> bool {
    let run = before;
    let all_done = run.next == run.entries@.len();
    if all_done {
        &&& after == (DupRun { ended: true, ..run })
        &&& r.1 is None
        &&& message_views(r.0@) == seq![
            MessageView::Completed(run.completed, run.failed),
        ]
    } else if cancelled {
        &&& after == (DupRun { ended: true, ..run })
        &&& r.1 is None
        &&& message_views(r.0@) == seq![
            MessageView::Error(Seq::empty(), "Cancelled"@),
            MessageView::Completed(run.completed, (run.failed + 1) as usize),
        ]
    } else if run.bound && directory is Err {
        &&& after == (DupRun {
            ended: true,
            failed: (run.failed + 1) as usize,
            ..run
        })
        &&& r.1 is None
        &&& message_views(r.0@) == seq![
            MessageView::Error(run.name(), directory->Err_0@),
            MessageView::Completed(run.completed, (run.failed + 1) as usize),
        ]
    } else if (run.bound && run.entries@[run.next as int].authorization is None)
        || taken {
        &&& after == (DupRun {
            next: (run.next + 1) as usize,
            failed: (run.failed + 1) as usize,
            ..run
        })
        &&& r.1 is None
        &&& message_views(r.0@) == seq![
            MessageView::Error(
                run.name(),
                if run.bound && run.entries@[run.next as int].authorization is None {
                    "Missing clipboard authorization for local source"@
                } else {
                    "destination already exists"@
                },
            ),
        ]
    } else {
        &&& after == run
        &&& r.1 == Some(run.next)
        &&& message_views(r.0@) == seq![MessageView::FileStarted(run.name())]
    }
}

/// What the end of one copy does.
pub open spec fn dup_copied(
    before: DupRun,
    after: DupRun,
    outcome: CopyOutcome,
    r: Vec<ProgressMessage>,
) -> bool {
    let run = before;
    let name = run.name();
    let done = MessageView::FileCompleted(name);
    match outcome {
        CopyOutcome::Link { warnings } => {
            &&& after == (DupRun {
                next: (run.next + 1) as usize,
                completed: (run.completed + 1) as usize,
                completed_files: (run.completed_files + 1) as usize,
                ..run
            })
            &&& message_views(r@) == warned(name, warnings@).push(
                MessageView::TotalProgress(
                    (run.completed_files + 1) as usize,
                    run.total_files,
                    run.completed_bytes,
                    run.total_bytes,
                ),
            ).push(done)
        },
        CopyOutcome::Directory { warnings, completed_bytes, completed_files } => {
            &&& after == (DupRun {
                next: (run.next + 1) as usize,
                completed: (run.completed + 1) as usize,
                completed_bytes,
                completed_files,
                ..run
            })
            &&& message_views(r@) == warned(name, warnings@).push(done)
        },
        CopyOutcome::File { size, warnings } => {
            &&& after == (DupRun {
                next: (run.next + 1) as usize,
                completed: (run.completed + 1) as usize,
                completed_bytes: (run.completed_bytes + size) as u64,
                completed_files: (run.completed_files + 1) as usize,
                ..run
            })
            &&& message_views(r@) == warned(name, warnings@).push(done)
        },
        CopyOutcome::Interrupted => {
            &&& after == (DupRun { ended: true, ..run })
            &&& message_views(r@) == seq![
                MessageView::Error(Seq::empty(), "Cancelled"@),
                MessageView::Completed(run.completed, (run.failed + 1) as usize),
            ]
        },
        CopyOutcome::Failed { error, completed_bytes, completed_files } => {
            &&& after == (DupRun {
                next: (run.next + 1) as usize,
                failed: (run.failed + 1) as usize,
                completed_bytes,
                completed_files,
                ..run
            })
            &&& message_views(r@) == seq![MessageView::Error(name, error@)]
        },
    }
}

impl DupRun {
    /// While the worker goes on, each file before `next` was either copied or
    /// failed.
    pub open spec fn wf(self) -> bool {
        &&& self.next <= self.entries@.len()
        &&& !self.ended ==> self.completed + self.failed == self.next
        &&& self.ended ==> self.completed + self.failed <= self.entries@.len()
    }

    /// The name of the file that comes next.
    pub open spec fn name(self) -> Seq<char> {
        self.entries@[self.next as int].name@
    }

    /// A worker that has done nothing yet.
    pub fn start(entries: Vec<DupEntry>, bound: bool) -> (r: DupRun)
        ensures
            r.wf(),
            r == (DupRun {
                entries,
                bound,
                next: 0,
                completed: 0,
                failed: 0,
                completed_bytes: 0,
                completed_files: 0,
                total_bytes: 0,
                total_files: 0,
                ended: false,
            }),
    {
        DupRun {
            entries,
            bound,
            next: 0,
            completed: 0,
            failed: 0,
            completed_bytes: 0,
            completed_files: 0,
            total_bytes: 0,
            total_files: 0,
            ended: false,
        }
    }

    /// Looks at the directory once more before anything is done. A directory that
    /// the files are bound to and that is another one ends the work.
    pub fn directory_checked(&mut self, directory: Result<(), String>) -> (r: Vec<ProgressMessage>)
        requires
            old(self).wf(),
            !old(self).ended,
        ensures
            final(self).wf(),
            *final(self) == (DupRun { ended: final(self).ended, ..*old(self) }),
            final(self).ended == (old(self).bound && directory is Err),
            message_views(r@) == if final(self).ended {
                seq![
                    MessageView::Error(Seq::empty(), directory->Err_0@),
                    MessageView::Completed(0, old(self).entries@.len() as usize),
                ]
            } else {
                seq![MessageView::Preparing("Calculating file sizes..."@)]
            },
    {
        let mut messages: Vec<ProgressMessage> = Vec::new();
        if self.bound {
            if let Err(error) = directory {
                messages.push(error_note("", error.as_str()));
                messages.push(ProgressMessage::Completed(0, self.entries.len()));
                self.ended = true;
                proof {
                    reveal_strlit("");
                }
                assert(""@ =~= Seq::<char>::empty());
                assert(message_views(messages@) =~= seq![
                    MessageView::Error(Seq::empty(), directory->Err_0@),
                    MessageView::Completed(0, old(self).entries@.len() as usize),
                ]);
                return messages;
            }
        }
        messages.push(ProgressMessage::Preparing("Calculating file sizes...".to_owned()));
        assert(message_views(messages@) =~= seq![
            MessageView::Preparing("Calculating file sizes..."@),
        ]);
        messages
    }

    /// Takes the sizes of all files, as bytes and as a count of files. Where they
    /// could not be taken, the work ends; a cancelled look counts as one failure.
    pub fn measured(&mut self, sizes: Result<(u64, usize), String>) -> (r: Vec<ProgressMessage>)
        requires
            old(self).wf(),
            !old(self).ended,
        ensures
            final(self).wf(),
            match sizes {
                Ok((bytes, files)) => {
                    &&& *final(self) == (DupRun {
                        total_bytes: bytes,
                        total_files: files,
                        ..*old(self)
                    })
                    &&& message_views(r@) == seq![
                        MessageView::PrepareComplete,
                        MessageView::TotalProgress(0, files, 0, bytes),
                    ]
                },
                Err(error) => {
                    &&& *final(self) == (DupRun { ended: true, ..*old(self) })
                    &&& message_views(r@) == seq![
                        MessageView::Error(Seq::empty(), error@),
                        MessageView::Completed(
                            0,
                            if error@ == "Cancelled"@ {
                                1
                            } else {
                                old(self).entries@.len() as usize
                            },
                        ),
                    ]
                },
            },
    {
        let mut messages: Vec<ProgressMessage> = Vec::new();
        match sizes {
            Ok((bytes, files)) => {
                self.total_bytes = bytes;
                self.total_files = files;
                messages.push(ProgressMessage::PrepareComplete);
                messages.push(ProgressMessage::TotalProgress(0, files, 0, bytes));
                assert(message_views(messages@) =~= seq![
                    MessageView::PrepareComplete,
                    MessageView::TotalProgress(0, files, 0, bytes),
                ]);
            },
            Err(error) => {
                let failures: usize = if same_text(error.as_str(), "Cancelled") {
                    1
                } else {
                    self.entries.len()
                };
                messages.push(error_note("", error.as_str()));
                messages.push(ProgressMessage::Completed(0, failures));
                self.ended = true;
                proof {
                    reveal_strlit("");
                }
                assert(""@ =~= Seq::<char>::empty());
                assert(message_views(messages@) =~= seq![
                    MessageView::Error(Seq::empty(), error@),
                    MessageView::Completed(0, failures),
                ]);
            },
        }
        messages
    }

    /// Turns to the next file. `directory` is what another look at the directory
    /// gave, and `taken` whether the copy's name is taken. Gives the place of the
    /// file where it is to be copied now.
    pub fn step(&mut self, cancelled: bool, directory: Result<(), String>, taken: bool) -> (r: (
        Vec<ProgressMessage>,
        Option<usize>,
    ))
        requires
            old(self).wf(),
            !old(self).ended,
        ensures
            final(self).wf(),
            final(self).ended ==> closes(message_views(r.0@)),
            !final(self).ended ==> goes_on(message_views(r.0@)),
            dup_step(*old(self), *final(self), cancelled, directory, taken, r),
    {
        let mut messages: Vec<ProgressMessage> = Vec::new();
        proof {
            reveal_strlit("");
        }
        assert(""@ =~= Seq::<char>::empty());
        if self.next == self.entries.len() {
            messages.push(ProgressMessage::Completed(self.completed, self.failed));
            self.ended = true;
            assert(message_views(messages@) =~= seq![
                MessageView::Completed(old(self).completed, old(self).failed),
            ]);
            return (messages, None);
        }
        let at: usize = self.next;
        let _count: usize = self.entries.len();
        if cancelled {
            messages.push(error_note("", "Cancelled"));
            messages.push(ProgressMessage::Completed(self.completed, self.failed + 1));
            self.ended = true;
            assert(message_views(messages@) =~= seq![
                MessageView::Error(Seq::empty(), "Cancelled"@),
                MessageView::Completed(old(self).completed, (old(self).failed + 1) as usize),
            ]);
            return (messages, None);
        }
        if self.bound {
            if let Err(error) = directory {
                messages.push(error_note(self.entries[at].name.as_str(), error.as_str()));
                self.failed = self.failed + 1;
                messages.push(ProgressMessage::Completed(self.completed, self.failed));
                self.ended = true;
                assert(message_views(messages@) =~= seq![
                    MessageView::Error(old(self).name(), directory->Err_0@),
                    MessageView::Completed(old(self).completed, (old(self).failed + 1) as usize),
                ]);
                return (messages, None);
            }
            if self.entries[at].authorization.is_none() {
                messages.push(
                    error_note(
                        self.entries[at].name.as_str(),
                        "Missing clipboard authorization for local source",
                    ),
                );
                self.failed = self.failed + 1;
                self.next = at + 1;
                assert(message_views(messages@) =~= seq![
                    MessageView::Error(
                        old(self).name(),
                        "Missing clipboard authorization for local source"@,
                    ),
                ]);
                return (messages, None);
            }
        }
        if taken {
            messages.push(
                error_note(self.entries[at].name.as_str(), "destination already exists"),
            );
            self.failed = self.failed + 1;
            self.next = at + 1;
            assert(message_views(messages@) =~= seq![
                MessageView::Error(old(self).name(), "destination already exists"@),
            ]);
            return (messages, None);
        }
        messages.push(ProgressMessage::FileStarted(self.entries[at].name.clone()));
        assert(message_views(messages@) =~= seq![MessageView::FileStarted(old(self).name())]);
        (messages, Some(at))
    }

    /// What is reported while a file is copied: how much of it, and of all files, is
    /// done.
    pub fn progressed(&self, copied: u64, size: u64) -> (r: Vec<ProgressMessage>)
        requires
            self.completed_bytes + copied <= u64::MAX,
        ensures
            message_views(r@) == seq![
                MessageView::FileProgress(copied, size),
                MessageView::TotalProgress(
                    self.completed_files,
                    self.total_files,
                    (self.completed_bytes + copied) as u64,
                    self.total_bytes,
                ),
            ],
    {
        let mut messages: Vec<ProgressMessage> = Vec::new();
        messages.push(ProgressMessage::FileProgress(copied, size));
        messages.push(
            ProgressMessage::TotalProgress(
                self.completed_files,
                self.total_files,
                self.completed_bytes + copied,
                self.total_bytes,
            ),
        );
        assert(message_views(messages@) =~= seq![
            MessageView::FileProgress(copied, size),
            MessageView::TotalProgress(
                self.completed_files,
                self.total_files,
                (self.completed_bytes + copied) as u64,
                self.total_bytes,
            ),
        ]);
        messages
    }

    /// Takes what came of copying the file that was turned to.
    pub fn copied(&mut self, outcome: CopyOutcome) -> (r: Vec<ProgressMessage>)
        requires
            old(self).wf(),
            !old(self).ended,
            old(self).next < old(self).entries@.len(),
            old(self).completed_files < usize::MAX,
            outcome matches CopyOutcome::File { size, .. } ==> old(self).completed_bytes + size
                <= u64::MAX,
        ensures
            final(self).wf(),
            final(self).ended ==> closes(message_views(r@)),
            !final(self).ended ==> goes_on(message_views(r@)),
            dup_copied(*old(self), *final(self), outcome, r),
    {
        let mut messages: Vec<ProgressMessage> = Vec::new();
        proof {
            reveal_strlit("");
        }
        assert(""@ =~= Seq::<char>::empty());
        assert(message_views(messages@) =~= Seq::<MessageView>::empty());
        let at: usize = self.next;
        let _count: usize = self.entries.len();
        let name = self.entries[at].name.clone();
        match outcome {
            CopyOutcome::Link { warnings } => {
                push_warnings(&mut messages, name.as_str(), &warnings);
                self.completed_files = self.completed_files + 1;
                let ghost held = messages@;
                assert(message_views(held) =~= warned(name@, warnings@));
                messages.push(
                    ProgressMessage::TotalProgress(
                        self.completed_files,
                        self.total_files,
                        self.completed_bytes,
                        self.total_bytes,
                    ),
                );
                assert(message_views(messages@) =~= message_views(held).push(
                    messages@.last()@,
                ));
                let ghost held2 = messages@;
                messages.push(ProgressMessage::FileCompleted(name));
                assert(message_views(messages@) =~= message_views(held2).push(
                    messages@.last()@,
                ));
                self.completed = self.completed + 1;
                self.next = at + 1;
            },
            CopyOutcome::Directory { warnings, completed_bytes, completed_files } => {
                push_warnings(&mut messages, name.as_str(), &warnings);
                let ghost held = messages@;
                assert(message_views(held) =~= warned(name@, warnings@));
                self.completed_bytes = completed_bytes;
                self.completed_files = completed_files;
                messages.push(ProgressMessage::FileCompleted(name));
                assert(message_views(messages@) =~= message_views(held).push(
                    messages@.last()@,
                ));
                self.completed = self.completed + 1;
                self.next = at + 1;
            },
            CopyOutcome::File { size, warnings } => {
                push_warnings(&mut messages, name.as_str(), &warnings);
                let ghost held = messages@;
                assert(message_views(held) =~= warned(name@, warnings@));
                self.completed_bytes = self.completed_bytes + size;
                self.completed_files = self.completed_files + 1;
                messages.push(ProgressMessage::FileCompleted(name));
                assert(message_views(messages@) =~= message_views(held).push(
                    messages@.last()@,
                ));
                self.completed = self.completed + 1;
                self.next = at + 1;
            },
            CopyOutcome::Interrupted => {
                messages.push(error_note("", "Cancelled"));
                messages.push(ProgressMessage::Completed(self.completed, self.failed + 1));
                self.ended = true;
                assert(message_views(messages@) =~= seq![
                    MessageView::Error(Seq::empty(), "Cancelled"@),
                    MessageView::Completed(old(self).completed, (old(self).failed + 1) as usize),
                ]);
            },
            CopyOutcome::Failed { error, completed_bytes, completed_files } => {
                self.completed_bytes = completed_bytes;
                self.completed_files = completed_files;
                self.failed = self.failed + 1;
                self.next = at + 1;
                messages.push(error_note(name.as_str(), error.as_str()));
                assert(message_views(messages@) =~= seq![
                    MessageView::Error(old(self).name(), error@),
                ]);
            },
        }
        messages
    }
}

/// The suffix of a copy stands before the extension, and at the end of a name without one.
pub proof fn law_suffix_stands_before_the_extension(
    stem: Seq<char>,
    ext: Seq<char>,
    suffix: Seq<char>,
)
    requires
        !ext.contains('.'),
    ensures
        suffixed(stem + "."@ + ext, suffix) == stem + suffix + "."@ + ext,
        suffixed(ext, suffix) == ext + suffix,
{
    reveal_strlit(".");
    assert forall|i: int| 0 <= i < ext.len() implies ext[i] != '.' by {
        assert(ext.contains(ext[i]));
    }
    let name = stem + "."@ + ext;
    lemma_last_position(name, '.');
    lemma_last_position(ext, '.');
    let at = last_position(name, '.');
    assert(name[stem.len() as int] == '.');
    if at > stem.len() {
        assert(name[at] == ext[at - stem.len() - 1]);
    }
    assert(name.take(at) =~= stem);
    assert(name.skip(at) =~= "."@ + ext);
    assert(suffixed(name, suffix) =~= stem + suffix + "."@ + ext);
}

/// The first copy has a plain suffix, each further one its number.
pub proof fn law_copies_are_numbered(k: nat)
    ensures
        dup_suffix(1) == "_dup"@,
        k > 1 ==> dup_suffix(k) == "_dup"@ + decimal(k),
{
}

/// A copy gets the first suffix whose name is free.
pub proof fn law_first_free_name_is_taken(
    name: Seq<char>,
    taken: Set<Seq<char>>,
    millis: u64,
    r: Seq<char>,
    k: nat,
)
    requires
        is_dup_name(name, taken, millis, r),
        1 <= k <= MAX_DUP_NAMES,
        !taken.contains(suffixed(name, dup_suffix(k))),
        forall|j: nat| 1 <= j < k ==> taken.contains(#[trigger] suffixed(name, dup_suffix(j))),
    ensures
        r == suffixed(name, dup_suffix(k)),
        !taken.contains(r),
{
    let j = choose|j: nat|
        1 <= j <= MAX_DUP_NAMES && r == #[trigger] suffixed(name, dup_suffix(j)) && !taken.contains(
            r,
        ) && all_taken(name, taken, (j - 1) as nat);
    if j > k {
        assert(taken.contains(suffixed(name, dup_suffix(k))));
    }
}

/// The next file is copied exactly where the user did not give up, the directory is still
/// the one that was seen, the file was seen and its new name is free. A file that is not
/// copied counts as failed.
pub proof fn law_next_copy_is_made_when_allowed(
    before: DupRun,
    after: DupRun,
    cancelled: bool,
    directory: Result<(), String>,
    taken: bool,
    r: (Vec<ProgressMessage>, Option<usize>),
)
    requires
        before.wf(),
        !before.ended,
        dup_step(before, after, cancelled, directory, taken, r),
        before.entries@.len() < usize::MAX,
    ensures
        r.1 is Some <==> {
            &&& before.next < before.entries@.len()
            &&& !cancelled
            &&& before.bound ==> directory is Ok && before.entries@[before.next as int].authorization is Some
            &&& !taken
        },
        r.1 is Some ==> r.1 == Some(before.next) && after == before,
        after.completed == before.completed,
        r.1 is None && !after.ended ==> after.failed == before.failed + 1 && after.next
            == before.next + 1,
        after.ended ==> (before.next == before.entries@.len() || cancelled || (before.bound
            && directory is Err)),
{
    assert(before.entries.len() == before.entries@.len());
}

/// A copy that was made counts as completed with its bytes; one that failed as failed; and
/// the run goes on behind it unless the user gave up.
pub proof fn law_every_copy_counts_once(
    before: DupRun,
    after: DupRun,
    outcome: CopyOutcome,
    r: Vec<ProgressMessage>,
)
    requires
        before.wf(),
        !before.ended,
        before.next < before.entries@.len(),
        before.completed_files < usize::MAX,
        outcome matches CopyOutcome::File { size, .. } ==> before.completed_bytes + size <= u64::MAX,
        dup_copied(before, after, outcome, r),
    ensures
        after.ended <==> outcome is Interrupted,
        !(outcome is Interrupted) ==> after.next == before.next + 1,
        outcome is Failed ==> after.failed == before.failed + 1 && after.completed
            == before.completed,
        outcome is File || outcome is Link || outcome is Directory ==> after.completed
            == before.completed + 1 && after.failed == before.failed && message_views(r@).last()
            == MessageView::FileCompleted(before.entries@[before.next as int].name@),
        outcome matches CopyOutcome::File { size, .. } ==> after.completed_bytes
            == before.completed_bytes + size && after.completed_files == before.completed_files + 1,
        outcome is Link ==> after.completed_bytes == before.completed_bytes
            && after.completed_files == before.completed_files + 1,
        outcome matches CopyOutcome::Directory { completed_bytes, completed_files, .. }
            ==> after.completed_bytes == completed_bytes && after.completed_files
            == completed_files,
        after.total_bytes == before.total_bytes,
        after.total_files == before.total_files,
        after.entries == before.entries,
{
    assert(before.entries.len() == before.entries@.len());
}

} // verus!
