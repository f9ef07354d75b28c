//! The worker that makes an archive, step by step.

use crate::archive::{creation_options, tar_creation_options};
use crate::archive_lines::{is_error_line, with_error_line, LineProgress, TarSizes};
use crate::archive_names::{error_text, process_error_message};
use crate::dup_run::{closes, goes_on};
use crate::progress::{message_views, MessageView, ProgressMessage};
use crate::text::{concat2, spaces_trimmed_end, views};
use vstd::prelude::*;

verus! {

/// What a failed step is told as: the whole work counts as one failure.
pub open spec fn failure(label: Seq<char>, text: Seq<char>) -> Seq<MessageView> {
    seq![MessageView::Error(label, text), MessageView::Completed(0, 1)]
}

/// What a cancelled work is told as, with what was done before.
pub open spec fn cancellation(label: Seq<char>, done: usize) -> Seq<MessageView> {
    seq![MessageView::Error(label, "Cancelled"@), MessageView::Completed(done, 1)]
}

/// The messages of a failed step.
pub fn failure_messages(label: &str, text: &str) -> (r: Vec<ProgressMessage>)
    ensures
        message_views(r@) == failure(label@, text@),
        closes(message_views(r@)),
{
    let mut r: Vec<ProgressMessage> = Vec::new();
    r.push(ProgressMessage::Error(label.to_owned(), text.to_owned()));
    r.push(ProgressMessage::Completed(0, 1));
    assert(message_views(r@) =~= failure(label@, text@));
    r
}

/// The messages of a cancelled work.
pub fn cancellation_messages(label: &str, done: usize) -> (r: Vec<ProgressMessage>)
    ensures
        message_views(r@) == cancellation(label@, done),
        closes(message_views(r@)),
{
    let mut r: Vec<ProgressMessage> = Vec::new();
    r.push(ProgressMessage::Error(label.to_owned(), "Cancelled".to_owned()));
    r.push(ProgressMessage::Completed(done, 1));
    assert(message_views(r@) =~= cancellation(label@, done));
    r
}

/// The message that a preparation is under way.
pub fn preparing_message(text: &str) -> (r: Vec<ProgressMessage>)
    ensures
        message_views(r@) == seq![MessageView::Preparing(text@)],
        goes_on(message_views(r@)),
{
    let mut r: Vec<ProgressMessage> = Vec::new();
    r.push(ProgressMessage::Preparing(text.to_owned()));
    assert(message_views(r@) =~= seq![MessageView::Preparing(text@)]);
    r
}

/// The messages that the preparation is done.
pub open spec fn prepared(files: usize, bytes: u64) -> Seq<MessageView> {
    seq![MessageView::PrepareComplete, MessageView::TotalProgress(0, files, 0, bytes)]
}

/// The messages that the preparation is done.
pub fn prepared_messages(files: usize, bytes: u64) -> (r: Vec<ProgressMessage>)
    ensures
        message_views(r@) == prepared(files, bytes),
        goes_on(message_views(r@)),
{
    let mut r: Vec<ProgressMessage> = Vec::new();
    r.push(ProgressMessage::PrepareComplete);
    r.push(ProgressMessage::TotalProgress(0, files, 0, bytes));
    assert(message_views(r@) =~= prepared(files, bytes));
    r
}

/// The message that all is done.
pub fn completed_message(done: usize) -> (r: Vec<ProgressMessage>)
    ensures
        message_views(r@) == seq![MessageView::Completed(done, 0)],
        closes(message_views(r@)),
{
    let mut r: Vec<ProgressMessage> = Vec::new();
    r.push(ProgressMessage::Completed(done, 0));
    assert(message_views(r@) =~= seq![MessageView::Completed(done, 0)]);
    r
}

/// The archiver to use: the one of the settings where it works, or else the first
/// of two that does.
pub open spec fn archiver(custom: Option<Seq<char>>, custom_works: bool, gtar: bool, tar: bool) -> Option<
    Seq<char>,
> {
    match custom {
        Some(path) => if custom_works {
            Some(path)
        } else {
            None
        },
        None => if gtar {
            Some("gtar"@)
        } else if tar {
            Some("tar"@)
        } else {
            None
        },
    }
}

/// The archiver to use.
pub fn choose_archiver(custom: Option<&str>, custom_works: bool, gtar: bool, tar: bool) -> (r: Option<
    String,
>)
    ensures
        match archiver(
            match custom {
                Some(path) => Some(path@),
                None => None,
            },
            custom_works,
            gtar,
            tar,
        ) {
            Some(name) => r matches Some(s) && s@ == name,
            None => r is None,
        },
{
    match custom {
        Some(path) => if custom_works {
            Some(path.to_owned())
        } else {
            None
        },
        None => if gtar {
            Some("gtar".to_owned())
        } else if tar {
            Some("tar".to_owned())
        } else {
            None
        },
    }
}

/// How far the making of an archive is.
#[derive(Debug, Clone, Copy, PartialEq, Eq, Structural)]
pub enum TarPhase {
    Start,
    Probing,
    Opening,
    Measuring,
    Starting,
    Reading,
    Waiting,
    Publishing,
    Ended,
}

/// What the making of an archive needs next.
#[derive(Debug)]
pub enum TarAction {
    /// Look for an archiver.
    Probe,
    /// Open the file that the archive is written to.
    OpenOutput,
    /// Take the sizes of the files.
    Measure,
    Run { program: String, args: Vec<String> },
    ReadLine,
    Wait,
    /// Give the archive its name.
    Publish,
    /// Stop the archiver.
    Kill,
    Stop,
}

/// Why an archive could not be given its name.
#[derive(Debug)]
pub enum PublishError {
    AlreadyExists,
    Other(String),
}

/// The making of an archive.
#[derive(Debug)]
pub struct TarRun {
    pub files: Vec<String>,
    pub excluded: Vec<String>,
    pub phase: TarPhase,
    pub tar: String,
    pub stdbuf: bool,
    /// Its label is the name of the archive.
    pub progress: LineProgress,
}

/// Texts with another text before each.
pub open spec fn prefixed(prefix: Seq<char>, list: Seq<String>) -> Seq<Seq<char>> {
    Seq::new(list.len(), |i: int| prefix + list[i]@)
}

/// What an archiver is called with to make an archive on its output.
pub open spec fn tar_arguments(name: Seq<char>, files: Seq<String>, excluded: Seq<String>) -> Seq<
    Seq<char>,
> {
    seq![creation_options(name), "-"@] + prefixed("--exclude=./"@, excluded) + prefixed(
        "./"@,
        files,
    )
}

/// What is called in place of an archiver whose output is not to be held back.
pub open spec fn unbuffered(tar: Seq<char>, args: Seq<Seq<char>>, out: Seq<char>, err: Seq<char>) -> Seq<
    Seq<char>,
> {
    seq![out, err, tar] + args
}

fn push_prefixed(args: &mut Vec<String>, prefix: &str, list: &Vec<String>)
    ensures
        views(final(args)@) == views(old(args)@) + prefixed(prefix@, list@),
{
    let ghost before = views(args@);
    let ghost all = prefixed(prefix@, list@);
    let mut i: usize = 0;
    assert(before + all.take(0) =~= before);
    while i < list.len()
        invariant
            i <= list@.len(),
            all == prefixed(prefix@, list@),
            views(args@) == before + all.take(i as int),
        decreases list@.len() - i,
    {
        let ghost held = args@;
        args.push(concat2(prefix, list[i].as_str()));
        assert(views(args@) =~= views(held).push(all[i as int]));
        assert(all.take(i + 1) =~= all.take(i as int).push(all[i as int]));
        assert(before + all.take(i + 1) =~= (before + all.take(i as int)).push(all[i as int]));
        i += 1;
    }
    assert(all.take(i as int) =~= all);
}

/// What an archiver is called with to make an archive.
pub fn build_tar_args(name: &str, files: &Vec<String>, excluded: &Vec<String>) -> (r: Vec<String>)
    ensures
        views(r@) == tar_arguments(name@, files@, excluded@),
{
    let mut args: Vec<String> = Vec::new();
    args.push(tar_creation_options(name).to_owned());
    args.push("-".to_owned());
    assert(views(args@) =~= seq![creation_options(name@), "-"@]);
    push_prefixed(&mut args, "--exclude=./", excluded);
    push_prefixed(&mut args, "./", files);
    args
}

/// The arguments that call an archiver through another program that keeps its
/// output from being held back.
pub fn unbuffered_args(tar: &str, args: &Vec<String>, out: &str, err: &str) -> (r: Vec<String>)
    ensures
        views(r@) == unbuffered(tar@, views(args@), out@, err@),
{
    let mut r: Vec<String> = Vec::new();
    r.push(out.to_owned());
    r.push(err.to_owned());
    r.push(tar.to_owned());
    let ghost head = seq![out@, err@, tar@];
    assert(views(r@) =~= head);
    assert(head + views(args@).take(0) =~= head);
    let mut i: usize = 0;
    while i < args.len()
        invariant
            i <= args@.len(),
            views(r@) == head + views(args@).take(i as int),
        decreases args@.len() - i,
    {
        let ghost held = r@;
        r.push(args[i].clone());
        assert(views(r@) =~= views(held).push(args@[i as int]@));
        assert(views(args@).take(i + 1) =~= views(args@).take(i as int).push(args@[i as int]@));
        assert(head + views(args@).take(i + 1) =~= (head + views(args@).take(i as int)).push(
            args@[i as int]@,
        ));
        i += 1;
    }
    assert(views(args@).take(i as int) =~= views(args@));
    r
}

/// What the end of the archiver comes to.
pub open spec fn tar_waited(
    before: TarRun,
    after: TarRun,
    status: Result<bool, String>,
    cancelled: bool,
    r: (Vec<ProgressMessage>, TarAction),
) -> bool {
    match status {
        Err(error) => {
            &&& TarRun::ends(
                before,
                after,
                message_views(r.0@),
                failure(before.name(), error@),
            )
            &&& r.1 is Stop
        },
        Ok(success) => if cancelled {
            &&& TarRun::ends(
                before,
                after,
                message_views(r.0@),
                cancellation(before.name(), before.progress.completed_files),
            )
            &&& r.1 is Stop
        } else if success {
            &&& after == (TarRun { phase: TarPhase::Publishing, ..before })
            &&& r.0@.len() == 0
            &&& r.1 is Publish
        } else {
            &&& TarRun::ends(
                before,
                after,
                message_views(r.0@),
                failure(
                    before.name(),
                    error_text(
                        None,
                        views(before.progress.error_lines@),
                        "tar command failed"@,
                    ),
                ),
            )
            &&& r.1 is Stop
        },
    }
}

/// What the archiver is called with once the sizes are known.
pub open spec fn tar_measured(
    before: TarRun,
    after: TarRun,
    sizes: TarSizes,
    cancelled: bool,
    r: (Vec<ProgressMessage>, TarAction),
) -> bool {
    if cancelled {
        &&& TarRun::ends(
            before,
            after,
            message_views(r.0@),
            cancellation(before.name(), 0),
        )
        &&& r.1 is Stop
    } else {
        let count = sizes.entries@.len() as usize;
        let args = tar_arguments(before.name(), before.files@, before.excluded@);
        &&& after == (TarRun {
            phase: TarPhase::Starting,
            progress: LineProgress {
                total_files: count,
                total_bytes: sizes.total,
                sizes,
                ..before.progress
            },
            ..before
        })
        &&& message_views(r.0@) == prepared(count, sizes.total)
        &&& r.1 matches TarAction::Run { program, args: called }
        &&& program@ == if before.stdbuf { "stdbuf"@ } else { before.tar@ }
        &&& views(called@) == if before.stdbuf {
            unbuffered(before.tar@, args, "-o0"@, "-e0"@)
        } else {
            args
        }
    }
}

/// What putting the archive in its place comes to.
pub open spec fn tar_published(
    before: TarRun,
    after: TarRun,
    result: Result<(), PublishError>,
    r: Vec<ProgressMessage>,
) -> bool {
    TarRun::ends(
        before,
        after,
        message_views(r@),
        match result {
            Ok(_) => seq![
                MessageView::Completed(before.progress.completed_files, 0),
            ],
            Err(PublishError::AlreadyExists) => failure(
                before.name(),
                before.name() + " already exists"@,
            ),
            Err(PublishError::Other(error)) => failure(
                before.name(),
                "Cannot publish archive: "@ + error@,
            ),
        },
    )
}

/// What looking for an archiver comes to.
pub open spec fn tar_probed(
    before: TarRun,
    after: TarRun,
    tar: Option<String>,
    stdbuf: bool,
    r: (Vec<ProgressMessage>, TarAction),
) -> bool {
    match tar {
        None => {
            &&& TarRun::ends(
                before,
                after,
                message_views(r.0@),
                failure(before.name(), "tar command not found"@),
            )
            &&& r.1 is Stop
        },
        Some(command) => {
            &&& after == (TarRun {
                phase: TarPhase::Opening,
                tar: command,
                stdbuf,
                ..before
            })
            &&& r.0@.len() == 0
            &&& r.1 is OpenOutput
        },
    }
}

/// What a line of the archiver comes to.
pub open spec fn tar_line(
    before: TarRun,
    after: TarRun,
    text: Option<&str>,
    cancelled: bool,
    r: (Vec<ProgressMessage>, TarAction),
) -> bool {
    if cancelled {
        &&& TarRun::ends(
            before,
            after,
            message_views(r.0@),
            cancellation(before.name(), before.progress.completed_files),
        )
        &&& r.1 is Kill
    } else {
        match text {
            None => {
                &&& after == (TarRun { phase: TarPhase::Waiting, ..before })
                &&& r.0@.len() == 0
                &&& r.1 is Wait
            },
            Some(line) => {
                &&& after == (TarRun {
                    progress: after.progress,
                    ..before
                })
                &&& took_line(
                    before.progress,
                    after.progress,
                    line@,
                    message_views(r.0@),
                )
                &&& r.1 is ReadLine
            },
        }
    }
}

impl TarRun {
    /// Whether nothing was done yet.
    pub open spec fn is_fresh(self) -> bool {
        &&& self.phase == TarPhase::Start
        &&& self.tar@.len() == 0
        &&& !self.stdbuf
        &&& self.progress.total_files == 0
        &&& self.progress.total_bytes == 0
        &&& self.progress.completed_files == 0
        &&& self.progress.completed_bytes == 0
        &&& self.progress.error_lines@.len() == 0
        &&& self.progress.sizes.entries@.len() == 0
        &&& self.progress.sizes.wf()
    }

    /// The name of the archive.
    pub open spec fn name(self) -> Seq<char> {
        self.progress.label@
    }

    /// Whether a step ended the work as told.
    pub open spec fn ends(
        before: TarRun,
        after: TarRun,
        messages: Seq<MessageView>,
        wanted: Seq<MessageView>,
    ) -> bool {
        after == TarRun { phase: TarPhase::Ended, ..before } && messages == wanted
    }

    /// The making of an archive, with nothing done yet.
    pub fn start(archive_name: String, files: Vec<String>, excluded: Vec<String>) -> (r: TarRun)
        ensures
            r.name() == archive_name@,
            r.files == files,
            r.excluded == excluded,
            r.is_fresh(),
    {
        TarRun {
            files,
            excluded,
            phase: TarPhase::Start,
            tar: String::new(),
            stdbuf: false,
            progress: LineProgress::new(archive_name),
        }
    }

    /// Begins.
    pub fn begin(&mut self, cancelled: bool) -> (r: (Vec<ProgressMessage>, TarAction))
        requires
            old(self).phase == TarPhase::Start,
        ensures
            if cancelled {
                &&& TarRun::ends(
                    *old(self),
                    *final(self),
                    message_views(r.0@),
                    cancellation(old(self).name(), 0),
                )
                &&& r.1 is Stop
            } else {
                &&& *final(self) == (TarRun { phase: TarPhase::Probing, ..*old(self) })
                &&& message_views(r.0@) == seq![MessageView::Preparing("Checking tar command..."@)]
                &&& r.1 is Probe
            },
    {
        if cancelled {
            self.phase = TarPhase::Ended;
            return (cancellation_messages(self.progress.label.as_str(), 0), TarAction::Stop);
        }
        self.phase = TarPhase::Probing;
        (preparing_message("Checking tar command..."), TarAction::Probe)
    }

    /// Takes the archiver that was found, and whether its output can be kept from
    /// being held back.
    pub fn probed(&mut self, tar: Option<String>, stdbuf: bool) -> (r: (
        Vec<ProgressMessage>,
        TarAction,
    ))
        requires
            old(self).phase == TarPhase::Probing,
        ensures
            tar_probed(*old(self), *final(self), tar, stdbuf, r),
    {
        match tar {
            None => {
                self.phase = TarPhase::Ended;
                (
                    failure_messages(self.progress.label.as_str(), "tar command not found"),
                    TarAction::Stop,
                )
            },
            Some(command) => {
                self.phase = TarPhase::Opening;
                self.tar = command;
                self.stdbuf = stdbuf;
                (Vec::new(), TarAction::OpenOutput)
            },
        }
    }

    /// Takes what came of opening the file that the archive is written to.
    pub fn opened(&mut self, output: Result<(), String>, cancelled: bool) -> (r: (
        Vec<ProgressMessage>,
        TarAction,
    ))
        requires
            old(self).phase == TarPhase::Opening,
        ensures
            match output {
                Err(error) => {
                    &&& TarRun::ends(
                        *old(self),
                        *final(self),
                        message_views(r.0@),
                        failure(
                            old(self).name(),
                            "Cannot open the reserved archive output: "@ + error@,
                        ),
                    )
                    &&& r.1 is Stop
                },
                Ok(_) => if cancelled {
                    &&& TarRun::ends(
                        *old(self),
                        *final(self),
                        message_views(r.0@),
                        cancellation(old(self).name(), 0),
                    )
                    &&& r.1 is Stop
                } else {
                    &&& *final(self) == (TarRun { phase: TarPhase::Measuring, ..*old(self) })
                    &&& message_views(r.0@) == seq![
                        MessageView::Preparing("Calculating file sizes..."@),
                    ]
                    &&& r.1 is Measure
                },
            },
    {
        match output {
            Err(error) => {
                self.phase = TarPhase::Ended;
                let text = concat2("Cannot open the reserved archive output: ", error.as_str());
                (
                    failure_messages(self.progress.label.as_str(), text.as_str()),
                    TarAction::Stop,
                )
            },
            Ok(_) => {
                if cancelled {
                    self.phase = TarPhase::Ended;
                    return (
                        cancellation_messages(self.progress.label.as_str(), 0),
                        TarAction::Stop,
                    );
                }
                self.phase = TarPhase::Measuring;
                (preparing_message("Calculating file sizes..."), TarAction::Measure)
            },
        }
    }

    /// Takes the sizes of the files, and calls the archiver.
    pub fn measured(&mut self, sizes: TarSizes, cancelled: bool) -> (r: (
        Vec<ProgressMessage>,
        TarAction,
    ))
        requires
            old(self).phase == TarPhase::Measuring,
        ensures
            tar_measured(*old(self), *final(self), sizes, cancelled, r),
    {
        if cancelled {
            self.phase = TarPhase::Ended;
            return (cancellation_messages(self.progress.label.as_str(), 0), TarAction::Stop);
        }
        let count: usize = sizes.entries.len();
        let total: u64 = sizes.total;
        self.phase = TarPhase::Starting;
        self.progress.total_files = count;
        self.progress.total_bytes = total;
        self.progress.sizes = sizes;
        let args = build_tar_args(self.progress.label.as_str(), &self.files, &self.excluded);
        let action = if self.stdbuf {
            TarAction::Run {
                program: "stdbuf".to_owned(),
                args: unbuffered_args(self.tar.as_str(), &args, "-o0", "-e0"),
            }
        } else {
            TarAction::Run { program: self.tar.clone(), args }
        };
        (prepared_messages(count, total), action)
    }

    /// Takes whether the archiver runs.
    pub fn started(&mut self, child: Result<(), String>) -> (r: (Vec<ProgressMessage>, TarAction))
        requires
            old(self).phase == TarPhase::Starting,
        ensures
            match child {
                Err(error) => {
                    &&& TarRun::ends(
                        *old(self),
                        *final(self),
                        message_views(r.0@),
                        failure(old(self).name(), "Failed to run tar: "@ + error@),
                    )
                    &&& r.1 is Stop
                },
                Ok(_) => {
                    &&& *final(self) == (TarRun { phase: TarPhase::Reading, ..*old(self) })
                    &&& r.0@.len() == 0
                    &&& r.1 is ReadLine
                },
            },
    {
        match child {
            Err(error) => {
                self.phase = TarPhase::Ended;
                let text = concat2("Failed to run tar: ", error.as_str());
                (
                    failure_messages(self.progress.label.as_str(), text.as_str()),
                    TarAction::Stop,
                )
            },
            Ok(_) => {
                self.phase = TarPhase::Reading;
                (Vec::new(), TarAction::ReadLine)
            },
        }
    }

    /// Takes a line that the archiver printed; None stands for the end of its
    /// output. A cancelled work does not look at the line.
    pub fn line(&mut self, text: Option<&str>, cancelled: bool) -> (r: (
        Vec<ProgressMessage>,
        TarAction,
    ))
        requires
            old(self).phase == TarPhase::Reading,
            old(self).progress.completed_files < usize::MAX,
            text matches Some(line) ==> old(self).progress.bytes_with(spaces_trimmed_end(line@))
                <= u64::MAX,
        ensures
            tar_line(*old(self), *final(self), text, cancelled, r),
    {
        if cancelled {
            self.phase = TarPhase::Ended;
            return (
                cancellation_messages(
                    self.progress.label.as_str(),
                    self.progress.completed_files,
                ),
                TarAction::Kill,
            );
        }
        match text {
            None => {
                self.phase = TarPhase::Waiting;
                (Vec::new(), TarAction::Wait)
            },
            Some(line) => {
                let messages = self.progress.line(line);
                assert(messages@.len() == 0 ==> message_views(messages@) =~= Seq::<
                    MessageView,
                >::empty());
                (messages, TarAction::ReadLine)
            },
        }
    }

    /// Takes how the archiver ended.
    pub fn waited(&mut self, status: Result<bool, String>, cancelled: bool) -> (r: (
        Vec<ProgressMessage>,
        TarAction,
    ))
        requires
            old(self).phase == TarPhase::Waiting,
        ensures
            tar_waited(*old(self), *final(self), status, cancelled, r),
    {
        match status {
            Err(error) => {
                self.phase = TarPhase::Ended;
                (
                    failure_messages(self.progress.label.as_str(), error.as_str()),
                    TarAction::Stop,
                )
            },
            Ok(success) => {
                if cancelled {
                    self.phase = TarPhase::Ended;
                    return (
                        cancellation_messages(
                            self.progress.label.as_str(),
                            self.progress.completed_files,
                        ),
                        TarAction::Stop,
                    );
                }
                if success {
                    self.phase = TarPhase::Publishing;
                    return (Vec::new(), TarAction::Publish);
                }
                self.phase = TarPhase::Ended;
                let text = process_error_message(
                    None,
                    &self.progress.error_lines,
                    "tar command failed",
                );
                (
                    failure_messages(self.progress.label.as_str(), text.as_str()),
                    TarAction::Stop,
                )
            },
        }
    }

    /// Takes whether the archive was given its name.
    pub fn published(&mut self, result: Result<(), PublishError>) -> (r: Vec<ProgressMessage>)
        requires
            old(self).phase == TarPhase::Publishing,
        ensures
            tar_published(*old(self), *final(self), result, r),
    {
        self.phase = TarPhase::Ended;
        match result {
            Ok(_) => completed_message(self.progress.completed_files),
            Err(PublishError::AlreadyExists) => {
                let text = concat2(self.progress.label.as_str(), " already exists");
                failure_messages(self.progress.label.as_str(), text.as_str())
            },
            Err(PublishError::Other(error)) => {
                let text = concat2("Cannot publish archive: ", error.as_str());
                failure_messages(self.progress.label.as_str(), text.as_str())
            },
        }
    }
}

/// What a line of an archiver comes to.
pub open spec fn took_line(
    before: LineProgress,
    after: LineProgress,
    text: Seq<char>,
    messages: Seq<MessageView>,
) -> bool {
    let name = spaces_trimmed_end(text);
    if is_error_line(name) {
        &&& after == LineProgress { error_lines: after.error_lines, ..before }
        &&& views(after.error_lines@) == with_error_line(views(before.error_lines@), name)
        &&& messages.len() == 0
    } else if name.len() == 0 {
        after == before && messages.len() == 0
    } else {
        let done = (before.completed_files + 1) as usize;
        let bytes = before.bytes_with(name) as u64;
        &&& after == LineProgress { completed_files: done, completed_bytes: bytes, ..before }
        &&& messages == seq![
            MessageView::FileStarted(name),
            MessageView::FileCompleted(name),
            MessageView::TotalProgress(done, before.total_files, bytes, before.total_bytes),
        ]
    }
}

/// Whatever ends the making of an archive, its messages say so exactly once, as
/// the last of them.
pub proof fn law_every_end_is_told_once(label: Seq<char>, text: Seq<char>, done: usize)
    ensures
        closes(failure(label, text)),
        closes(cancellation(label, done)),
        closes(seq![MessageView::Completed(done, 0)]),
{
}

/// A failure is told with its text and counts once; so does a cancelled run, with what was
/// done before.
pub proof fn law_ends_are_told_with_their_text(label: Seq<char>, text: Seq<char>, done: usize)
    ensures
        failure(label, text)[0] == MessageView::Error(label, text),
        failure(label, text).last() == MessageView::Completed(0, 1),
        cancellation(label, done)[0] == MessageView::Error(label, "Cancelled"@),
        cancellation(label, done).last() == MessageView::Completed(done, 1),
{
}

/// A chosen archiver is used or none; without a choice GNU tar comes before any other.
pub proof fn law_chosen_archiver_has_no_stand_in(
    path: Seq<char>,
    works: bool,
    gtar: bool,
    tar: bool,
)
    ensures
        archiver(Some(path), works, gtar, tar) is Some <==> works,
        archiver(Some(path), true, gtar, tar) == Some(path),
        archiver(None, works, true, tar) == Some("gtar"@),
        archiver(None, works, false, true) == Some("tar"@),
        archiver(None, works, false, false) is None,
{
}

/// An archive is written to the output that was opened; what is left out is named before
/// what is taken in, and every path is one below the directory.
pub proof fn law_arguments_of_packing(
    name: Seq<char>,
    files: Seq<String>,
    excluded: Seq<String>,
    i: int,
)
    ensures
        ({
            let args = tar_arguments(name, files, excluded);
            &&& args.len() == 2 + excluded.len() + files.len()
            &&& args[0] == creation_options(name)
            &&& args[1] == "-"@
            &&& 0 <= i < excluded.len() ==> args[2 + i] == "--exclude=./"@ + excluded[i]@
            &&& 0 <= i < files.len() ==> args[2 + excluded.len() + i] == "./"@ + files[i]@
        }),
{
}

/// The archiver is called without a buffer through another program, with all its arguments
/// behind it.
pub proof fn law_arguments_without_a_buffer(
    tar: Seq<char>,
    args: Seq<Seq<char>>,
    out: Seq<char>,
    err: Seq<char>,
)
    ensures
        unbuffered(tar, args, out, err).len() == 3 + args.len(),
        unbuffered(tar, args, out, err)[0] == out,
        unbuffered(tar, args, out, err)[1] == err,
        unbuffered(tar, args, out, err)[2] == tar,
        unbuffered(tar, args, out, err).skip(3) == args,
{
    assert(unbuffered(tar, args, out, err).skip(3) =~= args);
}

/// Every line but an empty one and one of the archiver's own counts one file with its size.
pub proof fn law_lines_count_files(
    before: LineProgress,
    after: LineProgress,
    text: Seq<char>,
    messages: Seq<MessageView>,
)
    requires
        took_line(before, after, text, messages),
        before.completed_files < usize::MAX,
        before.bytes_with(spaces_trimmed_end(text)) <= u64::MAX,
    ensures
        ({
            let name = spaces_trimmed_end(text);
            let counts = name.len() > 0 && !is_error_line(name);
            &&& after.completed_files == before.completed_files + if counts {
                1int
            } else {
                0int
            }
            &&& counts ==> after.completed_bytes == before.bytes_with(name)
            &&& !counts ==> after.completed_bytes == before.completed_bytes && messages.len() == 0
            &&& counts ==> messages.contains(MessageView::FileCompleted(name))
            &&& counts ==> messages.last() == MessageView::TotalProgress(
                after.completed_files,
                before.total_files,
                after.completed_bytes,
                before.total_bytes,
            )
            &&& after.total_files == before.total_files
            &&& after.total_bytes == before.total_bytes
            &&& counts ==> after.error_lines == before.error_lines
            &&& is_error_line(name) && before.error_lines@.len() < 16 ==> after.error_lines@.len()
                == before.error_lines@.len() + 1
        }),
{
    let name = spaces_trimmed_end(text);
    if name.len() > 0 && !is_error_line(name) {
        assert(messages[1] == MessageView::FileCompleted(name));
    }
    if is_error_line(name) {
        assert(views(after.error_lines@).len() == after.error_lines@.len());
        assert(views(before.error_lines@).len() == before.error_lines@.len());
    }
}

/// An archive is put in its place only after the archiver said that all went well, and not
/// when the user gave up; every other end is told, and nothing is put anywhere.
pub proof fn law_archive_is_published_only_whole(
    before: TarRun,
    after: TarRun,
    status: Result<bool, String>,
    cancelled: bool,
    r: (Vec<ProgressMessage>, TarAction),
)
    requires
        tar_waited(before, after, status, cancelled, r),
    ensures
        r.1 is Publish <==> status == Ok::<bool, String>(true) && !cancelled,
        !(r.1 is Publish) ==> r.1 is Stop && after.phase == TarPhase::Ended && closes(
            message_views(r.0@),
        ),
        r.1 is Publish ==> after.phase == TarPhase::Publishing,
        after.progress == before.progress,
{
}

/// The archiver that was found is called with the arguments of the archive, itself or by way
/// of the program that takes its buffer away; not at all when the user gave up.
pub proof fn law_archiver_is_called_for_the_archive(
    before: TarRun,
    after: TarRun,
    sizes: TarSizes,
    cancelled: bool,
    r: (Vec<ProgressMessage>, TarAction),
)
    requires
        tar_measured(before, after, sizes, cancelled, r),
        sizes.entries@.len() <= usize::MAX,
    ensures
        r.1 is Run <==> !cancelled,
        r.1 matches TarAction::Run { program, args } ==> {
            let wanted = tar_arguments(before.name(), before.files@, before.excluded@);
            &&& !before.stdbuf ==> program@ == before.tar@ && views(args@) == wanted
            &&& before.stdbuf ==> {
                &&& program@ == "stdbuf"@
                &&& args@.len() == 3 + wanted.len()
                &&& views(args@)[2] == before.tar@
                &&& views(args@).skip(3) == wanted
            }
            &&& after.progress.total_bytes == sizes.total
            &&& after.progress.total_files == sizes.entries@.len()
        },
{
    if !cancelled {
        let wanted = tar_arguments(before.name(), before.files@, before.excluded@);
        law_arguments_without_a_buffer(before.tar@, wanted, "-o0"@, "-e0"@);
        let args = r.1->args;
        assert(views(args@).len() == args@.len());
    }
}

/// An archive that is in its place is told as done with as many files as were packed; one
/// that is not counts as a failure.
pub proof fn law_published_archive_is_done(
    before: TarRun,
    after: TarRun,
    result: Result<(), PublishError>,
    r: Vec<ProgressMessage>,
)
    requires
        tar_published(before, after, result, r),
    ensures
        after.phase == TarPhase::Ended,
        closes(message_views(r@)),
        result is Ok ==> message_views(r@).last() == MessageView::Completed(
            before.progress.completed_files,
            0,
        ),
        result is Err ==> message_views(r@).last() == MessageView::Completed(0, 1),
{
}

/// Without an archiver nothing is begun; with one, that one is used.
pub proof fn law_found_archiver_is_used(
    before: TarRun,
    after: TarRun,
    tar: Option<String>,
    stdbuf: bool,
    r: (Vec<ProgressMessage>, TarAction),
)
    requires
        tar_probed(before, after, tar, stdbuf, r),
    ensures
        tar is None ==> r.1 is Stop && after.phase == TarPhase::Ended,
        tar matches Some(command) ==> after.tar == command && after.stdbuf == stdbuf
            && r.1 is OpenOutput,
{
}

/// The lines of the archiver are read to their end, unless the user gives up: then it is
/// stopped.
pub proof fn law_archiver_is_read_to_its_end(
    before: TarRun,
    after: TarRun,
    text: Option<&str>,
    cancelled: bool,
    r: (Vec<ProgressMessage>, TarAction),
)
    requires
        tar_line(before, after, text, cancelled, r),
    ensures
        r.1 is Kill <==> cancelled,
        r.1 is Wait <==> !cancelled && text is None,
        r.1 is ReadLine <==> !cancelled && text is Some,
        cancelled ==> message_views(r.0@).last() == MessageView::Completed(
            before.progress.completed_files,
            1,
        ),
{
}

} // verus!
