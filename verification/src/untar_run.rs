//! The worker that unpacks an archive, step by step.

use crate::archive::{extraction_options, tar_extraction_options};
use crate::archive_lines::LineProgress;
use crate::archive_names::{error_text, process_error_message};
use crate::archive_run::{
    cancellation, cancellation_messages, completed_message, failure, failure_messages, prepared,
    prepared_messages, preparing_message, took_line, unbuffered, unbuffered_args,
};
use crate::progress::{message_views, MessageView, ProgressMessage};
use crate::text::{concat2, spaces_trimmed_end, views};
use vstd::prelude::*;

verus! {

/// How far the unpacking of an archive is.
#[derive(Debug, Clone, Copy, PartialEq, Eq, Structural)]
pub enum UntarPhase {
    Start,
    Probing,
    Listing,
    Creating,
    Starting,
    Reading,
    Waiting,
    Sanitizing,
    Ended,
}

/// What the unpacking of an archive needs next.
#[derive(Debug)]
pub enum UntarAction {
    /// Look for an archiver.
    Probe,
    /// List the archive.
    List,
    /// Make the directory that the archive is unpacked into.
    CreateDirectory,
    Run { program: String, args: Vec<String> },
    ReadLine,
    Wait,
    /// Take away the permissions that no file may bring.
    Sanitize,
    Stop { kill: bool, clean_up: bool },
}

/// The unpacking of an archive.
#[derive(Debug)]
pub struct UntarRun {
    pub archive_path: String,
    pub archive_name: String,
    pub phase: UntarPhase,
    pub tar: String,
    pub stdbuf: bool,
    /// Its label is the name of the directory.
    pub progress: LineProgress,
}

/// What an archiver is called with to unpack an archive: neither owners nor
/// permissions are taken from it, and no directory that is there is touched.
pub open spec fn untar_arguments(name: Seq<char>, path: Seq<char>) -> Seq<Seq<char>> {
    seq![
        "--no-same-owner"@,
        "--no-same-permissions"@,
        "--no-overwrite-dir"@,
        extraction_options(name),
        path,
    ]
}

/// What an archiver is called with to unpack an archive.
pub fn build_untar_args(name: &str, path: &str) -> (r: Vec<String>)
    ensures
        views(r@) == untar_arguments(name@, path@),
{
    let mut r: Vec<String> = Vec::new();
    r.push("--no-same-owner".to_owned());
    r.push("--no-same-permissions".to_owned());
    r.push("--no-overwrite-dir".to_owned());
    r.push(tar_extraction_options(name).to_owned());
    r.push(path.to_owned());
    assert(views(r@) =~= untar_arguments(name@, path@));
    r
}

/// What looking for an archiver comes to.
pub open spec fn untar_probed(
    before: UntarRun,
    after: UntarRun,
    tar: Option<String>,
    safe: bool,
    stdbuf: bool,
    cancelled: bool,
    r: (Vec<ProgressMessage>, UntarAction),
) -> bool {
    match tar {
        None => UntarRun::ends(
            before,
            after,
            r,
            failure(before.name(), "tar command not found"@),
            false,
            false,
        ),
        Some(command) => if !safe {
            UntarRun::ends(
                before,
                after,
                r,
                failure(
                    before.name(),
                    "tar command does not support safe extraction options"@,
                ),
                false,
                false,
            )
        } else if cancelled {
            UntarRun::ends(
                before,
                after,
                r,
                cancellation(before.name(), 0),
                false,
                false,
            )
        } else {
            &&& after == (UntarRun {
                phase: UntarPhase::Listing,
                tar: command,
                stdbuf,
                ..before
            })
            &&& message_views(r.0@) == seq![
                MessageView::Preparing("Reading archive contents..."@),
            ]
            &&& r.1 is List
        },
    }
}

/// What the listing of the archive comes to.
pub open spec fn untar_listed(
    before: UntarRun,
    after: UntarRun,
    contents: Result<usize, String>,
    cancelled: bool,
    r: (Vec<ProgressMessage>, UntarAction),
) -> bool {
    match contents {
        Err(error) => UntarRun::ends(
            before,
            after,
            r,
            failure(before.name(), error@),
            false,
            false,
        ),
        Ok(count) => if cancelled {
            UntarRun::ends(
                before,
                after,
                r,
                cancellation(before.name(), 0),
                false,
                false,
            )
        } else if count == 0 {
            UntarRun::ends(
                before,
                after,
                r,
                failure(
                    before.name(),
                    "Archive appears to be empty or corrupted"@,
                ),
                false,
                false,
            )
        } else {
            &&& after == (UntarRun {
                phase: UntarPhase::Creating,
                progress: LineProgress { total_files: count, ..before.progress },
                ..before
            })
            &&& r.0@.len() == 0
            &&& r.1 is CreateDirectory
        },
    }
}

/// What the archiver is called with once the directory is there.
pub open spec fn untar_created(
    before: UntarRun,
    after: UntarRun,
    directory: Result<(), String>,
    r: (Vec<ProgressMessage>, UntarAction),
) -> bool {
    match directory {
        Err(error) => UntarRun::ends(
            before,
            after,
            r,
            failure(before.name(), "Failed to create directory: "@ + error@),
            false,
            false,
        ),
        Ok(_) => {
            let args = untar_arguments(before.archive_name@, before.archive_path@);
            &&& after == (UntarRun { phase: UntarPhase::Starting, ..before })
            &&& message_views(r.0@) == prepared(
                before.progress.total_files,
                before.progress.total_bytes,
            )
            &&& r.1 matches UntarAction::Run { program, args: called }
            &&& program@ == if before.stdbuf { "stdbuf"@ } else { before.tar@ }
            &&& views(called@) == if before.stdbuf {
                unbuffered(before.tar@, args, "-oL"@, "-eL"@)
            } else {
                args
            }
        },
    }
}

/// What starting the archiver comes to.
pub open spec fn untar_started(
    before: UntarRun,
    after: UntarRun,
    child: Result<(), String>,
    r: (Vec<ProgressMessage>, UntarAction),
) -> bool {
    match child {
        Err(error) => UntarRun::ends(
            before,
            after,
            r,
            failure(before.name(), "Failed to run tar: "@ + error@),
            false,
            true,
        ),
        Ok(_) => {
            &&& after == (UntarRun { phase: UntarPhase::Reading, ..before })
            &&& r.0@.len() == 0
            &&& r.1 is ReadLine
        },
    }
}

/// What a line of the archiver comes to.
pub open spec fn untar_line(
    before: UntarRun,
    after: UntarRun,
    text: Option<&str>,
    cancelled: bool,
    r: (Vec<ProgressMessage>, UntarAction),
) -> bool {
    if cancelled {
        UntarRun::ends(
            before,
            after,
            r,
            cancellation(before.name(), before.progress.completed_files),
            true,
            true,
        )
    } else {
        match text {
            None => {
                &&& after == (UntarRun { phase: UntarPhase::Waiting, ..before })
                &&& r.0@.len() == 0
                &&& r.1 is Wait
            },
            Some(line) => {
                &&& after == (UntarRun {
                    progress: after.progress,
                    ..before
                })
                &&& took_line(
                    before.progress,
                    after.progress,
                    line@,
                    message_views(r.0@),
                )
                &&& r.1 is ReadLine
            },
        }
    }
}

/// What the end of the archiver comes to.
pub open spec fn untar_waited(
    before: UntarRun,
    after: UntarRun,
    status: Result<bool, String>,
    stderr: Option<&str>,
    cancelled: bool,
    r: (Vec<ProgressMessage>, UntarAction),
) -> bool {
    match status {
        Err(error) => UntarRun::ends(
            before,
            after,
            r,
            failure(before.name(), error@),
            false,
            true,
        ),
        Ok(success) => if cancelled {
            UntarRun::ends(
                before,
                after,
                r,
                cancellation(before.name(), before.progress.completed_files),
                false,
                true,
            )
        } else if success {
            &&& after == (UntarRun { phase: UntarPhase::Sanitizing, ..before })
            &&& r.0@.len() == 0
            &&& r.1 is Sanitize
        } else {
            UntarRun::ends(
                before,
                after,
                r,
                failure(
                    before.name(),
                    error_text(
                        match stderr {
                            Some(text) => Some(text@),
                            None => None,
                        },
                        views(before.progress.error_lines@),
                        "tar extraction failed"@,
                    ),
                ),
                false,
                true,
            )
        },
    }
}

/// What taking away permissions comes to.
pub open spec fn untar_sanitized(
    before: UntarRun,
    after: UntarRun,
    result: Result<(), String>,
    r: (Vec<ProgressMessage>, UntarAction),
) -> bool {
    match result {
        Ok(_) => UntarRun::ends(
            before,
            after,
            r,
            seq![MessageView::Completed(before.progress.completed_files, 0)],
            false,
            false,
        ),
        Err(error) => UntarRun::ends(
            before,
            after,
            r,
            failure(
                before.name(),
                "Failed to sanitize extracted permissions: "@ + error@,
            ),
            false,
            true,
        ),
    }
}

impl UntarRun {
    /// Whether nothing was done yet.
    pub open spec fn is_fresh(self) -> bool {
        &&& self.phase == UntarPhase::Start
        &&& self.tar@.len() == 0
        &&& !self.stdbuf
        &&& self.progress.total_files == 0
        &&& self.progress.total_bytes == 0
        &&& self.progress.completed_files == 0
        &&& self.progress.completed_bytes == 0
        &&& self.progress.error_lines@.len() == 0
        &&& self.progress.sizes.entries@.len() == 0
        &&& self.progress.sizes.wf()
    }

    /// The name of the directory.
    pub open spec fn name(self) -> Seq<char> {
        self.progress.label@
    }

    /// Whether a step ended the work as told, with the archiver stopped and the
    /// directory taken away as asked.
    pub open spec fn ends(
        before: UntarRun,
        after: UntarRun,
        r: (Vec<ProgressMessage>, UntarAction),
        wanted: Seq<MessageView>,
        kill: bool,
        clean_up: bool,
    ) -> bool {
        &&& after == UntarRun { phase: UntarPhase::Ended, ..before }
        &&& message_views(r.0@) == wanted
        &&& r.1 == UntarAction::Stop { kill, clean_up }
    }

    /// The unpacking of an archive, with nothing done yet.
    pub fn start(archive_path: String, archive_name: String, extract_dir: String) -> (r: UntarRun)
        ensures
            r.archive_path == archive_path,
            r.archive_name == archive_name,
            r.name() == extract_dir@,
            r.is_fresh(),
    {
        UntarRun {
            archive_path,
            archive_name,
            phase: UntarPhase::Start,
            tar: String::new(),
            stdbuf: false,
            progress: LineProgress::new(extract_dir),
        }
    }

    fn fail(&mut self, text: &str, clean_up: bool) -> (r: (Vec<ProgressMessage>, UntarAction))
        ensures
            UntarRun::ends(
                *old(self),
                *final(self),
                r,
                failure(old(self).name(), text@),
                false,
                clean_up,
            ),
    {
        self.phase = UntarPhase::Ended;
        (
            failure_messages(self.progress.label.as_str(), text),
            UntarAction::Stop { kill: false, clean_up },
        )
    }

    fn cancel(&mut self, done: usize, kill: bool, clean_up: bool) -> (r: (
        Vec<ProgressMessage>,
        UntarAction,
    ))
        ensures
            UntarRun::ends(
                *old(self),
                *final(self),
                r,
                cancellation(old(self).name(), done),
                kill,
                clean_up,
            ),
    {
        self.phase = UntarPhase::Ended;
        (
            cancellation_messages(self.progress.label.as_str(), done),
            UntarAction::Stop { kill, clean_up },
        )
    }

    /// Begins.
    pub fn begin(&mut self, cancelled: bool) -> (r: (Vec<ProgressMessage>, UntarAction))
        requires
            old(self).phase == UntarPhase::Start,
        ensures
            if cancelled {
                UntarRun::ends(
                    *old(self),
                    *final(self),
                    r,
                    cancellation(old(self).name(), 0),
                    false,
                    false,
                )
            } else {
                &&& *final(self) == (UntarRun { phase: UntarPhase::Probing, ..*old(self) })
                &&& message_views(r.0@) == seq![MessageView::Preparing("Checking tar command..."@)]
                &&& r.1 is Probe
            },
    {
        if cancelled {
            return self.cancel(0, false, false);
        }
        self.phase = UntarPhase::Probing;
        (preparing_message("Checking tar command..."), UntarAction::Probe)
    }

    /// Takes the archiver that was found, whether it knows the safe options, and
    /// whether its output can be kept from being held back. One that does not know
    /// the safe options is not used.
    pub fn probed(&mut self, tar: Option<String>, safe: bool, stdbuf: bool, cancelled: bool) -> (r: (
        Vec<ProgressMessage>,
        UntarAction,
    ))
        requires
            old(self).phase == UntarPhase::Probing,
        ensures
            untar_probed(*old(self), *final(self), tar, safe, stdbuf, cancelled, r),
    {
        match tar {
            None => self.fail("tar command not found", false),
            Some(command) => {
                if !safe {
                    return self.fail(
                        "tar command does not support safe extraction options",
                        false,
                    );
                }
                if cancelled {
                    return self.cancel(0, false, false);
                }
                self.phase = UntarPhase::Listing;
                self.tar = command;
                self.stdbuf = stdbuf;
                (preparing_message("Reading archive contents..."), UntarAction::List)
            },
        }
    }

    /// Takes how many entries the archive has. An archive that has none, or whose
    /// listing was refused, is not unpacked.
    pub fn listed(&mut self, contents: Result<usize, String>, cancelled: bool) -> (r: (
        Vec<ProgressMessage>,
        UntarAction,
    ))
        requires
            old(self).phase == UntarPhase::Listing,
        ensures
            untar_listed(*old(self), *final(self), contents, cancelled, r),
    {
        match contents {
            Err(error) => self.fail(error.as_str(), false),
            Ok(count) => {
                if cancelled {
                    return self.cancel(0, false, false);
                }
                if count == 0 {
                    return self.fail("Archive appears to be empty or corrupted", false);
                }
                self.phase = UntarPhase::Creating;
                self.progress.total_files = count;
                (Vec::new(), UntarAction::CreateDirectory)
            },
        }
    }

    /// Takes whether the directory was made, and calls the archiver.
    pub fn created(&mut self, directory: Result<(), String>) -> (r: (
        Vec<ProgressMessage>,
        UntarAction,
    ))
        requires
            old(self).phase == UntarPhase::Creating,
        ensures
            untar_created(*old(self), *final(self), directory, r),
    {
        match directory {
            Err(error) => {
                let text = concat2("Failed to create directory: ", error.as_str());
                self.fail(text.as_str(), false)
            },
            Ok(_) => {
                self.phase = UntarPhase::Starting;
                let args = build_untar_args(
                    self.archive_name.as_str(),
                    self.archive_path.as_str(),
                );
                let action = if self.stdbuf {
                    UntarAction::Run {
                        program: "stdbuf".to_owned(),
                        args: unbuffered_args(self.tar.as_str(), &args, "-oL", "-eL"),
                    }
                } else {
                    UntarAction::Run { program: self.tar.clone(), args }
                };
                (
                    prepared_messages(self.progress.total_files, self.progress.total_bytes),
                    action,
                )
            },
        }
    }

    /// Takes whether the archiver runs.
    pub fn started(&mut self, child: Result<(), String>) -> (r: (Vec<ProgressMessage>, UntarAction))
        requires
            old(self).phase == UntarPhase::Starting,
        ensures
            untar_started(*old(self), *final(self), child, r),
    {
        match child {
            Err(error) => {
                let text = concat2("Failed to run tar: ", error.as_str());
                self.fail(text.as_str(), true)
            },
            Ok(_) => {
                self.phase = UntarPhase::Reading;
                (Vec::new(), UntarAction::ReadLine)
            },
        }
    }

    /// Takes a line that the archiver printed; None stands for the end of its
    /// output. A cancelled work does not look at the line.
    pub fn line(&mut self, text: Option<&str>, cancelled: bool) -> (r: (
        Vec<ProgressMessage>,
        UntarAction,
    ))
        requires
            old(self).phase == UntarPhase::Reading,
            old(self).progress.completed_files < usize::MAX,
            text matches Some(line) ==> old(self).progress.bytes_with(spaces_trimmed_end(line@))
                <= u64::MAX,
        ensures
            untar_line(*old(self), *final(self), text, cancelled, r),
    {
        if cancelled {
            return self.cancel(self.progress.completed_files, true, true);
        }
        match text {
            None => {
                self.phase = UntarPhase::Waiting;
                (Vec::new(), UntarAction::Wait)
            },
            Some(line) => {
                let messages = self.progress.line(line);
                assert(messages@.len() == 0 ==> message_views(messages@) =~= Seq::<
                    MessageView,
                >::empty());
                (messages, UntarAction::ReadLine)
            },
        }
    }

    /// Takes how the archiver ended, and what it printed on errors. Whatever goes
    /// wrong, the directory is taken away.
    pub fn waited(&mut self, status: Result<bool, String>, stderr: Option<&str>, cancelled: bool) -> (r: (
        Vec<ProgressMessage>,
        UntarAction,
    ))
        requires
            old(self).phase == UntarPhase::Waiting,
        ensures
            untar_waited(*old(self), *final(self), status, stderr, cancelled, r),
    {
        match status {
            Err(error) => self.fail(error.as_str(), true),
            Ok(success) => {
                if cancelled {
                    return self.cancel(self.progress.completed_files, false, true);
                }
                if success {
                    self.phase = UntarPhase::Sanitizing;
                    return (Vec::new(), UntarAction::Sanitize);
                }
                let text = process_error_message(
                    stderr,
                    &self.progress.error_lines,
                    "tar extraction failed",
                );
                self.fail(text.as_str(), true)
            },
        }
    }

    /// Takes whether the permissions were cleaned. Where they were not, the
    /// directory is taken away.
    pub fn sanitized(&mut self, result: Result<(), String>) -> (r: (
        Vec<ProgressMessage>,
        UntarAction,
    ))
        requires
            old(self).phase == UntarPhase::Sanitizing,
        ensures
            untar_sanitized(*old(self), *final(self), result, r),
    {
        match result {
            Ok(_) => {
                self.phase = UntarPhase::Ended;
                (
                    completed_message(self.progress.completed_files),
                    UntarAction::Stop { kill: false, clean_up: false },
                )
            },
            Err(error) => {
                let text = concat2("Failed to sanitize extracted permissions: ", error.as_str());
                self.fail(text.as_str(), true)
            },
        }
    }
}

/// The archiver is always told not to take owners or permissions from the archive
/// and to leave directories that are there alone.
pub proof fn law_unpacking_is_always_asked_safely(name: Seq<char>, path: Seq<char>)
    ensures
        untar_arguments(name, path).contains("--no-same-owner"@),
        untar_arguments(name, path).contains("--no-same-permissions"@),
        untar_arguments(name, path).contains("--no-overwrite-dir"@),
        untar_arguments(name, path).len() == 5,
        untar_arguments(name, path)[4] == path,
{
    let args = untar_arguments(name, path);
    assert(args[0] == "--no-same-owner"@);
    assert(args[1] == "--no-same-permissions"@);
    assert(args[2] == "--no-overwrite-dir"@);
}

/// Nothing is unpacked with an archiver that cannot do it safely, nor from an archive whose
/// listing was refused or is empty, nor when the user gave up.
pub proof fn law_unpacking_begins_only_safely(
    before: UntarRun,
    probed: UntarRun,
    after: UntarRun,
    tar: Option<String>,
    safe: bool,
    stdbuf: bool,
    contents: Result<usize, String>,
    first_cancelled: bool,
    cancelled: bool,
    first: (Vec<ProgressMessage>, UntarAction),
    r: (Vec<ProgressMessage>, UntarAction),
)
    requires
        untar_probed(before, probed, tar, safe, stdbuf, first_cancelled, first),
        untar_listed(probed, after, contents, cancelled, r),
    ensures
        first.1 is List <==> tar is Some && safe && !first_cancelled,
        first.1 is List ==> Some(probed.tar) == tar && probed.stdbuf == stdbuf,
        !(first.1 is List) ==> first.1 == (UntarAction::Stop { kill: false, clean_up: false }),
        r.1 is CreateDirectory <==> contents is Ok && contents->Ok_0 > 0 && !cancelled,
        r.1 is CreateDirectory ==> after.progress.total_files == contents->Ok_0,
        !(r.1 is CreateDirectory) ==> r.1 == (UntarAction::Stop { kill: false, clean_up: false }),
{
}

/// The archive is unpacked by its own path, with the options that its name asks for.
pub proof fn law_archiver_is_called_to_unpack(
    before: UntarRun,
    after: UntarRun,
    directory: Result<(), String>,
    r: (Vec<ProgressMessage>, UntarAction),
)
    requires
        untar_created(before, after, directory, r),
    ensures
        r.1 is Run <==> directory is Ok,
        r.1 matches UntarAction::Run { program, args } ==> {
            &&& !before.stdbuf ==> program@ == before.tar@ && args@.len() == 5
            &&& before.stdbuf ==> program@ == "stdbuf"@ && args@.len() == 8 && views(args@)[2]
                == before.tar@
            &&& views(args@).last() == before.archive_path@
            &&& views(args@)[args@.len() - 2] == extraction_options(before.archive_name@)
            &&& views(args@).contains("--no-same-owner"@)
            &&& views(args@).contains("--no-same-permissions"@)
            &&& views(args@).contains("--no-overwrite-dir"@)
        },
        directory is Err ==> r.1 == (UntarAction::Stop { kill: false, clean_up: false }),
{
    if directory is Ok {
        let args = r.1->args;
        let list = views(args@);
        let wanted = untar_arguments(before.archive_name@, before.archive_path@);
        assert(list.len() == args@.len());
        let shift: int = if before.stdbuf {
            3
        } else {
            0
        };
        assert(list[shift] == wanted[0]);
        assert(list[shift + 1] == wanted[1]);
        assert(list[shift + 2] == wanted[2]);
        assert(list[shift + 3] == wanted[3]);
        assert(list[shift + 4] == wanted[4]);
    }
}

/// Once the archiver was called, whatever does not go through to the end is cleaned up; what
/// went through is kept only when no permission is left that should not be.
pub proof fn law_half_unpacked_archive_is_cleaned_up(
    before: UntarRun,
    after: UntarRun,
    r: (Vec<ProgressMessage>, UntarAction),
    child: Result<(), String>,
    text: Option<&str>,
    status: Result<bool, String>,
    stderr: Option<&str>,
    result: Result<(), String>,
    cancelled: bool,
)
    ensures
        untar_started(before, after, child, r) ==> if child is Ok {
            r.1 is ReadLine
        } else {
            r.1 == (UntarAction::Stop { kill: false, clean_up: true })
        },
        untar_line(before, after, text, cancelled, r) ==> if cancelled {
            r.1 == (UntarAction::Stop { kill: true, clean_up: true })
        } else if text is None {
            r.1 is Wait
        } else {
            r.1 is ReadLine
        },
        untar_waited(before, after, status, stderr, cancelled, r) ==> if status == Ok::<
            bool,
            String,
        >(true) && !cancelled {
            r.1 is Sanitize
        } else {
            r.1 == (UntarAction::Stop { kill: false, clean_up: true })
        },
        untar_sanitized(before, after, result, r) ==> {
            &&& r.1 == (UntarAction::Stop { kill: false, clean_up: result is Err })
            &&& result is Ok ==> message_views(r.0@).last() == MessageView::Completed(
                before.progress.completed_files,
                0,
            )
            &&& result is Err ==> message_views(r.0@).last() == MessageView::Completed(0, 1)
        },
{
}

} // verus!
