//! The run of a deletion from the comparison: the sides that had nothing are
//! looked at once more, and then one item after the other is deleted.

use crate::authorization::PathAuthorization;
use crate::diff_delete::{AbsenceCheck, PreparedDiffDeleteTarget};
use crate::progress::{message_views, MessageView, ProgressMessage};
use crate::text::{concat3, concat5, decimal, join_texts, joined, number_text, views};
use vstd::prelude::*;

verus! {

/// A deletion under way.
#[derive(Debug)]
pub struct DiffDeleteRun {
    pub targets: Vec<PreparedDiffDeleteTarget>,
    pub absences: Vec<AbsenceCheck>,
    pub relative_path: String,
    pub next_absence: usize,
    pub processed: usize,
    pub success_count: usize,
    pub failure_count: usize,
    pub errors: Vec<String>,
    pub over: bool,
}

/// What has to be done next.
#[derive(Debug, Clone, Copy, PartialEq, Eq, Structural)]
pub enum DeleteStep {
    /// Look whether the side with this position still has nothing.
    CheckAbsence(usize),
    /// See the target with this position again, and delete it.
    Delete(usize),
    /// Nothing is left to be done.
    Over,
}

/// What a target is called in messages.
pub open spec fn target_name(run: DiffDeleteRun, at: int) -> Seq<char> {
    run.targets@[at].side@ + ": "@ + run.relative_path@
}

/// What is said of a deletion that was given up after some of it.
pub open spec fn cancel_text(success: nat, total: nat) -> Seq<char> {
    if success == 0 {
        "Cancelled"@
    } else {
        "Cancelled after deleting "@ + decimal(success) + "/"@ + decimal(total)
            + "; completed deletions cannot be undone"@
    }
}

/// What is reported at the end.
pub open spec fn end_messages(
    path: Seq<char>,
    errors: Seq<Seq<char>>,
    success: usize,
    failure: usize,
) -> Seq<MessageView> {
    let last = MessageView::Completed(success, failure);
    if errors.len() == 0 {
        seq![last]
    } else {
        seq![MessageView::Error(path, joined(errors, "; "@)), last]
    }
}

/// What is reported of a target that was deleted.
pub open spec fn deleted_messages(
    name: Seq<char>,
    warnings: Seq<Seq<char>>,
    done: usize,
    total: usize,
) -> Seq<MessageView> {
    Seq::new(warnings.len(), |i: int| MessageView::Warning(name, warnings[i])).push(
        MessageView::TotalProgress(done, total, 0, 0),
    )
}

/// What is reported last by a deletion that got as far as its targets.
pub open spec fn last_messages(run: DiffDeleteRun) -> Seq<MessageView> {
    end_messages(
        run.relative_path@,
        views(run.errors@),
        run.success_count,
        run.failure_count,
    )
}

/// What comes next in a deletion.
pub open spec fn delete_step(
    before: DiffDeleteRun,
    after: DiffDeleteRun,
    cancelled: bool,
    r: (DeleteStep, Vec<ProgressMessage>),
) -> bool {
    if before.over {
        after == before && r.0 == DeleteStep::Over && r.1@.len() == 0
    } else if before.next_absence < before.absences@.len() {
        after == before && r.0 == DeleteStep::CheckAbsence(
            before.next_absence,
        ) && r.1@.len() == 0
    } else if before.processed < before.targets@.len() && !cancelled {
        &&& after == before
        &&& r.0 == DeleteStep::Delete(before.processed)
        &&& message_views(r.1@) == seq![
            MessageView::FileStarted(target_name(before, before.processed as int)),
        ]
    } else {
        let total = before.targets@.len();
        let given_up = before.processed < total;
        let errors = if given_up {
            views(before.errors@).push(
                cancel_text(before.success_count as nat, total),
            )
        } else {
            views(before.errors@)
        };
        &&& r.0 == DeleteStep::Over
        &&& after == (DiffDeleteRun {
            over: true,
            failure_count: (total - before.success_count) as usize,
            errors: after.errors,
            ..before
        })
        &&& views(after.errors@) == errors
        &&& message_views(r.1@) == last_messages(after)
    }
}

/// What looking at a side that had nothing comes to.
pub open spec fn absence_seen(
    before: DiffDeleteRun,
    after: DiffDeleteRun,
    outcome: Result<(), String>,
    r: Vec<ProgressMessage>,
) -> bool {
    match outcome {
        Ok(_) => r@.len() == 0 && after == (DiffDeleteRun {
            next_absence: (before.next_absence + 1) as usize,
            ..before
        }),
        Err(error) => {
            &&& after == (DiffDeleteRun {
                over: true,
                failure_count: before.targets@.len() as usize,
                ..before
            })
            &&& message_views(r@) == seq![
                MessageView::Error(
                    before.relative_path@,
                    before.absences@[before.next_absence as int].side@ + ": "@
                        + error@,
                ),
                MessageView::Completed(0, before.targets@.len() as usize),
            ]
        },
    }
}

/// What the end of one deletion does.
pub open spec fn target_deleted(
    before: DiffDeleteRun,
    after: DiffDeleteRun,
    outcome: Result<Vec<String>, String>,
    refreshed: Seq<PathAuthorization>,
    r: Vec<ProgressMessage>,
) -> bool {
    let at = before.processed;
    let done = (at + 1) as usize;
    let total = before.targets@.len() as usize;
    match outcome {
        Ok(warnings) => {
            &&& after == (DiffDeleteRun {
                targets: after.targets,
                processed: done,
                success_count: (before.success_count + 1) as usize,
                ..before
            })
            &&& after.targets@.len() == total
            &&& forall|i: int|
                0 <= i < total ==> (#[trigger] after.targets@[i]) == if i <= at {
                    before.targets@[i]
                } else {
                    known_by(before.targets@[i], refreshed[i - at - 1])
                }
            &&& message_views(r@) == deleted_messages(
                target_name(before, at as int),
                views(warnings@),
                done,
                total,
            )
        },
        Err(error) => {
            &&& after == (DiffDeleteRun {
                processed: done,
                failure_count: (before.failure_count + 1) as usize,
                errors: after.errors,
                ..before
            })
            &&& views(after.errors@) == views(before.errors@).push(
                before.targets@[at as int].side@ + ": "@ + error@,
            )
            &&& message_views(r@) == seq![
                MessageView::TotalProgress(done, total, 0, 0),
            ]
        },
    }
}

impl DiffDeleteRun {
    /// Whether a side that had nothing was found to have something.
    pub open spec fn found_something(self) -> bool {
        self.over && self.next_absence < self.absences@.len()
    }

    /// What holds at every moment: each processed target succeeded or failed, nothing
    /// is processed before all absences were looked at, and there are errors exactly
    /// where something failed. (A side that was found to have something ends the
    /// deletion with an error of its own.)
    pub open spec fn wf(self) -> bool {
        &&& self.next_absence <= self.absences@.len()
        &&& self.processed <= self.targets@.len()
        &&& self.processed > 0 ==> self.next_absence == self.absences@.len()
        &&& !self.over ==> self.success_count + self.failure_count == self.processed
        &&& self.over ==> self.success_count + self.failure_count == self.targets@.len()
        &&& !self.found_something() ==> (self.errors@.len() > 0 <==> self.failure_count > 0)
    }

    /// The beginning of a deletion.
    pub fn start(
        targets: Vec<PreparedDiffDeleteTarget>,
        absences: Vec<AbsenceCheck>,
        relative_path: String,
    ) -> (r: (DiffDeleteRun, ProgressMessage))
        ensures
            r.0.wf(),
            r.0.targets == targets,
            r.0.absences == absences,
            r.0.relative_path == relative_path,
            r.0.next_absence == 0,
            r.0.processed == 0,
            r.0.success_count == 0,
            r.0.failure_count == 0,
            r.0.errors@ == Seq::<String>::empty(),
            !r.0.over,
            r.1@ == MessageView::TotalProgress(0, targets@.len() as usize, 0, 0),
    {
        let total: usize = targets.len();
        (
            DiffDeleteRun {
                targets,
                absences,
                relative_path,
                next_absence: 0,
                processed: 0,
                success_count: 0,
                failure_count: 0,
                errors: Vec::new(),
                over: false,
            },
            ProgressMessage::TotalProgress(0, total, 0, 0),
        )
    }

    fn end(&mut self) -> (r: Vec<ProgressMessage>)
        ensures
            *final(self) == (DiffDeleteRun { over: true, ..*old(self) }),
            message_views(r@) == last_messages(*old(self)),
    {
        let mut messages: Vec<ProgressMessage> = Vec::new();
        assert(views(self.errors@).len() == self.errors@.len());
        if self.errors.len() > 0 {
            let text = join_texts(&self.errors, "; ");
            messages.push(ProgressMessage::Error(self.relative_path.clone(), text));
        }
        messages.push(ProgressMessage::Completed(self.success_count, self.failure_count));
        self.over = true;
        assert(message_views(messages@) =~= last_messages(*old(self)));
        messages
    }

    /// What has to be done next, and what is reported of it. A deletion that was
    /// given up ends before its next target; the targets that are left count as
    /// failed.
    pub fn step(&mut self, cancelled: bool) -> (r: (DeleteStep, Vec<ProgressMessage>))
        requires
            old(self).wf(),
        ensures
            final(self).wf(),
            delete_step(*old(self), *final(self), cancelled, r),
    {
        if self.over {
            return (DeleteStep::Over, Vec::new());
        }
        if self.next_absence < self.absences.len() {
            return (DeleteStep::CheckAbsence(self.next_absence), Vec::new());
        }
        let total: usize = self.targets.len();
        if self.processed < total {
            if !cancelled {
                let mut messages: Vec<ProgressMessage> = Vec::new();
                let name = concat3(
                    self.targets[self.processed].side.as_str(),
                    ": ",
                    self.relative_path.as_str(),
                );
                messages.push(ProgressMessage::FileStarted(name));
                assert(message_views(messages@) =~= seq![
                    MessageView::FileStarted(target_name(*old(self), old(self).processed as int)),
                ]);
                return (DeleteStep::Delete(self.processed), messages);
            }
            let text = if self.success_count == 0 {
                "Cancelled".to_owned()
            } else {
                let done = number_text(self.success_count as u64);
                let all = number_text(total as u64);
                concat5(
                    "Cancelled after deleting ",
                    done.as_str(),
                    "/",
                    all.as_str(),
                    "; completed deletions cannot be undone",
                )
            };
            self.failure_count = self.failure_count + (total - self.processed);
            self.errors.push(text);
            assert(views(self.errors@) =~= views(old(self).errors@).push(
                cancel_text(old(self).success_count as nat, total as nat),
            ));
        }
        let messages = self.end();
        (DeleteStep::Over, messages)
    }

    /// Takes in whether the side that was asked for still has nothing. If it has
    /// something now, nothing is deleted at all.
    pub fn absence_checked(&mut self, outcome: Result<(), String>) -> (r: Vec<ProgressMessage>)
        requires
            old(self).wf(),
            !old(self).over,
            old(self).next_absence < old(self).absences@.len(),
        ensures
            final(self).wf(),
            absence_seen(*old(self), *final(self), outcome, r),
    {
        let total: usize = self.targets.len();
        let _absences: usize = self.absences.len();
        match outcome {
            Ok(_) => {
                self.next_absence = self.next_absence + 1;
                Vec::new()
            },
            Err(error) => {
                let text = concat3(
                    self.absences[self.next_absence].side.as_str(),
                    ": ",
                    error.as_str(),
                );
                self.over = true;
                self.failure_count = total;
                let mut messages: Vec<ProgressMessage> = Vec::new();
                messages.push(ProgressMessage::Error(self.relative_path.clone(), text));
                messages.push(ProgressMessage::Completed(0, total));
                assert(message_views(messages@) =~= seq![
                    MessageView::Error(
                        old(self).relative_path@,
                        old(self).absences@[old(self).next_absence as int].side@ + ": "@ + error@,
                    ),
                    MessageView::Completed(0, total),
                ]);
                messages
            },
        }
    }

    /// Takes in what came of the target that was asked for: warnings, or an error.
    /// `refreshed` is what the targets behind it are known by from now on, as
    /// deleting one name of a file changes the metadata of its other names.
    pub fn deleted(
        &mut self,
        outcome: Result<Vec<String>, String>,
        refreshed: &Vec<PathAuthorization>,
    ) -> (r: Vec<ProgressMessage>)
        requires
            old(self).wf(),
            !old(self).over,
            old(self).next_absence == old(self).absences@.len(),
            old(self).processed < old(self).targets@.len(),
            refreshed@.len() == old(self).targets@.len() - old(self).processed - 1,
        ensures
            final(self).wf(),
            target_deleted(*old(self), *final(self), outcome, refreshed@, r),
    {
        let at: usize = self.processed;
        let total: usize = self.targets.len();
        let mut messages: Vec<ProgressMessage> = Vec::new();
        let ghost before = *self;
        match outcome {
            Err(error) => {
                let text = concat3(self.targets[at].side.as_str(), ": ", error.as_str());
                self.errors.push(text);
                self.failure_count = self.failure_count + 1;
                self.processed = at + 1;
                assert(views(self.errors@) =~= views(before.errors@).push(
                    before.targets@[at as int].side@ + ": "@ + error@,
                ));
                messages.push(ProgressMessage::TotalProgress(at + 1, total, 0, 0));
                assert(message_views(messages@) =~= seq![
                    MessageView::TotalProgress((at + 1) as usize, total, 0, 0),
                ]);
            },
            Ok(warnings) => {
                let name = concat3(
                    self.targets[at].side.as_str(),
                    ": ",
                    self.relative_path.as_str(),
                );
                let mut i: usize = at + 1;
                while i < total
                    invariant
                        at < i <= total,
                        total == before.targets@.len(),
                        refreshed@.len() == total - at - 1,
                        *self == (DiffDeleteRun { targets: self.targets, ..before }),
                        self.targets@.len() == total,
                        forall|k: int|
                            0 <= k < total ==> (#[trigger] self.targets@[k]) == if at < k < i {
                                known_by(before.targets@[k], refreshed@[k - at - 1])
                            } else {
                                before.targets@[k]
                            },
                    decreases total - i,
                {
                    let item: PathAuthorization = refreshed[i - at - 1];
                    self.targets[i].selected.item = item;
                    assert(self.targets@[i as int] == known_by(before.targets@[i as int], item));
                    i += 1;
                }
                self.success_count = self.success_count + 1;
                self.processed = at + 1;
                let ghost all = views(warnings@);
                let ghost whole = deleted_messages(name@, all, (at + 1) as usize, total);
                let mut k: usize = 0;
                while k < warnings.len()
                    invariant
                        k <= warnings@.len(),
                        all == views(warnings@),
                        whole == deleted_messages(name@, all, (at + 1) as usize, total),
                        message_views(messages@) == whole.take(k as int),
                    decreases warnings@.len() - k,
                {
                    let ghost said = messages@;
                    messages.push(ProgressMessage::Warning(name.clone(), warnings[k].clone()));
                    assert(all[k as int] == warnings@[k as int]@);
                    assert(message_views(messages@) =~= message_views(said).push(
                        MessageView::Warning(name@, all[k as int]),
                    ));
                    assert(whole.take(k + 1) =~= whole.take(k as int).push(whole[k as int]));
                    k += 1;
                }
                let ghost said = messages@;
                messages.push(ProgressMessage::TotalProgress(at + 1, total, 0, 0));
                assert(message_views(messages@) =~= message_views(said).push(
                    MessageView::TotalProgress((at + 1) as usize, total, 0, 0),
                ));
                assert(message_views(messages@) =~= whole);
            },
        }
        messages
    }
}

/// The target, known by another state of its item.
pub open spec fn known_by(target: PreparedDiffDeleteTarget, item: PathAuthorization) -> PreparedDiffDeleteTarget {
    PreparedDiffDeleteTarget {
        selected: crate::diff_state::DiffAuthorizedItem { item, ..target.selected },
        ..target
    }
}

/// Once a deletion is over, every target counts as deleted or as failed.
pub proof fn law_every_target_is_accounted_for(run: DiffDeleteRun)
    requires
        run.wf(),
        run.over,
    ensures
        run.success_count + run.failure_count == run.targets@.len(),
{
}

/// A deletion that got as far as its targets ends with the count of what was deleted
/// and what failed, and reports an error before it exactly where something failed.
pub proof fn law_error_is_reported_where_something_failed(run: DiffDeleteRun)
    requires
        run.wf(),
        run.over,
        !run.found_something(),
    ensures
        last_messages(run).last() == MessageView::Completed(run.success_count, run.failure_count),
        run.failure_count > 0 ==> last_messages(run) == seq![
            MessageView::Error(run.relative_path@, joined(views(run.errors@), "; "@)),
            MessageView::Completed(run.success_count, run.failure_count),
        ],
        run.failure_count == 0 ==> last_messages(run) == seq![
            MessageView::Completed(run.targets@.len() as usize, 0),
        ],
{
    assert(views(run.errors@).len() == run.errors@.len());
}

/// Nothing is deleted before every side that had nothing was looked at again; the targets
/// then go in their order, each once, until the user gives up.
pub proof fn law_absences_come_before_deletions(
    before: DiffDeleteRun,
    after: DiffDeleteRun,
    cancelled: bool,
    r: (DeleteStep, Vec<ProgressMessage>),
)
    requires
        before.wf(),
        delete_step(before, after, cancelled, r),
    ensures
        r.0 matches DeleteStep::Delete(i) ==> {
            &&& before.next_absence == before.absences@.len()
            &&& i == before.processed
            &&& i < before.targets@.len()
            &&& !cancelled
            &&& !before.over
        },
        r.0 matches DeleteStep::CheckAbsence(i) ==> i == before.next_absence && !before.over,
        !before.over && before.next_absence < before.absences@.len() ==> r.0 is CheckAbsence,
        r.0 == DeleteStep::Over ==> after.over,
        after.success_count == before.success_count,
        !before.over && r.0 == DeleteStep::Over && before.processed < before.targets@.len()
            ==> cancelled && after.success_count + after.failure_count == after.targets@.len()
            && after.errors@.len() == before.errors@.len() + 1,
{
    assert(before.targets.len() == before.targets@.len());
    assert(views(after.errors@).len() == after.errors@.len());
    assert(views(before.errors@).len() == before.errors@.len());
}

/// Where a side that should have nothing has something, nothing at all is deleted.
pub proof fn law_something_new_stops_the_deletion(
    before: DiffDeleteRun,
    after: DiffDeleteRun,
    outcome: Result<(), String>,
    r: Vec<ProgressMessage>,
)
    requires
        before.wf(),
        !before.over,
        before.next_absence < before.absences@.len(),
        absence_seen(before, after, outcome, r),
    ensures
        outcome is Err ==> {
            &&& after.over
            &&& after.success_count == 0
            &&& after.failure_count == before.targets@.len()
            &&& after.targets == before.targets
            &&& message_views(r@).last() == MessageView::Completed(
                0,
                before.targets@.len() as usize,
            )
        },
        outcome is Ok ==> !after.over && after.next_absence == before.next_absence + 1 && r@.len()
            == 0,
{
    assert(before.targets.len() == before.targets@.len());
    assert(before.absences.len() == before.absences@.len());
}

/// A target that was deleted counts as a success, one that was not as a failure with its
/// side named; what is still to be deleted is known anew after a deletion, and nothing else
/// of it changes.
pub proof fn law_every_target_counts_once(
    before: DiffDeleteRun,
    after: DiffDeleteRun,
    outcome: Result<Vec<String>, String>,
    refreshed: Seq<PathAuthorization>,
    r: Vec<ProgressMessage>,
    i: int,
)
    requires
        before.wf(),
        !before.over,
        before.processed < before.targets@.len(),
        refreshed.len() == before.targets@.len() - before.processed - 1,
        target_deleted(before, after, outcome, refreshed, r),
        0 <= i < before.targets@.len(),
    ensures
        after.processed == before.processed + 1,
        outcome is Ok ==> after.success_count == before.success_count + 1 && after.failure_count
            == before.failure_count && after.errors == before.errors,
        outcome matches Err(error) ==> after.failure_count == before.failure_count + 1
            && after.success_count == before.success_count && views(after.errors@).last()
            == before.targets@[before.processed as int].side@ + ": "@ + error@ && after.targets
            == before.targets,
        outcome is Ok && i <= before.processed ==> after.targets@[i] == before.targets@[i],
        outcome is Ok && i > before.processed ==> {
            &&& after.targets@[i].selected.item == refreshed[i - before.processed - 1]
            &&& after.targets@[i].path == before.targets@[i].path
            &&& after.targets@[i].root == before.targets@[i].root
            &&& after.targets@[i].side == before.targets@[i].side
            &&& after.targets@[i].selected.parent == before.targets@[i].selected.parent
        },
        message_views(r@).last() == MessageView::TotalProgress(
            after.processed,
            before.targets@.len() as usize,
            0,
            0,
        ),
{
    assert(before.targets.len() == before.targets@.len());
}

/// Giving up is told with what can no longer be undone.
pub proof fn law_giving_up_tells_what_is_gone(success: nat, total: nat)
    ensures
        cancel_text(0, total) == "Cancelled"@,
        success > 0 ==> ("Cancelled after deleting "@ + decimal(success) + "/"@ + decimal(
            total,
        )).is_prefix_of(cancel_text(success, total)),
{
    let head = "Cancelled after deleting "@ + decimal(success) + "/"@ + decimal(total);
    if success > 0 {
        assert(cancel_text(success, total).subrange(0, head.len() as int) =~= head);
    }
}

} // verus!
