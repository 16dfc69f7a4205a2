//! Replacing the applied version of a profile by a new one. Where that fails, the system is brought
//! back to the previous version.

use crate::error::{fault, in_context, outcome, Error};
use crate::model::{Profile, ProtectionProfile};
use crate::text::text2;
use vstd::prelude::*;

verus! {

/// What a transaction asks to be done.
#[derive(Debug)]
pub enum Act {
    /// Take a profile out.
    Teardown(ProtectionProfile),
    /// Build the modules of a profile.
    Prepare(ProtectionProfile),
    /// Install a profile that was built.
    Install(ProtectionProfile),
    /// Store the snapshot of a profile.
    Save(ProtectionProfile),
    /// Delete the snapshot of a profile.
    RemoveState(u128),
    /// Delete what is left of a snapshot that was not stored completely.
    RemoveTemporary(u128),
}

/// What a transaction asks to be done, as a value.
pub enum Work {
    Teardown(Profile),
    Prepare(Profile),
    Install(Profile),
    Save(Profile),
    RemoveState(u128),
    RemoveTemporary(u128),
}

impl View for Act {
    type V = Work;

    open spec fn view(&self) -> Work {
        match self {
            Act::Teardown(profile) => Work::Teardown(profile@),
            Act::Prepare(profile) => Work::Prepare(profile@),
            Act::Install(profile) => Work::Install(profile@),
            Act::Save(profile) => Work::Save(profile@),
            Act::RemoveState(id) => Work::RemoveState(*id),
            Act::RemoveTemporary(id) => Work::RemoveTemporary(*id),
        }
    }
}

/// What an optional request holds.
pub open spec fn requested(act: Option<Act>) -> Option<Work> {
    match act {
        Some(act) => Some(act@),
        None => None,
    }
}

/// Where a transaction stands.
#[derive(Debug)]
pub enum Stage {
    /// The previous version is being taken out.
    RemovingPrevious,
    /// That failed, and is tried once more.
    ClearingPrevious(Error),
    /// The previous version is being built again.
    RebuildingPrevious(Error),
    /// The previous version is being installed again.
    ReinstallingPrevious(Error),
    /// The snapshot of the previous version is being stored again.
    ResavingPrevious(Error),
    /// The new version is being installed.
    Installing,
    /// The snapshot of the new version is being stored.
    Saving,
    /// Installing or storing failed, and what is left of the snapshot is being deleted.
    ClearingTemporary(Error),
    /// What was installed is being taken out.
    CleaningUp(Error),
    /// The previous version is being built for rollback.
    Rebuilding(Error, Option<Error>),
    /// The previous version is being installed for rollback.
    Reinstalling(Error, Option<Error>),
    /// The snapshot of the previous version is being stored for rollback.
    Resaving(Error, Option<Error>),
    /// The transaction is over.
    Over(Result<(), Error>),
}

/// Where a transaction stands, as a value.
pub enum Phase {
    RemovingPrevious,
    ClearingPrevious(Seq<char>),
    RebuildingPrevious(Seq<char>),
    ReinstallingPrevious(Seq<char>),
    ResavingPrevious(Seq<char>),
    Installing,
    Saving,
    ClearingTemporary(Seq<char>),
    CleaningUp(Seq<char>),
    Rebuilding(Seq<char>, Option<Seq<char>>),
    Reinstalling(Seq<char>, Option<Seq<char>>),
    Resaving(Seq<char>, Option<Seq<char>>),
    Over(Result<(), Seq<char>>),
}

impl View for Stage {
    type V = Phase;

    open spec fn view(&self) -> Phase {
        match self {
            Stage::RemovingPrevious => Phase::RemovingPrevious,
            Stage::ClearingPrevious(error) => Phase::ClearingPrevious(error@),
            Stage::RebuildingPrevious(error) => Phase::RebuildingPrevious(error@),
            Stage::ReinstallingPrevious(error) => Phase::ReinstallingPrevious(error@),
            Stage::ResavingPrevious(error) => Phase::ResavingPrevious(error@),
            Stage::Installing => Phase::Installing,
            Stage::Saving => Phase::Saving,
            Stage::ClearingTemporary(error) => Phase::ClearingTemporary(error@),
            Stage::CleaningUp(error) => Phase::CleaningUp(error@),
            Stage::Rebuilding(error, cleanup) => Phase::Rebuilding(error@, fault(*cleanup)),
            Stage::Reinstalling(error, cleanup) => Phase::Reinstalling(error@, fault(*cleanup)),
            Stage::Resaving(error, cleanup) => Phase::Resaving(error@, fault(*cleanup)),
            Stage::Over(result) => Phase::Over(outcome(*result)),
        }
    }
}

/// The replacement of the applied version of a profile by a new one.
#[derive(Debug)]
pub struct Transaction {
    pub profile: ProtectionProfile,
    pub previous: Option<ProtectionProfile>,
    pub stage: Stage,
}

/// The replacement of the applied version of a profile by a new one, as a value.
pub struct Course {
    pub profile: Profile,
    pub previous: Option<Profile>,
    pub phase: Phase,
}

impl View for Transaction {
    type V = Course;

    open spec fn view(&self) -> Course {
        Course {
            profile: self.profile@,
            previous: match self.previous {
                Some(previous) => Some(previous@),
                None => None,
            },
            phase: self.stage@,
        }
    }
}

/// The phases that only a transaction with a previous version comes to.
pub open spec fn needs_previous(phase: Phase) -> bool {
    match phase {
        Phase::Installing => false,
        Phase::Saving => false,
        Phase::ClearingTemporary(_) => false,
        Phase::CleaningUp(_) => false,
        Phase::Over(_) => false,
        _ => true,
    }
}

/// Whether a transaction stands where it can.
pub open spec fn is_sound(course: Course) -> bool {
    needs_previous(course.phase) ==> course.previous is Some
}

/// A transaction before anything is done.
pub open spec fn begun(profile: Profile, previous: Option<Profile>) -> Course {
    let phase = if previous is Some {
        Phase::RemovingPrevious
    } else {
        Phase::Installing
    };
    Course { profile, previous, phase }
}

/// What a transaction asks to be done next.
pub open spec fn asked(course: Course) -> Option<Work> {
    let old = course.previous->Some_0;
    match course.phase {
        Phase::RemovingPrevious => Some(Work::Teardown(old)),
        Phase::ClearingPrevious(_) => Some(Work::Teardown(old)),
        Phase::RebuildingPrevious(_) => Some(Work::Prepare(old)),
        Phase::ReinstallingPrevious(_) => Some(Work::Install(old)),
        Phase::ResavingPrevious(_) => Some(Work::Save(old)),
        Phase::Installing => Some(Work::Install(course.profile)),
        Phase::Saving => Some(Work::Save(course.profile)),
        Phase::ClearingTemporary(_) => Some(Work::RemoveTemporary(course.profile.id)),
        Phase::CleaningUp(_) => Some(Work::Teardown(course.profile)),
        Phase::Rebuilding(_, _) => Some(Work::Prepare(old)),
        Phase::Reinstalling(_, _) => Some(Work::Install(old)),
        Phase::Resaving(_, _) => Some(Work::Save(old)),
        Phase::Over(_) => None,
    }
}

/// What is said where the previous version could not be taken out but is in force again.
pub open spec fn recovered_message(message: Seq<char>) -> Seq<char> {
    in_context(
        message,
        "Could not remove the previous policy; the previous snapshot was restored"@,
    )
}

/// What is said where the previous version could neither be taken out nor put in force again.
pub open spec fn unrecovered_message(message: Seq<char>, recovery: Seq<char>) -> Seq<char> {
    in_context(
        message,
        "Could not remove the previous policy, and recovery also failed: "@ + recovery,
    )
}

/// What is said of a failure, of a failed cleanup, and of a failed rollback.
pub open spec fn failure_detail(
    message: Seq<char>,
    cleanup: Option<Seq<char>>,
    rollback: Option<Seq<char>>,
) -> Seq<char> {
    let first = match cleanup {
        Some(text) => message + "; cleanup also failed: "@ + text,
        None => message,
    };
    match rollback {
        Some(text) => first + "; restoring the previous profile also failed: "@ + text,
        None => first,
    }
}

/// Where a transaction stands after what it asked for was done, or failed.
pub open spec fn next_phase(course: Course, reply: Result<(), Seq<char>>) -> Phase {
    match (course.phase, reply) {
        (Phase::RemovingPrevious, Ok(_)) => Phase::Installing,
        (Phase::RemovingPrevious, Err(message)) => Phase::ClearingPrevious(message),
        (Phase::ClearingPrevious(first), Ok(_)) => Phase::RebuildingPrevious(first),
        (Phase::RebuildingPrevious(first), Ok(_)) => Phase::ReinstallingPrevious(first),
        (Phase::ReinstallingPrevious(first), Ok(_)) => Phase::ResavingPrevious(first),
        (Phase::ResavingPrevious(first), Ok(_)) => Phase::Over(Err(recovered_message(first))),
        (Phase::ClearingPrevious(first), Err(message)) => Phase::Over(
            Err(unrecovered_message(first, message)),
        ),
        (Phase::RebuildingPrevious(first), Err(message)) => Phase::Over(
            Err(unrecovered_message(first, message)),
        ),
        (Phase::ReinstallingPrevious(first), Err(message)) => Phase::Over(
            Err(unrecovered_message(first, message)),
        ),
        (Phase::ResavingPrevious(first), Err(message)) => Phase::Over(
            Err(unrecovered_message(first, message)),
        ),
        (Phase::Installing, Ok(_)) => Phase::Saving,
        (Phase::Saving, Ok(_)) => Phase::Over(Ok(())),
        (Phase::Installing, Err(message)) => Phase::ClearingTemporary(message),
        (Phase::Saving, Err(message)) => Phase::ClearingTemporary(message),
        (Phase::ClearingTemporary(first), _) => Phase::CleaningUp(first),
        (Phase::CleaningUp(first), _) => {
            let cleanup = match reply {
                Ok(_) => None,
                Err(message) => Some(message),
            };
            if course.previous is Some {
                Phase::Rebuilding(first, cleanup)
            } else {
                Phase::Over(Err(failure_detail(first, cleanup, None)))
            }
        },
        (Phase::Rebuilding(first, cleanup), Ok(_)) => Phase::Reinstalling(first, cleanup),
        (Phase::Reinstalling(first, cleanup), Ok(_)) => Phase::Resaving(first, cleanup),
        (Phase::Resaving(first, cleanup), Ok(_)) => Phase::Over(
            Err(failure_detail(first, cleanup, None)),
        ),
        (Phase::Rebuilding(first, cleanup), Err(message)) => Phase::Over(
            Err(failure_detail(first, cleanup, Some(message))),
        ),
        (Phase::Reinstalling(first, cleanup), Err(message)) => Phase::Over(
            Err(failure_detail(first, cleanup, Some(message))),
        ),
        (Phase::Resaving(first, cleanup), Err(message)) => Phase::Over(
            Err(failure_detail(first, cleanup, Some(message))),
        ),
        (Phase::Over(result), _) => Phase::Over(result),
    }
}

/// A transaction after what it asked for was done, or failed.
pub open spec fn moved(course: Course, reply: Result<(), Seq<char>>) -> Course {
    Course { phase: next_phase(course, reply), ..course }
}

fn recovered(first: &Error) -> (result: Stage)
    ensures
        result@ == Phase::Over(Err::<(), Seq<char>>(recovered_message(first@))),
{
    Stage::Over(
        Err(
            first.context(
                "Could not remove the previous policy; the previous snapshot was restored",
            ),
        ),
    )
}

fn unrecovered(first: &Error, recovery: &Error) -> (result: Stage)
    ensures
        result@ == Phase::Over(Err::<(), Seq<char>>(unrecovered_message(first@, recovery@))),
{
    let context = text2(
        "Could not remove the previous policy, and recovery also failed: ",
        recovery.message.as_str(),
    );
    Stage::Over(Err(first.context(context.as_str())))
}

/// The error for a failure, a failed cleanup and a failed rollback.
pub(crate) fn describe_failure(
    first: Error,
    cleanup: Option<Error>,
    rollback: Option<Error>,
) -> (result: Error)
    ensures
        result@ == failure_detail(first@, fault(cleanup), fault(rollback)),
{
    let mut message = first.message;
    if let Some(error) = &cleanup {
        message.append("; cleanup also failed: ");
        message.append(error.message.as_str());
    }
    if let Some(error) = &rollback {
        message.append("; restoring the previous profile also failed: ");
        message.append(error.message.as_str());
    }
    Error { message }
}

fn failed(first: Error, cleanup: Option<Error>, rollback: Option<Error>) -> (result: Stage)
    ensures
        result@ == Phase::Over(
            Err::<(), Seq<char>>(failure_detail(first@, fault(cleanup), fault(rollback))),
        ),
{
    Stage::Over(Err(describe_failure(first, cleanup, rollback)))
}

fn next_stage(stage: Stage, has_previous: bool, reply: Result<(), Error>) -> (result: Stage)
    ensures
        forall|course: Course|
            course.phase == stage@ && (course.previous is Some) == has_previous ==> result@
                == #[trigger] next_phase(course, outcome(reply)),
{
    match stage {
        Stage::RemovingPrevious => match reply {
            Ok(_) => Stage::Installing,
            Err(error) => Stage::ClearingPrevious(error),
        },
        Stage::ClearingPrevious(first) => match reply {
            Ok(_) => Stage::RebuildingPrevious(first),
            Err(error) => unrecovered(&first, &error),
        },
        Stage::RebuildingPrevious(first) => match reply {
            Ok(_) => Stage::ReinstallingPrevious(first),
            Err(error) => unrecovered(&first, &error),
        },
        Stage::ReinstallingPrevious(first) => match reply {
            Ok(_) => Stage::ResavingPrevious(first),
            Err(error) => unrecovered(&first, &error),
        },
        Stage::ResavingPrevious(first) => match reply {
            Ok(_) => recovered(&first),
            Err(error) => unrecovered(&first, &error),
        },
        Stage::Installing => match reply {
            Ok(_) => Stage::Saving,
            Err(error) => Stage::ClearingTemporary(error),
        },
        Stage::Saving => match reply {
            Ok(_) => Stage::Over(Ok(())),
            Err(error) => Stage::ClearingTemporary(error),
        },
        Stage::ClearingTemporary(first) => Stage::CleaningUp(first),
        Stage::CleaningUp(first) => {
            let cleanup = match reply {
                Ok(_) => None,
                Err(error) => Some(error),
            };
            if has_previous {
                Stage::Rebuilding(first, cleanup)
            } else {
                failed(first, cleanup, None)
            }
        },
        Stage::Rebuilding(first, cleanup) => match reply {
            Ok(_) => Stage::Reinstalling(first, cleanup),
            Err(error) => failed(first, cleanup, Some(error)),
        },
        Stage::Reinstalling(first, cleanup) => match reply {
            Ok(_) => Stage::Resaving(first, cleanup),
            Err(error) => failed(first, cleanup, Some(error)),
        },
        Stage::Resaving(first, cleanup) => match reply {
            Ok(_) => failed(first, cleanup, None),
            Err(error) => failed(first, cleanup, Some(error)),
        },
        Stage::Over(result) => Stage::Over(result),
    }
}

impl Transaction {
    /// A transaction before anything is done.
    pub fn new(profile: ProtectionProfile, previous: Option<ProtectionProfile>) -> (result: Self)
        ensures
            result@ == begun(
                profile@,
                match previous {
                    Some(old) => Some(old@),
                    None => None,
                },
            ),
            is_sound(result@),
    {
        let stage = if previous.is_some() {
            Stage::RemovingPrevious
        } else {
            Stage::Installing
        };
        Transaction { profile, previous, stage }
    }

    /// What is to be done next, until the transaction is over.
    pub fn next(&self) -> (result: Option<Act>)
        requires
            is_sound(self@),
        ensures
            requested(result) == asked(self@),
    {
        match &self.stage {
            Stage::Installing => {
                return Some(Act::Install(self.profile.clone()));
            },
            Stage::Saving => {
                return Some(Act::Save(self.profile.clone()));
            },
            Stage::ClearingTemporary(_) => {
                return Some(Act::RemoveTemporary(self.profile.id));
            },
            Stage::CleaningUp(_) => {
                return Some(Act::Teardown(self.profile.clone()));
            },
            Stage::Over(_) => {
                return None;
            },
            _ => {},
        }
        match &self.previous {
            None => None,
            Some(old) => match &self.stage {
                Stage::RemovingPrevious => Some(Act::Teardown(old.clone())),
                Stage::ClearingPrevious(_) => Some(Act::Teardown(old.clone())),
                Stage::RebuildingPrevious(_) => Some(Act::Prepare(old.clone())),
                Stage::ReinstallingPrevious(_) => Some(Act::Install(old.clone())),
                Stage::ResavingPrevious(_) => Some(Act::Save(old.clone())),
                Stage::Rebuilding(_, _) => Some(Act::Prepare(old.clone())),
                Stage::Reinstalling(_, _) => Some(Act::Install(old.clone())),
                Stage::Resaving(_, _) => Some(Act::Save(old.clone())),
                _ => None,
            },
        }
    }

    /// Takes the result of what was asked for.
    pub fn advance(self, reply: Result<(), Error>) -> (result: Self)
        requires
            is_sound(self@),
        ensures
            result@ == moved(self@, outcome(reply)),
            is_sound(result@),
    {
        let has_previous = self.previous.is_some();
        let ghost before = self@;
        let stage = next_stage(self.stage, has_previous, reply);
        assert(stage@ == next_phase(before, outcome(reply)));
        Transaction { profile: self.profile, previous: self.previous, stage }
    }
}

/// How far a transaction is from its end.
pub open spec fn remaining(course: Course) -> int {
    match course.phase {
        Phase::RemovingPrevious => 12,
        Phase::ClearingPrevious(_) => 4,
        Phase::RebuildingPrevious(_) => 3,
        Phase::ReinstallingPrevious(_) => 2,
        Phase::ResavingPrevious(_) => 1,
        Phase::Installing => 11,
        Phase::Saving => 10,
        Phase::ClearingTemporary(_) => 9,
        Phase::CleaningUp(_) => 8,
        Phase::Rebuilding(_, _) => 3,
        Phase::Reinstalling(_, _) => 2,
        Phase::Resaving(_, _) => 1,
        Phase::Over(_) => 0,
    }
}

/// Every reply brings a transaction closer to its end, whatever fails.
pub proof fn transactions_end(course: Course, reply: Result<(), Seq<char>>)
    requires
        asked(course) is Some,
    ensures
        0 <= remaining(moved(course, reply)) < remaining(course),
        remaining(moved(course, reply)) == 0 <==> asked(moved(course, reply)) is None,
{
}

/// A snapshot is stored only directly after the profile it describes was installed successfully.
pub proof fn snapshots_follow_installations(course: Course, reply: Result<(), Seq<char>>)
    requires
        asked(course) is Some,
        asked(moved(course, reply)) is Some,
        asked(moved(course, reply))->Some_0 is Save,
    ensures
        reply is Ok,
        asked(course) == Some(Work::Install(asked(moved(course, reply))->Some_0->Save_0)),
{
}

/// A transaction succeeds exactly where the new version was installed and its snapshot was stored.
pub proof fn commits_follow_snapshots(course: Course, reply: Result<(), Seq<char>>)
    requires
        asked(course) is Some,
    ensures
        moved(course, reply).phase == Phase::Over(Ok::<(), Seq<char>>(())) <==> {
            &&& course.phase is Saving
            &&& asked(course) == Some(Work::Save(course.profile))
            &&& reply is Ok
        },
{
}

/// A transaction after a list of replies.
pub open spec fn after(course: Course, replies: Seq<Result<(), Seq<char>>>) -> Course
    decreases replies.len(),
{
    if replies.len() == 0 {
        course
    } else {
        moved(after(course, replies.drop_last()), replies.last())
    }
}

proof fn lemma_remaining_after(course: Course, replies: Seq<Result<(), Seq<char>>>)
    ensures
        remaining(after(course, replies)) == 0 || remaining(after(course, replies)) <= remaining(
            course,
        ) - replies.len(),
        0 <= remaining(after(course, replies)),
    decreases replies.len(),
{
    if replies.len() > 0 {
        lemma_remaining_after(course, replies.drop_last());
        let before = after(course, replies.drop_last());
        if asked(before) is Some {
            transactions_end(before, replies.last());
        }
    }
}

/// A transaction is over after twelve replies at the latest, whatever they are.
pub proof fn transactions_take_at_most_twelve_steps(
    profile: Profile,
    previous: Option<Profile>,
    replies: Seq<Result<(), Seq<char>>>,
)
    requires
        replies.len() >= 12,
    ensures
        after(begun(profile, previous), replies).phase is Over,
{
    lemma_remaining_after(begun(profile, previous), replies);
}

/// What happens where everything succeeds: the previous version goes, the new one comes, and its
/// snapshot is stored.
pub proof fn undisturbed_transactions_commit(profile: Profile, previous: Option<Profile>)
    ensures
        ({
            let done: Result<(), Seq<char>> = Ok(());
            let first = begun(profile, previous);
            let installing = if previous is Some {
                moved(first, done)
            } else {
                first
            };
            let saving = moved(installing, done);
            &&& previous matches Some(old) ==> asked(first) == Some(Work::Teardown(old))
            &&& asked(installing) == Some(Work::Install(profile))
            &&& asked(saving) == Some(Work::Save(profile))
            &&& moved(saving, done).phase == Phase::Over(done)
        }),
{
}

/// What happens where installing or storing fails: whatever comes of each step, what is left of the
/// snapshot is deleted, the new version is taken out, and the previous one is built, installed and
/// stored again. The failure is reported, and so is every failure of the cleanup.
pub proof fn failed_transactions_are_rolled_back(
    course: Course,
    message: Seq<char>,
    temporary: Result<(), Seq<char>>,
    cleanup: Result<(), Seq<char>>,
)
    requires
        course.phase is Installing || course.phase is Saving,
    ensures
        ({
            let done: Result<(), Seq<char>> = Ok(());
            let told = match cleanup {
                Ok(_) => None,
                Err(text) => Some(text),
            };
            let first = moved(course, Err(message));
            let second = moved(first, temporary);
            let third = moved(second, cleanup);
            &&& asked(first) == Some(Work::RemoveTemporary(course.profile.id))
            &&& asked(second) == Some(Work::Teardown(course.profile))
            &&& course.previous is None ==> third.phase == Phase::Over(
                Err::<(), Seq<char>>(failure_detail(message, told, None)),
            )
            &&& course.previous matches Some(old) ==> {
                let fourth = moved(third, done);
                let fifth = moved(fourth, done);
                &&& asked(third) == Some(Work::Prepare(old))
                &&& asked(fourth) == Some(Work::Install(old))
                &&& asked(fifth) == Some(Work::Save(old))
                &&& moved(fifth, done).phase == Phase::Over(
                    Err::<(), Seq<char>>(failure_detail(message, told, None)),
                )
            }
        }),
{
}

/// What happens where the previous version cannot be taken out: it is put in force again, and the
/// new version is not touched.
pub proof fn stuck_transactions_restore_the_previous_version(
    profile: Profile,
    old: Profile,
    message: Seq<char>,
)
    ensures
        ({
            let done: Result<(), Seq<char>> = Ok(());
            let first = moved(begun(profile, Some(old)), Err(message));
            let second = moved(first, done);
            let third = moved(second, done);
            let fourth = moved(third, done);
            &&& asked(first) == Some(Work::Teardown(old))
            &&& asked(second) == Some(Work::Prepare(old))
            &&& asked(third) == Some(Work::Install(old))
            &&& asked(fourth) == Some(Work::Save(old))
            &&& moved(fourth, done).phase == Phase::Over(
                Err::<(), Seq<char>>(recovered_message(message)),
            )
        }),
{
}

} // verus!
