//! Changing the system: transactions, batches, what is undone, and what is stored.

use crate::engine::batch::{self, BatchPhase, BatchWork, Plan, Report};
use crate::engine::procedure::{continued, fresh, standing, Run, Standing};
use crate::engine::removing::{after_loading, after_work, RemovalPhase};
use crate::engine::rollback::{self, concluded, joined, Exchange, Return};
use crate::engine::saving::{storage, Keeping};
use crate::engine::state::{
    optional_state, restored, state_file, temporary_file, AppliedState, LegacyAppliedProfile,
};
use crate::engine::steps::{closing, opening, reaction, Answer, Request, Task};
use crate::engine::transaction::{asked, begun, moved, Course, Phase, Work};
use crate::error::outcome;
use crate::id::shown;
use crate::model::{same_profile, Profile};
use crate::policy::profile_fault;
use crate::text::decimal;
use vstd::prelude::*;

verus! {

/// What an undisturbed transaction does: the previous version is taken out, if there is any, then the
/// new one is installed, and its snapshot is stored.
pub proof fn undisturbed_transactions_do_this(profile: Profile, old: Profile)
    ensures
        ({
            let first = begun(profile, None);
            let second = moved(first, Ok(()));
            let third = moved(second, Ok(()));
            &&& asked(first) == Some(Work::Install(profile))
            &&& asked(second) == Some(Work::Save(profile))
            &&& asked(third) is None && third.phase == Phase::Over(Ok(()))
        }),
        ({
            let before = begun(profile, Some(old));
            let first = moved(before, Ok(()));
            let second = moved(first, Ok(()));
            let third = moved(second, Ok(()));
            &&& asked(before) == Some(Work::Teardown(old))
            &&& asked(first) == Some(Work::Install(profile))
            &&& asked(second) == Some(Work::Save(profile))
            &&& asked(third) is None && third.phase == Phase::Over(Ok(()))
        }),
{
}

/// A message with what else failed.
pub open spec fn with_cleanup(message: Seq<char>, cleanup: Result<(), Seq<char>>) -> Seq<char> {
    match cleanup {
        Ok(_) => message,
        Err(text) => message + "; cleanup also failed: "@ + text,
    }
}

/// What a transaction without a previous version does where installing or storing fails: whatever
/// becomes of the temporary snapshot, the profile is taken out again. The failure is told, and that
/// of taking out too.
pub proof fn failed_installations_are_taken_out(
    profile: Profile,
    saving: bool,
    message: Seq<char>,
    temporary: Result<(), Seq<char>>,
    cleanup: Result<(), Seq<char>>,
)
    ensures
        ({
            let start = begun(profile, None);
            let failing = if saving {
                moved(start, Ok(()))
            } else {
                start
            };
            let first = moved(failing, Err(message));
            let second = moved(first, temporary);
            let third = moved(second, cleanup);
            &&& asked(first) == Some(Work::RemoveTemporary(profile.id))
            &&& asked(second) == Some(Work::Teardown(profile))
            &&& asked(third) is None
            &&& third.phase == Phase::Over(Err(with_cleanup(message, cleanup)))
        }),
{
}

/// What a transaction with a previous version does where installing or storing fails: the new version
/// is taken out, and the previous one is built, installed and stored again. Every failure on the way
/// is told.
pub proof fn failed_updates_are_taken_back(
    profile: Profile,
    old: Profile,
    saving: bool,
    message: Seq<char>,
    temporary: Result<(), Seq<char>>,
    cleanup: Result<(), Seq<char>>,
    trouble: Seq<char>,
)
    ensures
        ({
            let start = moved(begun(profile, Some(old)), Ok(()));
            let failing = if saving {
                moved(start, Ok(()))
            } else {
                start
            };
            let first = moved(failing, Err(message));
            let second = moved(first, temporary);
            let third = moved(second, cleanup);
            let fourth = moved(third, Ok(()));
            let fifth = moved(fourth, Ok(()));
            let last = moved(fifth, Ok(()));
            let told = with_cleanup(message, cleanup);
            let stuck = told + "; restoring the previous profile also failed: "@ + trouble;
            &&& asked(first) == Some(Work::RemoveTemporary(profile.id))
            &&& asked(second) == Some(Work::Teardown(profile))
            &&& asked(third) == Some(Work::Prepare(old))
            &&& asked(fourth) == Some(Work::Install(old))
            &&& asked(fifth) == Some(Work::Save(old))
            &&& asked(last) is None
            &&& last.phase == Phase::Over(Err(told))
            &&& moved(third, Err(trouble)).phase == Phase::Over(Err(stuck))
            &&& moved(fourth, Err(trouble)).phase == Phase::Over(Err(stuck))
            &&& moved(fifth, Err(trouble)).phase == Phase::Over(Err(stuck))
        }),
{
}

/// What a transaction does where the previous version could not be taken out: what is left of it is
/// taken out once more, and it is built, installed and stored again. The new version is not touched.
pub proof fn stuck_removals_are_mended(
    profile: Profile,
    old: Profile,
    message: Seq<char>,
    trouble: Seq<char>,
)
    ensures
        ({
            let first = moved(begun(profile, Some(old)), Err(message));
            let second = moved(first, Ok(()));
            let third = moved(second, Ok(()));
            let fourth = moved(third, Ok(()));
            let last = moved(fourth, Ok(()));
            let stuck = "Could not remove the previous policy, and recovery also failed: "@ + trouble
                + ": "@ + message;
            &&& asked(first) == Some(Work::Teardown(old))
            &&& asked(second) == Some(Work::Prepare(old))
            &&& asked(third) == Some(Work::Install(old))
            &&& asked(fourth) == Some(Work::Save(old))
            &&& asked(last) is None
            &&& last.phase == Phase::Over(
                Err(
                    "Could not remove the previous policy; the previous snapshot was restored"@
                        + ": "@ + message,
                ),
            )
            &&& moved(first, Err(trouble)).phase == Phase::Over(Err(stuck))
            &&& moved(second, Err(trouble)).phase == Phase::Over(Err(stuck))
            &&& moved(third, Err(trouble)).phase == Phase::Over(Err(stuck))
            &&& moved(fourth, Err(trouble)).phase == Phase::Over(Err(stuck))
        }),
{
}

/// A transaction keeps the profile and the previous version that it was begun with.
pub proof fn transactions_keep_their_subject(course: Course, reply: Result<(), Seq<char>>)
    ensures
        moved(course, reply).profile == course.profile,
        moved(course, reply).previous == course.previous,
        course.phase matches Phase::Over(result) ==> moved(course, reply) == course,
{
}

/// What a rollback does with one profile: it is taken out and its snapshot deleted, and the previous
/// version, if there was any, is built, installed and stored again. Then the profile before it in the
/// list comes, until none is left.
pub proof fn rollbacks_go_from_last_to_first(rollback: Return)
    requires
        0 < rollback.left <= rollback.completed.len(),
        rollback.undoing is Removing,
    ensures
        ({
            let item = rollback.completed[rollback.left - 1];
            let first = rollback::moved(rollback, Ok(()));
            let second = rollback::moved(first, Ok(()));
            let third = rollback::moved(second, Ok(()));
            let fourth = rollback::moved(third, Ok(()));
            let fifth = rollback::moved(fourth, Ok(()));
            let next = Return { left: (rollback.left - 1) as nat, ..rollback };
            &&& rollback::asked(rollback) == Some(Work::Teardown(item.current))
            &&& rollback::asked(first) == Some(Work::RemoveState(item.current.id))
            &&& item.previous is None ==> second == next
            &&& item.previous matches Some(old) ==> {
                &&& rollback::asked(second) == Some(Work::Prepare(old))
                &&& rollback::asked(third) == Some(Work::Install(old))
                &&& rollback::asked(fourth) == Some(Work::Save(old))
                &&& fifth == next
            }
        }),
        rollback::begun(rollback.completed).left == rollback.completed.len(),
        rollback::begun(rollback.completed).completed == rollback.completed,
        rollback::begun(rollback.completed).undoing is Removing,
        rollback::begun(rollback.completed).failures.len() == 0,
        rollback::asked(Return { left: 0, ..rollback }) is None,
{
}

/// A failure in a rollback is noted, with the profile and with what could not be done, and the rest
/// of that profile is left: the rollback goes on with the one before it.
pub proof fn rollbacks_go_on_after_failures(rollback: Return, message: Seq<char>)
    requires
        0 < rollback.left <= rollback.completed.len(),
    ensures
        ({
            let item = rollback.completed[rollback.left - 1];
            let next = rollback::moved(rollback, Err(message));
            &&& next.left == rollback.left - 1
            &&& next.undoing is Removing
            &&& next.completed == rollback.completed
            &&& rollback.undoing is Removing || rollback.undoing is Forgetting ==> next.failures
                == rollback.failures.push("could not remove "@ + shown(item.current.id) + ": "@ + message)
            &&& !(rollback.undoing is Removing || rollback.undoing is Forgetting) ==> next.failures
                == rollback.failures.push(
                "could not restore "@ + shown(item.previous->Some_0.id) + ": "@ + message,
            )
        }),
{
}

/// A rollback succeeds exactly where nothing was noted, and otherwise tells all that was, in its
/// order, with semicolons between.
pub proof fn rollbacks_tell_every_failure(rollback: Return, first: Seq<char>, more: Seq<Seq<char>>)
    requires
        more.len() > 0,
    ensures
        concluded(rollback) is Ok <==> rollback.failures.len() == 0,
        rollback.failures == seq![first] ==> concluded(rollback) == Err::<(), Seq<char>>(first),
        rollback.failures == more.push(first) ==> concluded(rollback) == Err::<(), Seq<char>>(
            joined(more, "; "@) + "; "@ + first,
        ),
        joined(seq![first], "; "@) == first,
        joined(more.push(first), "; "@) == joined(more, "; "@) + "; "@ + first,
{
    assert(more.push(first).drop_last() =~= more);
    assert(more.push(first).last() == first);
}

/// Before anything is changed, a batch builds every profile, and then loads and checks every one, in
/// their order. What fails there ends the batch with what failed.
pub proof fn batches_build_and_check_first(
    plan: Plan,
    index: nat,
    previous: Option<Profile>,
    message: Seq<char>,
)
    requires
        index < plan.profiles.len(),
        plan.completed.len() == 0,
    ensures
        ({
            let start = batch::begun(plan.profiles);
            let building = Plan { phase: BatchPhase::Preparing(index), ..plan };
            let consulting = Plan { phase: BatchPhase::Consulting(index), ..plan };
            let checking = Plan { phase: BatchPhase::Checking(index, previous), ..plan };
            let last = index + 1 == plan.profiles.len();
            &&& batch::asked(start) == Some(BatchWork::Prepare(0))
            &&& start.completed.len() == 0 && start.profiles == plan.profiles
            &&& batch::asked(building) == Some(BatchWork::Prepare(index))
            &&& batch::asked(batch::moved(building, Report::Done(Ok(())))) == Some(
                if last {
                    BatchWork::Load(0)
                } else {
                    BatchWork::Prepare(index + 1)
                },
            )
            &&& last ==> batch::moved(building, Report::Done(Ok(()))).phase
                == BatchPhase::Consulting(0)
            &&& batch::asked(consulting) == Some(BatchWork::Load(index))
            &&& batch::moved(consulting, Report::Loaded(Ok(previous))) == checking
            &&& batch::asked(checking) == Some(BatchWork::Preflight(index, previous))
            &&& batch::moved(checking, Report::Done(Ok(()))).phase == if last {
                BatchPhase::Loading(0)
            } else {
                BatchPhase::Consulting(index + 1)
            }
            &&& batch::moved(building, Report::Done(Err(message))).phase == BatchPhase::Over(
                Err(message),
            )
            &&& batch::moved(consulting, Report::Loaded(Err(message))).phase == BatchPhase::Over(
                Err(message),
            )
            &&& batch::moved(checking, Report::Done(Err(message))).phase == BatchPhase::Over(
                Err(message),
            )
        }),
{
}

/// A batch without profiles is over at once.
pub proof fn empty_batches_are_over()
    ensures
        batch::begun(Seq::empty()).phase == BatchPhase::Over(Ok(0)),
{
}

/// Where a batch goes once it is done with a profile: on to the next, or to its end, with the number
/// of profiles that it has replaced.
pub open spec fn goes_on(plan: Plan, index: nat, next: Plan, completed: Seq<Exchange>) -> bool {
    &&& next.profiles == plan.profiles
    &&& next.completed == completed
    &&& next.phase == if index + 1 < plan.profiles.len() {
        BatchPhase::Loading(index + 1)
    } else {
        BatchPhase::Over(Ok(completed.len()))
    }
}

/// A batch replaces exactly the profiles that differ from their snapshots or are not in force, and
/// remembers each that it has replaced, with its previous version.
pub proof fn batches_replace_what_differs(plan: Plan, index: nat, previous: Option<Profile>)
    requires
        index < plan.profiles.len(),
    ensures
        ({
            let loading = Plan { phase: BatchPhase::Loading(index), ..plan };
            let observing = Plan { phase: BatchPhase::Observing(index, previous), ..plan };
            let replacing = Plan { phase: BatchPhase::Replacing(index, previous), ..plan };
            let profile = plan.profiles[index as int];
            let same = previous matches Some(old) && same_profile(old, profile);
            &&& batch::asked(loading) == Some(BatchWork::Load(index))
            &&& batch::moved(loading, Report::Loaded(Ok(previous))) == if same {
                observing
            } else {
                replacing
            }
            &&& batch::asked(observing) == Some(BatchWork::Observe(index))
            &&& goes_on(
                plan,
                index,
                batch::moved(observing, Report::Observed(Ok(true))),
                plan.completed,
            )
            &&& batch::moved(observing, Report::Observed(Ok(false))) == replacing
            &&& batch::asked(replacing) == Some(BatchWork::Replace(index, previous))
            &&& goes_on(
                plan,
                index,
                batch::moved(replacing, Report::Done(Ok(()))),
                plan.completed.push(Exchange { current: profile, previous }),
            )
        }),
{
}

/// Whatever fails once a batch has begun to change the system, what it has replaced is rolled back,
/// and then the batch ends with what failed, and with what failed of the rollback.
pub proof fn batches_roll_back(
    plan: Plan,
    index: nat,
    previous: Option<Profile>,
    message: Seq<char>,
    trouble: Seq<char>,
)
    ensures
        ({
            let loading = Plan { phase: BatchPhase::Loading(index), ..plan };
            let observing = Plan { phase: BatchPhase::Observing(index, previous), ..plan };
            let replacing = Plan { phase: BatchPhase::Replacing(index, previous), ..plan };
            let back = Plan { phase: BatchPhase::RollingBack(message), ..plan };
            &&& batch::moved(loading, Report::Loaded(Err(message))) == back
            &&& batch::moved(observing, Report::Observed(Err(message))) == back
            &&& batch::moved(replacing, Report::Done(Err(message))) == back
            &&& batch::asked(back) == Some(BatchWork::RollBack)
            &&& batch::moved(back, Report::Done(Ok(()))).phase == BatchPhase::Over(Err(message))
            &&& batch::moved(back, Report::Done(Err(trouble))).phase == BatchPhase::Over(
                Err("Rolling back earlier profiles also failed: "@ + trouble + ": "@ + message),
            )
        }),
{
}

/// What a removal does: without a snapshot nothing, and otherwise the profile of the snapshot is
/// taken out and then the snapshot is deleted.
pub proof fn removals_do_this(profile: Profile, message: Seq<char>)
    ensures
        after_loading(Err(message)) == RemovalPhase::Over(Err(message)),
        after_loading(Ok(None)) == RemovalPhase::Over(Ok(false)),
        after_loading(Ok(Some(profile))) == RemovalPhase::TearingDown(profile),
        after_work(RemovalPhase::TearingDown(profile), Ok(())) == RemovalPhase::Forgetting,
        after_work(RemovalPhase::TearingDown(profile), Err(message)) == RemovalPhase::Over(
            Err(message),
        ),
        after_work(RemovalPhase::Forgetting, Ok(())) == RemovalPhase::Over(Ok(true)),
        after_work(RemovalPhase::Forgetting, Err(message)) == RemovalPhase::Over(Err(message)),
{
}

/// A procedure takes its steps in order, each with its first command and then with the one that
/// follows from the answer, and it is over where all are taken or one failed.
pub proof fn procedures_take_their_steps_in_order(tasks: Seq<Task>, done: nat, answer: Answer)
    requires
        done < tasks.len(),
        opening(tasks[done as int]) is Ok,
    ensures
        ({
            let run = Run { tasks, done, further: None, failure: None };
            let task = tasks[done as int];
            let next = continued(run, answer);
            &&& fresh(tasks).done == 0 && fresh(tasks).tasks == tasks
            &&& fresh(tasks).further is None && fresh(tasks).failure is None
            &&& standing(run) == Standing::Waiting(opening(task)->Ok_0)
            &&& next.tasks == tasks
            &&& reaction(task, answer) == Ok::<Option<crate::command::Call>, Seq<char>>(None)
                ==> next.done == done + 1 && next.further is None && next.failure is None
            &&& reaction(task, answer) matches Ok(Some(call)) ==> next.done == done && standing(next)
                == Standing::Waiting(Request::Run(call))
            &&& reaction(task, answer) matches Err(message) ==> standing(next) == Standing::Over(
                Err(message),
            )
        }),
        standing(Run { tasks, done: tasks.len(), further: None, failure: None }) == Standing::Over(
            Ok(()),
        ),
{
}

/// The second command of a step: where it succeeds the step is taken, and otherwise the procedure is
/// over.
pub proof fn procedures_finish_each_step(
    tasks: Seq<Task>,
    done: nat,
    call: crate::command::Call,
    ran: Result<crate::command::Output, crate::error::Error>,
    missing: crate::error::Error,
)
    requires
        done < tasks.len(),
    ensures
        ({
            let run = Run { tasks, done, further: Some(call), failure: None };
            let task = tasks[done as int];
            let next = continued(run, Answer::Ran(ran));
            &&& standing(run) == Standing::Waiting(Request::Run(call))
            &&& closing(task, outcome(ran)) is Ok ==> next == (Run {
                tasks,
                done: done + 1,
                further: None,
                failure: None,
            })
            &&& closing(task, outcome(ran)) matches Err(message) ==> standing(next) == Standing::Over(
                Err(message),
            )
            &&& standing(continued(run, Answer::Missing(missing))) == Standing::Over(Err(missing@))
        }),
{
}

/// How a snapshot is stored: under a temporary name, with nothing but root let in, on disk before it
/// takes its place, and then its directory too.
pub proof fn snapshots_are_stored_in_this_order(id: u128, contents: Seq<u8>)
    ensures
        ({
            let temporary = "/var/lib/microvisor/profiles"@ + "/"@ + shown(id) + ".json.tmp"@;
            let place = "/var/lib/microvisor/profiles"@ + "/"@ + shown(id) + ".json"@;
            &&& state_file(id) == place
            &&& temporary_file(id) == temporary
            &&& storage(id, contents) == seq![
                Keeping::Create { path: temporary, mode: 0o600 },
                Keeping::Write { path: temporary, contents },
                Keeping::Sync { path: temporary },
                Keeping::Secure { path: temporary, mode: 0o600 },
                Keeping::Rename { from: temporary, to: place },
                Keeping::SyncDirectory { path: "/var/lib/microvisor/profiles"@ },
            ]
        }),
{
}

/// What a snapshot means: its profile, where it has the current version and the profile is valid, and
/// otherwise the profile of the older form, where it can be read as such.
pub proof fn snapshots_mean_their_profiles(
    state: AppliedState,
    old: LegacyAppliedProfile,
    legacy: Result<LegacyAppliedProfile, Seq<char>>,
    current_message: Seq<char>,
    legacy_message: Seq<char>,
)
    ensures
        restored(Ok(state), legacy) is Ok <==> state.state_schema_version == 1 && profile_fault(
            state.profile@,
        ) is None,
        restored(Ok(state), legacy) is Ok ==> restored(Ok(state), legacy) == Ok::<Profile, Seq<char>>(
            state.profile@,
        ),
        state.state_schema_version != 1 ==> restored(Ok(state), legacy) == Err::<Profile, Seq<char>>(
            "Unsupported applied-state schema version "@ + decimal(state.state_schema_version as nat),
        ),
        state.state_schema_version == 1 && profile_fault(state.profile@) is Some ==> restored(
            Ok(state),
            legacy,
        ) == Err::<Profile, Seq<char>>(profile_fault(state.profile@)->Some_0),
        restored(Err(current_message), Ok(old)) matches Ok(profile) ==> {
            &&& profile.schema_version == 1
            &&& profile.id == old.id
            &&& profile.name == old.name@
            &&& profile.executable == old.executable@
            &&& profile.data_directories == crate::text::strings(old.data_directories@)
            &&& profile.launch_domain == old.launch_domain@
            &&& profile.launch_role == old.launch_role@
            &&& profile.block_ptrace == old.block_ptrace
            &&& profile.block_fd_use == old.block_fd_use
            &&& profile_fault(profile) is None
        },
        restored(Err(current_message), Err(legacy_message)) == Err::<Profile, Seq<char>>(
            "Invalid current state ("@ + current_message + ") and invalid legacy state"@ + ": "@
                + legacy_message,
        ),
{
}

/// A stored profile is there exactly where its file is, could be read and could be understood.
pub proof fn stored_profiles_are_told_apart(
    path: Seq<char>,
    profile: Profile,
    message: Seq<char>,
    state: Result<Profile, Seq<char>>,
    unread: Option<Seq<char>>,
)
    ensures
        optional_state(path, Err(message), unread, state) == Err::<Option<Profile>, Seq<char>>(
            message,
        ),
        optional_state(path, Ok(false), unread, state) == Ok::<Option<Profile>, Seq<char>>(None),
        optional_state(path, Ok(true), Some(message), state) == Err::<Option<Profile>, Seq<char>>(
            "Could not read stored profile "@ + path + ": "@ + message,
        ),
        optional_state(path, Ok(true), None, Ok(profile)) == Ok::<Option<Profile>, Seq<char>>(
            Some(profile),
        ),
        optional_state(path, Ok(true), None, Err(message)) == Err::<Option<Profile>, Seq<char>>(
            message,
        ),
{
}

} // verus!
