//! Applying a set of profiles. Everything is built and checked before anything is changed, and
//! where a profile cannot be applied, those before it are taken back.

use crate::engine::normalize::Findings;
use crate::engine::overlap::{findings_fit, validate_profiles_with_applied, validated};
use crate::engine::rollback::{exchanges, Exchange, Replacement};
use crate::engine::state::optional_profile;
use crate::error::{in_context, outcome, Error};
use crate::model::{profiles, same_profile, Profile, ProtectionProfile};
use crate::text::text2;
use vstd::prelude::*;

verus! {

/// What a batch asks to be done. Profiles are named by their place in the batch.
#[derive(Debug)]
pub enum BatchAct {
    /// Build the modules of a profile.
    Prepare(usize),
    /// Load the snapshot of a profile.
    Load(usize),
    /// Make sure that nothing foreign is in the way of a profile, given its applied version.
    Preflight(usize, Option<ProtectionProfile>),
    /// Find out whether a profile is in force.
    Observe(usize),
    /// Replace the applied version of a profile.
    Replace(usize, Option<ProtectionProfile>),
    /// Take back the profiles that were replaced.
    RollBack,
}

/// What a batch asks to be done, as a value.
pub enum BatchWork {
    Prepare(nat),
    Load(nat),
    Preflight(nat, Option<Profile>),
    Observe(nat),
    Replace(nat, Option<Profile>),
    RollBack,
}

/// What an optional profile holds.
pub open spec fn held(profile: Option<ProtectionProfile>) -> Option<Profile> {
    match profile {
        Some(profile) => Some(profile@),
        None => None,
    }
}

impl View for BatchAct {
    type V = BatchWork;

    open spec fn view(&self) -> BatchWork {
        match self {
            BatchAct::Prepare(index) => BatchWork::Prepare(*index as nat),
            BatchAct::Load(index) => BatchWork::Load(*index as nat),
            BatchAct::Preflight(index, previous) => BatchWork::Preflight(
                *index as nat,
                held(*previous),
            ),
            BatchAct::Observe(index) => BatchWork::Observe(*index as nat),
            BatchAct::Replace(index, previous) => BatchWork::Replace(
                *index as nat,
                held(*previous),
            ),
            BatchAct::RollBack => BatchWork::RollBack,
        }
    }
}

pub open spec fn requested(act: Option<BatchAct>) -> Option<BatchWork> {
    match act {
        Some(act) => Some(act@),
        None => None,
    }
}

/// What came of what a batch asked for.
#[derive(Debug)]
pub enum BatchReply {
    Done(Result<(), Error>),
    Loaded(Result<Option<ProtectionProfile>, Error>),
    Observed(Result<bool, Error>),
}

/// What came of what a batch asked for, as a value.
pub enum Report {
    Done(Result<(), Seq<char>>),
    Loaded(Result<Option<Profile>, Seq<char>>),
    Observed(Result<bool, Seq<char>>),
}

impl View for BatchReply {
    type V = Report;

    open spec fn view(&self) -> Report {
        match self {
            BatchReply::Done(result) => Report::Done(outcome(*result)),
            BatchReply::Loaded(result) => Report::Loaded(optional_profile(*result)),
            BatchReply::Observed(result) => Report::Observed(outcome(*result)),
        }
    }
}

/// Where a batch stands.
#[derive(Debug)]
pub enum BatchStage {
    /// The modules of a profile are being built.
    Preparing(usize),
    /// The snapshot of a profile is being loaded, to check the profile against it.
    Consulting(usize),
    /// A profile is being checked.
    Checking(usize, Option<ProtectionProfile>),
    /// The snapshot of a profile is being loaded, to replace the applied version.
    Loading(usize),
    /// A profile whose snapshot is up to date is being looked at.
    Observing(usize, Option<ProtectionProfile>),
    /// The applied version of a profile is being replaced.
    Replacing(usize, Option<ProtectionProfile>),
    /// A profile failed, and the ones that were replaced before it are being taken back.
    RollingBack(Error),
    /// The batch is over. Where it succeeded, it says how many profiles were replaced.
    Over(Result<usize, Error>),
}

/// Where a batch stands, as a value.
pub enum BatchPhase {
    Preparing(nat),
    Consulting(nat),
    Checking(nat, Option<Profile>),
    Loading(nat),
    Observing(nat, Option<Profile>),
    Replacing(nat, Option<Profile>),
    RollingBack(Seq<char>),
    Over(Result<nat, Seq<char>>),
}

impl View for BatchStage {
    type V = BatchPhase;

    open spec fn view(&self) -> BatchPhase {
        match self {
            BatchStage::Preparing(index) => BatchPhase::Preparing(*index as nat),
            BatchStage::Consulting(index) => BatchPhase::Consulting(*index as nat),
            BatchStage::Checking(index, previous) => BatchPhase::Checking(
                *index as nat,
                held(*previous),
            ),
            BatchStage::Loading(index) => BatchPhase::Loading(*index as nat),
            BatchStage::Observing(index, previous) => BatchPhase::Observing(
                *index as nat,
                held(*previous),
            ),
            BatchStage::Replacing(index, previous) => BatchPhase::Replacing(
                *index as nat,
                held(*previous),
            ),
            BatchStage::RollingBack(error) => BatchPhase::RollingBack(error@),
            BatchStage::Over(result) => BatchPhase::Over(
                match *result {
                    Ok(count) => Ok(count as nat),
                    Err(error) => Err(error@),
                },
            ),
        }
    }
}

/// Applying a set of profiles.
#[derive(Debug)]
pub struct Batch {
    pub profiles: Vec<ProtectionProfile>,
    pub stage: BatchStage,
    /// The profiles that were replaced so far.
    pub completed: Vec<Replacement>,
}

/// Applying a set of profiles, as a value.
pub struct Plan {
    pub profiles: Seq<Profile>,
    pub phase: BatchPhase,
    pub completed: Seq<Exchange>,
}

impl View for Batch {
    type V = Plan;

    open spec fn view(&self) -> Plan {
        Plan {
            profiles: profiles(self.profiles@),
            phase: self.stage@,
            completed: exchanges(self.completed@),
        }
    }
}

/// The place of the profile that a batch is at.
pub open spec fn place(phase: BatchPhase) -> Option<nat> {
    match phase {
        BatchPhase::Preparing(index) => Some(index),
        BatchPhase::Consulting(index) => Some(index),
        BatchPhase::Checking(index, _) => Some(index),
        BatchPhase::Loading(index) => Some(index),
        BatchPhase::Observing(index, _) => Some(index),
        BatchPhase::Replacing(index, _) => Some(index),
        _ => None,
    }
}

/// Whether a batch stands where it can.
pub open spec fn is_sound(plan: Plan) -> bool {
    place(plan.phase) matches Some(index) ==> index < plan.profiles.len()
}

/// A batch before anything is done.
pub open spec fn begun(list: Seq<Profile>) -> Plan {
    let phase = if list.len() == 0 {
        BatchPhase::Over(Ok(0))
    } else {
        BatchPhase::Preparing(0)
    };
    Plan { profiles: list, phase, completed: Seq::empty() }
}

/// What a batch asks to be done next.
pub open spec fn asked(plan: Plan) -> Option<BatchWork> {
    match plan.phase {
        BatchPhase::Preparing(index) => Some(BatchWork::Prepare(index)),
        BatchPhase::Consulting(index) => Some(BatchWork::Load(index)),
        BatchPhase::Checking(index, previous) => Some(BatchWork::Preflight(index, previous)),
        BatchPhase::Loading(index) => Some(BatchWork::Load(index)),
        BatchPhase::Observing(index, _) => Some(BatchWork::Observe(index)),
        BatchPhase::Replacing(index, previous) => Some(BatchWork::Replace(index, previous)),
        BatchPhase::RollingBack(_) => Some(BatchWork::RollBack),
        BatchPhase::Over(_) => None,
    }
}

/// Whether a reply is one to what a batch asked for.
pub open spec fn fits(plan: Plan, report: Report) -> bool {
    match asked(plan) {
        None => false,
        Some(BatchWork::Load(_)) => report is Loaded,
        Some(BatchWork::Observe(_)) => report is Observed,
        Some(_) => report is Done,
    }
}

/// Where a batch stands when it is done with the profile at an index.
pub open spec fn behind(plan: Plan, index: nat, completed: Seq<Exchange>) -> Plan {
    let phase = if index + 1 < plan.profiles.len() {
        BatchPhase::Loading(index + 1)
    } else {
        BatchPhase::Over(Ok(completed.len()))
    };
    Plan { phase, completed, ..plan }
}

pub open spec fn at_phase(plan: Plan, phase: BatchPhase) -> Plan {
    Plan { phase, ..plan }
}

pub open spec fn stopped(plan: Plan, message: Seq<char>) -> Plan {
    at_phase(plan, BatchPhase::Over(Err(message)))
}

/// A batch after what it asked for was done, or failed.
pub open spec fn moved(plan: Plan, report: Report) -> Plan {
    match (plan.phase, report) {
        (BatchPhase::Preparing(index), Report::Done(Ok(_))) => if index + 1 < plan.profiles.len() {
            at_phase(plan, BatchPhase::Preparing(index + 1))
        } else {
            at_phase(plan, BatchPhase::Consulting(0))
        },
        (BatchPhase::Preparing(index), Report::Done(Err(message))) => stopped(plan, message),
        (BatchPhase::Consulting(index), Report::Loaded(Ok(previous))) => at_phase(
            plan,
            BatchPhase::Checking(index, previous),
        ),
        (BatchPhase::Consulting(index), Report::Loaded(Err(message))) => stopped(plan, message),
        (BatchPhase::Checking(index, _), Report::Done(Ok(_))) => if index + 1 < plan.profiles.len() {
            at_phase(plan, BatchPhase::Consulting(index + 1))
        } else {
            at_phase(plan, BatchPhase::Loading(0))
        },
        (BatchPhase::Checking(index, _), Report::Done(Err(message))) => stopped(plan, message),
        (BatchPhase::Loading(index), Report::Loaded(Ok(previous))) => if previous matches Some(old)
            && same_profile(old, plan.profiles[index as int]) {
            at_phase(plan, BatchPhase::Observing(index, previous))
        } else {
            at_phase(plan, BatchPhase::Replacing(index, previous))
        },
        (BatchPhase::Loading(index), Report::Loaded(Err(message))) => at_phase(
            plan,
            BatchPhase::RollingBack(message),
        ),
        (BatchPhase::Observing(index, previous), Report::Observed(Ok(true))) => behind(
            plan,
            index,
            plan.completed,
        ),
        (BatchPhase::Observing(index, previous), Report::Observed(Ok(false))) => at_phase(
            plan,
            BatchPhase::Replacing(index, previous),
        ),
        (BatchPhase::Observing(index, _), Report::Observed(Err(message))) => at_phase(
            plan,
            BatchPhase::RollingBack(message),
        ),
        (BatchPhase::Replacing(index, previous), Report::Done(Ok(_))) => behind(
            plan,
            index,
            plan.completed.push(Exchange { current: plan.profiles[index as int], previous }),
        ),
        (BatchPhase::Replacing(index, _), Report::Done(Err(message))) => at_phase(
            plan,
            BatchPhase::RollingBack(message),
        ),
        (BatchPhase::RollingBack(first), Report::Done(Ok(_))) => stopped(plan, first),
        (BatchPhase::RollingBack(first), Report::Done(Err(message))) => stopped(
            plan,
            in_context(first, "Rolling back earlier profiles also failed: "@ + message),
        ),
        _ => plan,
    }
}

impl Batch {
    /// A batch before anything is done.
    pub fn new(list: Vec<ProtectionProfile>) -> (result: Self)
        ensures
            result@ == begun(profiles(list@)),
            is_sound(result@),
    {
        let completed: Vec<Replacement> = Vec::new();
        assert(exchanges(completed@) =~= Seq::<Exchange>::empty());
        assert(profiles(list@).len() == list@.len());
        let stage = if list.len() == 0 {
            BatchStage::Over(Ok(0))
        } else {
            BatchStage::Preparing(0)
        };
        Batch { profiles: list, stage, completed }
    }

    /// What is to be done next, until the batch is over.
    pub fn next(&self) -> (result: Option<BatchAct>)
        ensures
            requested(result) == asked(self@),
    {
        match &self.stage {
            BatchStage::Preparing(index) => Some(BatchAct::Prepare(*index)),
            BatchStage::Consulting(index) => Some(BatchAct::Load(*index)),
            BatchStage::Checking(index, previous) => Some(
                BatchAct::Preflight(*index, copy(previous)),
            ),
            BatchStage::Loading(index) => Some(BatchAct::Load(*index)),
            BatchStage::Observing(index, _) => Some(BatchAct::Observe(*index)),
            BatchStage::Replacing(index, previous) => Some(
                BatchAct::Replace(*index, copy(previous)),
            ),
            BatchStage::RollingBack(_) => Some(BatchAct::RollBack),
            BatchStage::Over(_) => None,
        }
    }

    /// Takes what came of what was asked for.
    pub fn advance(self, reply: BatchReply) -> (result: Self)
        requires
            is_sound(self@),
            fits(self@, reply@),
        ensures
            result@ == moved(self@, reply@),
            is_sound(result@),
    {
        let Batch { profiles: list, stage, completed } = self;
        let mut completed = completed;
        let stage = match reply {
            BatchReply::Done(done) => after_done(&list, &mut completed, stage, done),
            BatchReply::Loaded(loaded) => after_loading(&list, &completed, stage, loaded),
            BatchReply::Observed(observed) => after_observing(&list, &completed, stage, observed),
        };
        Batch { profiles: list, stage, completed }
    }
}

/// What a result with a batch says.
pub open spec fn batched(result: Result<Batch, Error>) -> Result<Plan, Seq<char>> {
    match result {
        Ok(batch) => Ok(batch@),
        Err(error) => Err(error@),
    }
}

/// Validates desired profiles against what is applied, and begins to apply them.
pub fn apply_profiles(
    list: Vec<ProtectionProfile>,
    applied: &Vec<ProtectionProfile>,
    findings: &Vec<Findings>,
) -> (result: Result<Batch, Error>)
    requires
        findings_fit(list@, findings@),
    ensures
        batched(result) == match validated(profiles(list@), profiles(applied@), findings@) {
            Err(message) => Err::<Plan, Seq<char>>(message),
            Ok(accepted) => Ok(begun(accepted)),
        },
        result matches Ok(batch) ==> is_sound(batch@),
{
    match validate_profiles_with_applied(list, applied, findings) {
        Err(error) => Err(error),
        Ok(accepted) => Ok(Batch::new(accepted)),
    }
}

/// The value of a batch that is made of these parts.
pub open spec fn plan_of(
    list: Vec<ProtectionProfile>,
    stage: BatchStage,
    completed: Vec<Replacement>,
) -> Plan {
    Plan { profiles: profiles(list@), phase: stage@, completed: exchanges(completed@) }
}

fn stage_behind(
    list: &Vec<ProtectionProfile>,
    completed: &Vec<Replacement>,
    index: usize,
) -> (result: BatchStage)
    requires
        index < list@.len(),
    ensures
        forall|plan: Plan|
            plan.profiles == profiles(list@) ==> #[trigger] behind(
                plan,
                index as nat,
                exchanges(completed@),
            ) == plan_of(*list, result, *completed),
{
    assert(profiles(list@).len() == list@.len());
    assert(exchanges(completed@).len() == completed@.len());
    assert(index < list.len());
    if index + 1 < list.len() {
        BatchStage::Loading(index + 1)
    } else {
        BatchStage::Over(Ok(completed.len()))
    }
}

fn after_done(
    list: &Vec<ProtectionProfile>,
    completed: &mut Vec<Replacement>,
    stage: BatchStage,
    reply: Result<(), Error>,
) -> (result: BatchStage)
    requires
        is_sound(plan_of(*list, stage, *old(completed))),
        fits(plan_of(*list, stage, *old(completed)), Report::Done(outcome(reply))),
    ensures
        plan_of(*list, result, *final(completed)) == moved(
            plan_of(*list, stage, *old(completed)),
            Report::Done(outcome(reply)),
        ),
        is_sound(plan_of(*list, result, *final(completed))),
{
    assert(profiles(list@).len() == list@.len());
    assert(list.len() == list@.len());
    match stage {
        BatchStage::Preparing(index) => match reply {
            Ok(_) => if index + 1 < list.len() {
                BatchStage::Preparing(index + 1)
            } else {
                BatchStage::Consulting(0)
            },
            Err(error) => BatchStage::Over(Err(error)),
        },
        BatchStage::Checking(index, _) => match reply {
            Ok(_) => if index + 1 < list.len() {
                BatchStage::Consulting(index + 1)
            } else {
                BatchStage::Loading(0)
            },
            Err(error) => BatchStage::Over(Err(error)),
        },
        BatchStage::Replacing(index, previous) => match reply {
            Ok(_) => {
                let ghost before = completed@;
                assert(profiles(list@)[index as int] == list@[index as int]@);
                let current = list[index].clone();
                let replacement = Replacement { current, previous };
                completed.push(replacement);
                assert(exchanges(completed@) =~= exchanges(before).push(replacement@));
                stage_behind(list, completed, index)
            },
            Err(error) => BatchStage::RollingBack(error),
        },
        BatchStage::RollingBack(first) => match reply {
            Ok(_) => BatchStage::Over(Err(first)),
            Err(error) => {
                let context = text2(
                    "Rolling back earlier profiles also failed: ",
                    error.message.as_str(),
                );
                BatchStage::Over(Err(first.context(context.as_str())))
            },
        },
        other => other,
    }
}

fn after_loading(
    list: &Vec<ProtectionProfile>,
    completed: &Vec<Replacement>,
    stage: BatchStage,
    reply: Result<Option<ProtectionProfile>, Error>,
) -> (result: BatchStage)
    requires
        is_sound(plan_of(*list, stage, *completed)),
        fits(plan_of(*list, stage, *completed), Report::Loaded(optional_profile(reply))),
    ensures
        plan_of(*list, result, *completed) == moved(
            plan_of(*list, stage, *completed),
            Report::Loaded(optional_profile(reply)),
        ),
        is_sound(plan_of(*list, result, *completed)),
{
    assert(profiles(list@).len() == list@.len());
    match stage {
        BatchStage::Consulting(index) => match reply {
            Ok(previous) => BatchStage::Checking(index, previous),
            Err(error) => BatchStage::Over(Err(error)),
        },
        BatchStage::Loading(index) => match reply {
            Ok(previous) => {
                assert(profiles(list@)[index as int] == list@[index as int]@);
                let current = match &previous {
                    Some(old) => *old == list[index],
                    None => false,
                };
                if current {
                    BatchStage::Observing(index, previous)
                } else {
                    BatchStage::Replacing(index, previous)
                }
            },
            Err(error) => BatchStage::RollingBack(error),
        },
        other => other,
    }
}

fn after_observing(
    list: &Vec<ProtectionProfile>,
    completed: &Vec<Replacement>,
    stage: BatchStage,
    reply: Result<bool, Error>,
) -> (result: BatchStage)
    requires
        is_sound(plan_of(*list, stage, *completed)),
        fits(plan_of(*list, stage, *completed), Report::Observed(outcome(reply))),
    ensures
        plan_of(*list, result, *completed) == moved(
            plan_of(*list, stage, *completed),
            Report::Observed(outcome(reply)),
        ),
        is_sound(plan_of(*list, result, *completed)),
{
    assert(profiles(list@).len() == list@.len());
    match stage {
        BatchStage::Observing(index, previous) => match reply {
            Ok(true) => stage_behind(list, completed, index),
            Ok(false) => BatchStage::Replacing(index, previous),
            Err(error) => BatchStage::RollingBack(error),
        },
        other => other,
    }
}

fn copy(profile: &Option<ProtectionProfile>) -> (result: Option<ProtectionProfile>)
    ensures
        held(result) == held(*profile),
{
    match profile {
        Some(profile) => Some(profile.clone()),
        None => None,
    }
}

/// How far a batch is from its end.
pub open spec fn remaining(plan: Plan) -> int {
    let size = plan.profiles.len();
    match plan.phase {
        BatchPhase::Preparing(index) => (size - index) + 2 * size + 3 * size + 2,
        BatchPhase::Consulting(index) => 2 * (size - index) + 3 * size + 2,
        BatchPhase::Checking(index, _) => 2 * (size - index) - 1 + 3 * size + 2,
        BatchPhase::Loading(index) => 3 * (size - index) + 2,
        BatchPhase::Observing(index, _) => 3 * (size - index) - 1 + 2,
        BatchPhase::Replacing(index, _) => 3 * (size - index) - 2 + 2,
        BatchPhase::RollingBack(_) => 1,
        BatchPhase::Over(_) => 0,
    }
}

/// Every reply brings a batch closer to its end, whatever fails.
pub proof fn batches_end(plan: Plan, report: Report)
    requires
        is_sound(plan),
        fits(plan, report),
    ensures
        is_sound(moved(plan, report)),
        0 <= remaining(moved(plan, report)) < remaining(plan),
        remaining(moved(plan, report)) == 0 <==> asked(moved(plan, report)) is None,
{
}

/// Whether something came out well.
pub open spec fn is_success(report: Report) -> bool {
    match report {
        Report::Done(result) => result is Ok,
        Report::Loaded(result) => result is Ok,
        Report::Observed(result) => result is Ok,
    }
}

/// A batch after a list of replies.
pub open spec fn after(plan: Plan, reports: Seq<Report>) -> Plan
    decreases reports.len(),
{
    if reports.len() == 0 {
        plan
    } else {
        moved(after(plan, reports.drop_last()), reports.last())
    }
}

/// Whether each reply of a list is one to what a batch asked for then.
pub open spec fn all_fit(plan: Plan, reports: Seq<Report>) -> bool
    decreases reports.len(),
{
    reports.len() == 0 || (all_fit(plan, reports.drop_last()) && fits(
        after(plan, reports.drop_last()),
        reports.last(),
    ))
}

/// Whether a batch has come to the point from which on it changes the system.
pub open spec fn is_changing(phase: BatchPhase) -> bool {
    match phase {
        BatchPhase::Preparing(_) => false,
        BatchPhase::Consulting(_) => false,
        BatchPhase::Checking(_, _) => false,
        BatchPhase::Over(result) => result is Ok,
        _ => true,
    }
}

/// Where a batch of `size` profiles stands after `count` replies that came out well, before it
/// changes anything.
pub open spec fn is_scheduled(phase: BatchPhase, size: nat, count: int) -> bool {
    if count < size {
        phase == BatchPhase::Preparing(count as nat)
    } else if count < 3 * size && (count - size) % 2 == 0 {
        phase == BatchPhase::Consulting(((count - size) / 2) as nat)
    } else if count < 3 * size {
        phase matches BatchPhase::Checking(index, _) && index == (count - size) / 2
    } else {
        is_changing(phase) || (phase matches BatchPhase::Over(result) && result is Err)
    }
}

proof fn lemma_schedule(list: Seq<Profile>, reports: Seq<Report>)
    requires
        list.len() > 0,
        all_fit(begun(list), reports),
    ensures
        after(begun(list), reports).profiles == list,
        forall|i: int|
            0 <= i < reports.len() && i < 3 * list.len() && !is_success(#[trigger] reports[i]) ==> {
                after(begun(list), reports).phase matches BatchPhase::Over(result) && result is Err
            },
        (forall|i: int|
            0 <= i < reports.len() && i < 3 * list.len() ==> is_success(#[trigger] reports[i]))
            ==> is_scheduled(after(begun(list), reports).phase, list.len(), reports.len() as int),
    decreases reports.len(),
{
    let size = list.len();
    if reports.len() > 0 {
        let earlier = reports.drop_last();
        lemma_schedule(list, earlier);
        let before = after(begun(list), earlier);
        let count = earlier.len() as int;
        let last = reports.last();
        let plan = moved(before, last);
        assert forall|i: int|
            0 <= i < reports.len() && i < 3 * list.len() && !is_success(
                #[trigger] reports[i],
            ) implies {
            plan.phase matches BatchPhase::Over(result) && result is Err
        } by {
            if i < count {
                assert(earlier[i] == reports[i]);
                assert(!is_success(earlier[i]));
                assert(asked(before) is None);
            } else if exists|k: int| 0 <= k < count && !is_success(#[trigger] earlier[k]) {
                assert(asked(before) is None);
            } else {
                assert(is_scheduled(before.phase, size, count));
            }
        }
        if forall|i: int| 0 <= i < reports.len() && i < 3 * size ==> is_success(
            #[trigger] reports[i],
        ) {
            assert forall|i: int| 0 <= i < earlier.len() && i < 3 * size implies is_success(
                #[trigger] earlier[i],
            ) by {
                assert(is_success(reports[i]));
            }
            assert(is_scheduled(before.phase, size, count));
            if count < 3 * size {
                assert(is_success(reports[count]));
            }
        }
    }
}

/// Nothing is changed before everything was built and checked: a batch that has come to that point
/// has had a good reply for building each profile, and then two for loading the snapshot of each
/// and checking it.
pub proof fn checks_come_before_changes(list: Seq<Profile>, reports: Seq<Report>)
    requires
        list.len() > 0,
        all_fit(begun(list), reports),
        is_changing(after(begun(list), reports).phase),
    ensures
        reports.len() >= 3 * list.len(),
        forall|i: int| 0 <= i < 3 * list.len() ==> is_success(#[trigger] reports[i]),
{
    lemma_schedule(list, reports);
    assert forall|i: int| 0 <= i < reports.len() && i < 3 * list.len() implies is_success(
        #[trigger] reports[i],
    ) by {
        if !is_success(reports[i]) {
        }
    }
}

/// A failure to do something, with its message.
pub open spec fn failure_of(report: Report) -> Option<Seq<char>> {
    match report {
        Report::Done(Err(message)) => Some(message),
        Report::Loaded(Err(message)) => Some(message),
        Report::Observed(Err(message)) => Some(message),
        _ => None,
    }
}

/// Whatever fails once profiles may have been replaced, whether a snapshot cannot be loaded, a
/// profile cannot be looked at or cannot be replaced: the ones before it are taken back, and the
/// batch fails with that error.
pub proof fn failed_batches_are_rolled_back(plan: Plan, report: Report, message: Seq<char>)
    requires
        plan.phase is Loading || plan.phase is Observing || plan.phase is Replacing,
        fits(plan, report),
        failure_of(report) == Some(message),
    ensures
        ({
            let failed = moved(plan, report);
            &&& asked(failed) == Some(BatchWork::RollBack)
            &&& failed.completed == plan.completed
            &&& moved(failed, Report::Done(Ok(()))).phase == BatchPhase::Over(
                Err::<nat, Seq<char>>(message),
            )
        }),
{
}

/// Whether a reply does not contradict that a profile is applied as it is asked for and in force.
pub open spec fn confirms(plan: Plan, report: Report) -> bool {
    match plan.phase {
        BatchPhase::Loading(index) => report matches Report::Loaded(Ok(Some(snapshot)))
            && same_profile(snapshot, plan.profiles[index as int]),
        BatchPhase::Observing(_, _) => report == Report::Observed(Ok(true)),
        _ => true,
    }
}

/// Whether no reply of a list contradicts that the profiles are applied as they are asked for and in
/// force.
pub open spec fn all_confirm(plan: Plan, reports: Seq<Report>) -> bool
    decreases reports.len(),
{
    reports.len() == 0 || (all_confirm(plan, reports.drop_last()) && confirms(
        after(plan, reports.drop_last()),
        reports.last(),
    ))
}

/// Applying is idempotent: where every profile turns out to be applied as it is asked for and in
/// force, nothing is ever replaced or taken back, and the batch ends with a count of zero.
pub proof fn applied_batches_change_nothing(list: Seq<Profile>, reports: Seq<Report>)
    requires
        all_fit(begun(list), reports),
        all_confirm(begun(list), reports),
    ensures
        ({
            let plan = after(begun(list), reports);
            &&& plan.completed.len() == 0
            &&& asked(plan) matches Some(work) ==> !(work is Replace) && !(work is RollBack)
            &&& plan.phase matches BatchPhase::Over(Ok(count)) ==> count == 0
        }),
    decreases reports.len(),
{
    if reports.len() > 0 {
        applied_batches_change_nothing(list, reports.drop_last());
        let before = after(begun(list), reports.drop_last());
        assert(fits(before, reports.last()));
        assert(confirms(before, reports.last()));
    }
}

} // verus!
