//! Applying a set of profiles to a system, and then once more.

use crate::engine::batch::{
    after, asked, begun, fits, moved, BatchPhase, BatchWork, Plan, Report,
};
use crate::engine::host::{
    agree_apart_from, expression_of, has_distinct_paths, has_rule, is_own_module, is_own_rule,
    is_protected, separated_paths_differ, Host,
};
use crate::engine::inspection::{signs_of, Sign};
use crate::engine::normalize::{
    is_resolved, normalized_profiles_are_sound, says_the_same, Findings,
};
use crate::engine::overlap::{
    are_distinct, clash_of, clashes_are_symmetric, conflict_fault, examined, is_found_again,
    settled, submitted, validated, validated_ids_are_distinct, validated_sets_are_sound,
    validation_ignores_the_order, validation_is_repeatable, with_id, Submission,
};
use crate::engine::overview::distinct_ids;
use crate::engine::recovery::{
    are_strangers, committed_profiles_are_in_force, lemma_replaced, lemma_replacement_agrees,
    lemma_strangers, replaced, vacated, System,
};
use crate::engine::rollback::Exchange;
use crate::engine::steps::{directory_checks, is_owned, preflight, Task};
use crate::model::{names_of, same_profile, Profile};
use crate::policy::{directory_regex, lemma_valid_paths, profile_fault};
use vstd::prelude::*;

verus! {

/// Whether what an inspection looks for is there.
pub open spec fn is_there(host: Host, sign: Sign) -> bool {
    match sign {
        Sign::Module(module) => host.modules.contains(module),
        Sign::Rule { path, executable } => host.rules.dom().contains(
            expression_of(path, executable),
        ),
    }
}

/// Whether a profile is found in force.
pub open spec fn is_found(host: Host, profile: Profile) -> bool {
    forall|i: int| 0 <= i < signs_of(profile).len() ==> is_there(host, #[trigger] signs_of(profile)[i])
}

/// Whether a check that precedes an installation succeeds.
pub open spec fn holds(host: Host, task: Task) -> bool {
    match task {
        Task::RequireNoModule { module } => !host.modules.contains(module),
        Task::RequireNoRule { path, executable } => !host.rules.dom().contains(
            expression_of(path, executable),
        ),
        _ => true,
    }
}

/// Whether a profile gets in the way of none of those that are stored.
pub open spec fn is_free(system: System, profile: Profile) -> bool {
    forall|id: u128| #[trigger]
        system.snapshots.dom().contains(id) ==> conflict_fault(profile, system.snapshots[id]) is None
}

/// Whether the checks that precede the installation of a profile succeed.
#[verifier::opaque]
pub open spec fn is_cleared(system: System, profile: Profile, previous: Option<Profile>) -> bool {
    &&& is_free(system, profile)
    &&& preflight(profile, previous) matches Ok(tasks) && forall|i: int|
        0 <= i < tasks.len() ==> holds(system.host, #[trigger] tasks[i])
}

/// The snapshot that is stored for an identifier.
pub open spec fn stored(system: System, id: u128) -> Option<Profile> {
    if system.snapshots.dom().contains(id) {
        Some(system.snapshots[id])
    } else {
        None
    }
}

/// Whether a reply is what the system answers to what a batch asks. Modules can be built. A profile
/// can be replaced, or not.
pub open spec fn is_honest(system: System, plan: Plan, report: Report) -> bool {
    match asked(plan) {
        None => false,
        Some(BatchWork::Prepare(_)) => report == Report::Done(Ok(())),
        Some(BatchWork::Load(index)) => report == Report::Loaded(
            Ok(stored(system, plan.profiles[index as int].id)),
        ),
        Some(BatchWork::Preflight(index, previous)) => report matches Report::Done(result) && (
        result is Ok <==> is_cleared(system, plan.profiles[index as int], previous)),
        Some(BatchWork::Observe(index)) => report == Report::Observed(
            Ok(is_found(system.host, plan.profiles[index as int])),
        ),
        Some(BatchWork::Replace(_, _)) => report is Done,
        Some(BatchWork::RollBack) => report is Done,
    }
}

/// A system after what a batch asked for. Replacing a profile changes it; a replacement that failed
/// is taken back.
pub open spec fn changed(system: System, plan: Plan, report: Report, directory: Seq<char>) -> System {
    match (asked(plan), report) {
        (Some(BatchWork::Replace(index, previous)), Report::Done(Ok(_))) => replaced(
            system,
            Exchange { current: plan.profiles[index as int], previous },
            directory,
        ),
        _ => system,
    }
}

/// A system after a batch was answered with a list of replies.
pub open spec fn after_batch(
    system: System,
    list: Seq<Profile>,
    reports: Seq<Report>,
    directory: Seq<char>,
) -> System
    decreases reports.len(),
{
    if reports.len() == 0 {
        system
    } else {
        changed(
            after_batch(system, list, reports.drop_last(), directory),
            after(begun(list), reports.drop_last()),
            reports.last(),
            directory,
        )
    }
}

/// Whether each reply of a list is what the system answered then.
pub open spec fn all_honest(
    system: System,
    list: Seq<Profile>,
    reports: Seq<Report>,
    directory: Seq<char>,
) -> bool
    decreases reports.len(),
{
    reports.len() == 0 || (all_honest(system, list, reports.drop_last(), directory) && is_honest(
        after_batch(system, list, reports.drop_last(), directory),
        after(begun(list), reports.drop_last()),
        reports.last(),
    ))
}

/// Whether profiles are a validated set with different identifiers: each is valid, has different
/// paths, and shares nothing with the others.
pub open spec fn is_set(list: Seq<Profile>) -> bool {
    &&& forall|i: int|
        0 <= i < list.len() ==> profile_fault(#[trigger] list[i]) is None && has_distinct_paths(
            list[i],
        )
    &&& forall|i: int, j: int|
        0 <= i < list.len() && 0 <= j < list.len() && i != j ==> are_strangers(
            #[trigger] list[i],
            #[trigger] list[j],
        )
}

/// A validated set in which no identifier stands twice is one that can be applied.
pub proof fn validated_sets_can_be_applied(
    list: Seq<Profile>,
    applied: Seq<Profile>,
    findings: Seq<Findings>,
)
    requires
        validated(list, applied, findings) is Ok,
        distinct_ids(validated(list, applied, findings)->Ok_0),
    ensures
        is_set(validated(list, applied, findings)->Ok_0),
{
    let result = validated(list, applied, findings)->Ok_0;
    validated_sets_are_sound(list, applied, findings);
    assert forall|i: int| 0 <= i < result.len() implies profile_fault(#[trigger] result[i]) is None
        && has_distinct_paths(result[i]) by {
        separated_paths_differ(result[i]);
    }
    assert forall|i: int, j: int|
        0 <= i < result.len() && 0 <= j < result.len() && i != j implies are_strangers(
        #[trigger] result[i],
        #[trigger] result[j],
    ) by {
        clashes_are_symmetric(result[i], result[j]);
        clashes_are_symmetric(result[j], result[i]);
    }
}

/// Whether every snapshot is stored under its own identifier.
pub open spec fn is_filed(system: System) -> bool {
    forall|id: u128| #[trigger]
        system.snapshots.dom().contains(id) ==> system.snapshots[id].id == id
}

/// Whether a profile is applied as it is asked for and in force, and nothing that is its own is in
/// its way.
pub open spec fn is_in_place(system: System, profile: Profile) -> bool {
    &&& stored(system, profile.id) matches Some(snapshot) && same_profile(snapshot, profile)
        && preflight(profile, Some(snapshot)) == Ok::<Seq<Task>, Seq<char>>(Seq::empty())
    &&& is_found(system.host, profile)
}

/// Whether two systems have the same ones of a profile's rules.
spec fn has_same_rules(left: Host, right: Host, profile: Profile) -> bool {
    forall|regex: Seq<char>|
        is_own_rule(profile, regex) ==> (#[trigger] left.rules.dom().contains(regex)
            <==> right.rules.dom().contains(regex))
}

/// Whether no profile of a set gets in the way of one that is stored.
spec fn are_free(system: System, list: Seq<Profile>) -> bool {
    forall|i: int| 0 <= i < list.len() ==> is_free(system, #[trigger] list[i])
}

/// Whether the checks of the first `count` profiles succeeded.
spec fn were_cleared(system: System, list: Seq<Profile>, count: int) -> bool {
    forall|i: int|
        0 <= i < count ==> is_cleared(
            system,
            #[trigger] list[i],
            stored(system, list[i].id),
        )
}

/// Whether the snapshot of a profile is the one from before, or the profile itself.
pub open spec fn is_kept_or_new(start: System, system: System, profile: Profile) -> bool {
    ||| stored(system, profile.id) == stored(start, profile.id)
    ||| stored(system, profile.id) == Some(profile)
}

/// How a system stands when a batch is done with its first `count` profiles.
#[verifier::opaque]
spec fn is_settled_up_to(start: System, system: System, list: Seq<Profile>, count: int) -> bool {
    &&& were_cleared(start, list, list.len() as int)
    &&& is_filed(system)
    &&& are_free(system, list)
    &&& forall|i: int| 0 <= i < count ==> is_in_place(system, #[trigger] list[i])
    &&& forall|i: int| 0 <= i < count ==> is_kept_or_new(start, system, #[trigger] list[i])
    &&& forall|i: int|
        count <= i < list.len() ==> has_same_rules(start.host, system.host, #[trigger] list[i])
    &&& forall|id: u128|
        !has_id(list, count, id) ==> #[trigger] stored(system, id) == stored(start, id)
}

/// Whether one of the first `count` profiles has an identifier.
pub open spec fn has_id(list: Seq<Profile>, count: int, id: u128) -> bool {
    exists|i: int| 0 <= i < count && (#[trigger] list[i]).id == id
}

/// How the system stands while a batch runs for the first time.
spec fn is_underway(start: System, system: System, list: Seq<Profile>, plan: Plan) -> bool {
    let size = list.len() as int;
    &&& plan.profiles == list
    &&& match plan.phase {
        BatchPhase::Preparing(index) => system == start && index < size && plan.completed.len()
            == 0,
        BatchPhase::Consulting(index) => system == start && index < size && plan.completed.len()
            == 0 && were_cleared(start, list, index as int),
        BatchPhase::Checking(index, previous) => system == start && index < size
            && plan.completed.len() == 0 && were_cleared(start, list, index as int) && previous
            == stored(start, list[index as int].id),
        BatchPhase::Loading(index) => index < size && plan.completed.len() <= index
            && is_settled_up_to(start, system, list, index as int),
        BatchPhase::Observing(index, previous) => index < size && plan.completed.len() <= index
            && is_settled_up_to(start, system, list, index as int) && previous == stored(
            system,
            list[index as int].id,
        ) && (previous matches Some(snapshot) && same_profile(snapshot, list[index as int])),
        BatchPhase::Replacing(index, previous) => index < size && plan.completed.len() <= index
            && is_settled_up_to(start, system, list, index as int) && previous == stored(
            system,
            list[index as int].id,
        ),
        BatchPhase::RollingBack(_) => true,
        BatchPhase::Over(Ok(count)) => count <= size && (size > 0 ==> is_settled_up_to(
            start,
            system,
            list,
            size,
        )) && (size == 0 ==> system == start),
        BatchPhase::Over(Err(_)) => true,
    }
}

proof fn lemma_found(host: Host, profile: Profile)
    ensures
        is_found(host, profile) <==> {
            &&& host.modules.contains(names_of(profile.id).module)
            &&& host.modules.contains(names_of(profile.id).deny_module)
            &&& host.rules.dom().contains(expression_of(profile.executable, true))
            &&& forall|i: int|
                0 <= i < profile.data_directories.len() ==> host.rules.dom().contains(
                    expression_of(#[trigger] profile.data_directories[i], false),
                )
        },
{
    let list = signs_of(profile);
    let paths = profile.data_directories;
    assert(list[0] == Sign::Module(names_of(profile.id).module));
    assert(list[1] == Sign::Module(names_of(profile.id).deny_module));
    assert(list[2] == (Sign::Rule { path: profile.executable, executable: true }));
    assert forall|i: int| 0 <= i < paths.len() implies #[trigger] list[i + 3] == (Sign::Rule {
        path: paths[i],
        executable: false,
    }) by {}
    if is_found(host, profile) {
        assert(is_there(host, list[0]) && is_there(host, list[1]) && is_there(host, list[2]));
        assert forall|i: int| 0 <= i < paths.len() implies host.rules.dom().contains(
            expression_of(#[trigger] paths[i], false),
        ) by {
            assert(is_there(host, list[i + 3]));
        }
    }
    if host.modules.contains(names_of(profile.id).module) && host.modules.contains(
        names_of(profile.id).deny_module,
    ) && host.rules.dom().contains(expression_of(profile.executable, true)) && (forall|i: int|
        0 <= i < paths.len() ==> host.rules.dom().contains(
            expression_of(#[trigger] paths[i], false),
        )) {
        assert forall|i: int| 0 <= i < list.len() implies is_there(host, #[trigger] list[i]) by {
            if i >= 3 {
                assert(list[(i - 3) + 3] == (Sign::Rule {
                    path: paths[i - 3],
                    executable: false,
                }));
            }
        }
    }
}

proof fn lemma_protected_is_found(host: Host, profile: Profile)
    requires
        is_protected(host, profile),
    ensures
        is_found(host, profile),
{
    lemma_found(host, profile);
    assert forall|i: int| 0 <= i < profile.data_directories.len() implies host.rules.dom().contains(
        expression_of(#[trigger] profile.data_directories[i], false),
    ) by {
        assert(has_rule(
            host,
            expression_of(profile.data_directories[i], false),
            names_of(profile.id).data_type,
        ));
    }
}

proof fn lemma_found_kept(before: Host, after: Host, worked_on: Profile, profile: Profile)
    requires
        agree_apart_from(before, after, worked_on),
        are_strangers(worked_on, profile),
    ensures
        is_found(before, profile) ==> is_found(after, profile),
        has_same_rules(before, after, profile),
{
    lemma_strangers(worked_on, profile);
    lemma_found(before, profile);
    lemma_found(after, profile);
    assert forall|regex: Seq<char>| is_own_rule(profile, regex) implies (
    #[trigger] before.rules.dom().contains(regex) <==> after.rules.dom().contains(regex)) by {
        assert(!is_own_rule(worked_on, regex));
    }
    if is_found(before, profile) {
        let names = names_of(profile.id);
        assert(is_own_module(profile, names.module) && is_own_module(profile, names.deny_module));
        assert(before.modules.contains(names.module) && before.modules.contains(
            names.deny_module,
        ));
        assert(is_own_rule(profile, expression_of(profile.executable, true)));
        assert forall|i: int|
            0 <= i < profile.data_directories.len() implies after.rules.dom().contains(
            expression_of(#[trigger] profile.data_directories[i], false),
        ) by {
            let regex = expression_of(profile.data_directories[i], false);
            assert(is_own_rule(profile, regex));
            assert(before.rules.dom().contains(regex));
        }
    }
}

proof fn lemma_same_rules_twice(first: Host, second: Host, third: Host, profile: Profile)
    requires
        has_same_rules(first, second, profile),
        has_same_rules(second, third, profile),
    ensures
        has_same_rules(first, third, profile),
{
    assert forall|regex: Seq<char>| is_own_rule(profile, regex) implies (
    #[trigger] first.rules.dom().contains(regex) <==> third.rules.dom().contains(regex)) by {
        assert(second.rules.dom().contains(regex) <==> third.rules.dom().contains(regex));
    }
}

proof fn lemma_directory_checks(
    directories: Seq<Seq<char>>,
    previous: Option<Profile>,
    count: nat,
    index: int,
) -> (place: int)
    requires
        count <= directories.len(),
        0 <= index < directory_checks(directories, previous, count).len(),
    ensures
        0 <= place < count,
        directory_checks(directories, previous, count)[index] == (Task::RequireNoRule {
            path: directories[place],
            executable: false,
        }),
    decreases count,
{
    let before = directory_checks(directories, previous, (count - 1) as nat);
    if index < before.len() {
        assert(directory_checks(directories, previous, count)[index] == before[index]);
        lemma_directory_checks(directories, previous, (count - 1) as nat, index)
    } else {
        count - 1
    }
}

/// Where all rules of a profile are there, and none was found to be in its way, all belong to the
/// previous version.
proof fn lemma_all_owned(host: Host, profile: Profile, snapshot: Profile)
    requires
        is_found(host, profile),
        preflight(profile, Some(snapshot)) is Ok,
        forall|i: int|
            0 <= i < preflight(profile, Some(snapshot))->Ok_0.len() ==> holds(
                host,
                #[trigger] preflight(profile, Some(snapshot))->Ok_0[i],
            ),
    ensures
        preflight(profile, Some(snapshot)) == Ok::<Seq<Task>, Seq<char>>(Seq::empty()),
{
    let tasks = preflight(profile, Some(snapshot))->Ok_0;
    let paths = profile.data_directories;
    let checks = directory_checks(paths, Some(snapshot), paths.len());
    let first = Task::RequireNoRule { path: profile.executable, executable: true };
    lemma_found(host, profile);
    if checks.len() > 0 {
        let place = lemma_directory_checks(paths, Some(snapshot), paths.len(), 0);
        let at = tasks.len() - checks.len();
        assert(tasks[at] == checks[0]);
        assert(holds(host, tasks[at]));
        assert(host.rules.dom().contains(expression_of(paths[place], false)));
    }
    if tasks.len() > 0 {
        assert(tasks[0] == first);
        assert(holds(host, tasks[0]));
    }
    assert(tasks =~= Seq::<Task>::empty());
}

proof fn lemma_owns_directories(profile: Profile, count: nat)
    requires
        profile_fault(profile) is None,
        count <= profile.data_directories.len(),
    ensures
        directory_checks(profile.data_directories, Some(profile), count).len() == 0,
    decreases count,
{
    if count > 0 {
        lemma_owns_directories(profile, (count - 1) as nat);
        lemma_valid_paths(profile);
        let path = profile.data_directories[count - 1];
        assert(directory_regex(path) is Ok);
        assert(is_owned(path, Some(profile)));
    }
}

proof fn lemma_owns_itself(profile: Profile)
    requires
        profile_fault(profile) is None,
    ensures
        preflight(profile, Some(profile)) == Ok::<Seq<Task>, Seq<char>>(Seq::empty()),
{
    lemma_valid_paths(profile);
    lemma_owns_directories(profile, profile.data_directories.len());
    assert(preflight(profile, Some(profile))->Ok_0 =~= Seq::<Task>::empty());
}

/// A profile that gets in the way of no snapshot is a stranger to every snapshot of another one.
proof fn lemma_free_is_stranger(system: System, profile: Profile, id: u128)
    requires
        is_free(system, profile),
        is_filed(system),
        system.snapshots.dom().contains(id),
        id != profile.id,
    ensures
        are_strangers(system.snapshots[id], profile),
{
    let snapshot = system.snapshots[id];
    assert(conflict_fault(profile, snapshot) is None);
    assert(clash_of(profile, snapshot) is None);
    clashes_are_symmetric(profile, snapshot);
    clashes_are_symmetric(snapshot, profile);
}

/// Replacing one profile of a set keeps what was found of another.
proof fn lemma_replacing_keeps(
    system: System,
    list: Seq<Profile>,
    index: int,
    other: int,
    directory: Seq<char>,
)
    requires
        is_set(list),
        is_filed(system),
        are_free(system, list),
        0 <= index < list.len(),
        0 <= other < list.len(),
        index != other,
    ensures
        ({
            let exchange = Exchange {
                current: list[index],
                previous: stored(system, list[index].id),
            };
            let after = replaced(system, exchange, directory);
            &&& is_found(system.host, list[other]) ==> is_found(after.host, list[other])
            &&& has_same_rules(system.host, after.host, list[other])
        }),
{
    let current = list[index];
    let profile = list[other];
    let exchange = Exchange { current, previous: stored(system, current.id) };
    let base = vacated(system, exchange).host;
    let after = replaced(system, exchange, directory).host;
    assert(are_strangers(list[index], list[other]));
    lemma_replacement_agrees(system, exchange, directory);
    if let Some(old) = exchange.previous {
        assert(is_free(system, list[other]));
        lemma_free_is_stranger(system, profile, current.id);
        lemma_found_kept(system.host, base, old, profile);
    }
    lemma_found_kept(base, after, current, profile);
    lemma_same_rules_twice(system.host, base, after, profile);
}

/// A batch that has replaced a profile, or found it in place, is done with one more.
proof fn lemma_one_more(start: System, system: System, list: Seq<Profile>, index: int)
    requires
        0 <= index < list.len(),
        is_settled_up_to(start, system, list, index),
        is_in_place(system, list[index]),
        is_kept_or_new(start, system, list[index]),
    ensures
        is_settled_up_to(start, system, list, index + 1),
{
    reveal(is_settled_up_to);
    assert forall|id: u128|
        !has_id(list, index + 1, id) implies #[trigger] stored(system, id) == stored(start, id) by {
        if has_id(list, index, id) {
            let i = choose|i: int| 0 <= i < index && (#[trigger] list[i]).id == id;
            assert(list[i].id == id);
        }
    }
    assert forall|i: int| 0 <= i < index + 1 implies is_in_place(system, #[trigger] list[i])
        && is_kept_or_new(start, system, list[i]) by {}
}

proof fn lemma_after_replacing(
    start: System,
    system: System,
    list: Seq<Profile>,
    index: int,
    directory: Seq<char>,
)
    requires
        is_set(list),
        0 <= index < list.len(),
        is_settled_up_to(start, system, list, index),
    ensures
        is_settled_up_to(
            start,
            replaced(
                system,
                Exchange { current: list[index], previous: stored(system, list[index].id) },
                directory,
            ),
            list,
            index + 1,
        ),
{
    reveal(is_settled_up_to);
    let current = list[index];
    let exchange = Exchange { current, previous: stored(system, current.id) };
    let after = replaced(system, exchange, directory);
    assert(profile_fault(list[index]) is None && has_distinct_paths(list[index]));
    lemma_replaced(system, exchange, directory);
    committed_profiles_are_in_force(system, exchange, directory);
    lemma_protected_is_found(after.host, current);
    lemma_owns_itself(current);
    assert(stored(after, current.id) == Some(current));
    assert(same_profile(current, current));
    assert(is_in_place(after, current));
    assert forall|i: int| 0 <= i < index + 1 implies is_in_place(after, #[trigger] list[i])
        && is_kept_or_new(start, after, list[i]) by {
        if i < index {
            assert(are_strangers(list[i], list[index]));
            assert(is_in_place(system, list[i]));
            assert(is_kept_or_new(start, system, list[i]));
            lemma_replacing_keeps(system, list, index, i, directory);
            assert(stored(after, list[i].id) == stored(system, list[i].id));
        }
    }
    assert forall|i: int| index + 1 <= i < list.len() implies has_same_rules(
        start.host,
        after.host,
        #[trigger] list[i],
    ) by {
        assert(has_same_rules(start.host, system.host, list[i]));
        lemma_replacing_keeps(system, list, index, i, directory);
        lemma_same_rules_twice(start.host, system.host, after.host, list[i]);
    }
    assert forall|i: int| 0 <= i < list.len() implies is_free(after, #[trigger] list[i]) by {
        assert(is_free(system, list[i]));
        assert forall|id: u128| #[trigger] after.snapshots.dom().contains(id) implies conflict_fault(
            list[i],
            after.snapshots[id],
        ) is None by {
            if id == current.id {
                if i != index {
                    assert(are_strangers(list[i], list[index]));
                    clashes_are_symmetric(list[i], list[index]);
                }
            } else {
                assert(system.snapshots.dom().contains(id));
            }
        }
    }
    assert(is_filed(after)) by {
        assert forall|id: u128| #[trigger] after.snapshots.dom().contains(id) implies after.snapshots[id].id
            == id by {
            if id != current.id {
                assert(system.snapshots.dom().contains(id));
            }
        }
    }
    assert forall|id: u128|
        !has_id(list, index + 1, id) implies #[trigger] stored(after, id) == stored(start, id) by {
        assert(list[index].id != id) by {
            if list[index].id == id {
                assert(has_id(list, index + 1, id));
            }
        }
        if has_id(list, index, id) {
            let i = choose|i: int| 0 <= i < index && (#[trigger] list[i]).id == id;
            assert(list[i].id == id);
        }
        assert(stored(after, id) == stored(system, id));
    }
}

/// A profile whose snapshot is up to date and that was found in force is in place.
proof fn lemma_found_in_place(
    start: System,
    system: System,
    list: Seq<Profile>,
    index: int,
    snapshot: Profile,
)
    requires
        is_set(list),
        0 <= index < list.len(),
        is_settled_up_to(start, system, list, index),
        stored(system, list[index].id) == Some(snapshot),
        same_profile(snapshot, list[index]),
        is_found(system.host, list[index]),
    ensures
        is_in_place(system, list[index]),
        is_kept_or_new(start, system, list[index]),
{
    reveal(is_cleared);
    reveal(is_settled_up_to);
    let profile = list[index];
    if has_id(list, index, profile.id) {
        let i = choose|i: int| 0 <= i < index && (#[trigger] list[i]).id == profile.id;
        assert(are_strangers(list[i], list[index]));
    }
    assert(stored(system, profile.id) == stored(start, profile.id));
    assert(is_cleared(start, list[index], stored(start, list[index].id)));
    assert(has_same_rules(start.host, system.host, list[index]));
    lemma_found(system.host, profile);
    let tasks = preflight(profile, Some(snapshot))->Ok_0;
    let paths = profile.data_directories;
    let checks = directory_checks(paths, Some(snapshot), paths.len());
    assert forall|i: int| 0 <= i < tasks.len() implies holds(system.host, #[trigger] tasks[i]) by {
        assert(holds(start.host, tasks[i]));
        let at = tasks.len() - checks.len();
        if i >= at {
            let place = lemma_directory_checks(paths, Some(snapshot), paths.len(), i - at);
            assert(tasks[i] == checks[i - at]);
            let regex = expression_of(paths[place], false);
            assert(is_own_rule(profile, regex));
            assert(start.host.rules.dom().contains(regex) <==> system.host.rules.dom().contains(
                regex,
            ));
        } else {
            let regex = expression_of(profile.executable, true);
            assert(is_own_rule(profile, regex));
            assert(start.host.rules.dom().contains(regex) <==> system.host.rules.dom().contains(
                regex,
            ));
        }
    }
    lemma_all_owned(system.host, profile, snapshot);
}

proof fn lemma_ready(start: System, list: Seq<Profile>)
    requires
        is_filed(start),
        were_cleared(start, list, list.len() as int),
    ensures
        is_settled_up_to(start, start, list, 0),
{
    reveal(is_cleared);
    reveal(is_settled_up_to);
    assert forall|i: int| 0 <= i < list.len() implies is_free(start, #[trigger] list[i]) by {
        assert(is_cleared(start, list[i], stored(start, list[i].id)));
    }
}

proof fn lemma_step_preparing(
    start: System,
    system: System,
    list: Seq<Profile>,
    plan: Plan,
    report: Report,
    directory: Seq<char>,
)
    requires
        is_set(list),
        is_filed(start),
        is_underway(start, system, list, plan),
        is_honest(system, plan, report),
        plan.phase is Preparing || plan.phase is Consulting,
    ensures
        is_underway(
            start,
            changed(system, plan, report, directory),
            list,
            moved(plan, report),
        ),
{
    match plan.phase {
        BatchPhase::Preparing(index) => {
            if index + 1 >= list.len() {
                assert(were_cleared(start, list, 0));
            }
        },
        _ => {},
    }
}

proof fn lemma_step_checking(
    start: System,
    system: System,
    list: Seq<Profile>,
    plan: Plan,
    report: Report,
    directory: Seq<char>,
)
    requires
        is_set(list),
        is_filed(start),
        is_underway(start, system, list, plan),
        is_honest(system, plan, report),
        plan.phase is Checking,
    ensures
        is_underway(
            start,
            changed(system, plan, report, directory),
            list,
            moved(plan, report),
        ),
{
    if let BatchPhase::Checking(index, previous) = plan.phase {
        if report is Done && report->Done_0 is Ok {
            let profile = list[index as int];
            assert(is_cleared(start, profile, stored(start, profile.id)));
            assert(were_cleared(start, list, (index + 1) as int));
            if index + 1 >= list.len() {
                lemma_ready(start, list);
            }
        }
    }
}

proof fn lemma_step_loading(
    start: System,
    system: System,
    list: Seq<Profile>,
    plan: Plan,
    report: Report,
    directory: Seq<char>,
)
    requires
        is_set(list),
        is_filed(start),
        is_underway(start, system, list, plan),
        is_honest(system, plan, report),
        plan.phase is Loading,
    ensures
        is_underway(
            start,
            changed(system, plan, report, directory),
            list,
            moved(plan, report),
        ),
{
}

proof fn lemma_step_observing(
    start: System,
    system: System,
    list: Seq<Profile>,
    plan: Plan,
    report: Report,
    directory: Seq<char>,
)
    requires
        is_set(list),
        is_filed(start),
        is_underway(start, system, list, plan),
        is_honest(system, plan, report),
        plan.phase is Observing,
    ensures
        is_underway(
            start,
            changed(system, plan, report, directory),
            list,
            moved(plan, report),
        ),
{
    if let BatchPhase::Observing(index, previous) = plan.phase {
        if report == Report::Observed(Ok(true)) {
            lemma_found_in_place(start, system, list, index as int, previous->Some_0);
            lemma_one_more(start, system, list, index as int);
        }
    }
}

proof fn lemma_step_replacing(
    start: System,
    system: System,
    list: Seq<Profile>,
    plan: Plan,
    report: Report,
    directory: Seq<char>,
)
    requires
        is_set(list),
        is_filed(start),
        is_underway(start, system, list, plan),
        is_honest(system, plan, report),
        plan.phase is Replacing,
    ensures
        is_underway(
            start,
            changed(system, plan, report, directory),
            list,
            moved(plan, report),
        ),
{
    if let BatchPhase::Replacing(index, previous) = plan.phase {
        if report is Done && report->Done_0 is Ok {
            lemma_after_replacing(start, system, list, index as int, directory);
        }
    }
}

proof fn lemma_step(
    start: System,
    system: System,
    list: Seq<Profile>,
    plan: Plan,
    report: Report,
    directory: Seq<char>,
)
    requires
        is_set(list),
        is_filed(start),
        is_underway(start, system, list, plan),
        is_honest(system, plan, report),
    ensures
        is_underway(
            start,
            changed(system, plan, report, directory),
            list,
            moved(plan, report),
        ),
{
    match plan.phase {
        BatchPhase::Preparing(_) => lemma_step_preparing(
            start,
            system,
            list,
            plan,
            report,
            directory,
        ),
        BatchPhase::Consulting(_) => lemma_step_preparing(
            start,
            system,
            list,
            plan,
            report,
            directory,
        ),
        BatchPhase::Checking(_, _) => lemma_step_checking(
            start,
            system,
            list,
            plan,
            report,
            directory,
        ),
        BatchPhase::Loading(_) => lemma_step_loading(start, system, list, plan, report, directory),
        BatchPhase::Observing(_, _) => lemma_step_observing(
            start,
            system,
            list,
            plan,
            report,
            directory,
        ),
        BatchPhase::Replacing(_, _) => lemma_step_replacing(
            start,
            system,
            list,
            plan,
            report,
            directory,
        ),
        _ => {},
    }
}

proof fn lemma_first_run(
    system: System,
    list: Seq<Profile>,
    reports: Seq<Report>,
    directory: Seq<char>,
)
    requires
        is_set(list),
        is_filed(system),
        all_honest(system, list, reports, directory),
    ensures
        is_underway(
            system,
            after_batch(system, list, reports, directory),
            list,
            after(begun(list), reports),
        ),
    decreases reports.len(),
{
    if reports.len() > 0 {
        let earlier = reports.drop_last();
        lemma_first_run(system, list, earlier, directory);
        lemma_step(
            system,
            after_batch(system, list, earlier, directory),
            list,
            after(begun(list), earlier),
            reports.last(),
            directory,
        );
    }
}

/// How a batch stands that finds everything in place.
spec fn is_idle(system: System, list: Seq<Profile>, plan: Plan) -> bool {
    &&& plan.profiles == list
    &&& plan.completed.len() == 0
    &&& match plan.phase {
        BatchPhase::Preparing(index) => index < list.len(),
        BatchPhase::Consulting(index) => index < list.len(),
        BatchPhase::Checking(index, previous) => index < list.len() && previous == stored(
            system,
            list[index as int].id,
        ),
        BatchPhase::Loading(index) => index < list.len(),
        BatchPhase::Observing(index, _) => index < list.len(),
        BatchPhase::Over(result) => result == Ok::<nat, Seq<char>>(0),
        _ => false,
    }
}

proof fn lemma_idle(
    system: System,
    list: Seq<Profile>,
    reports: Seq<Report>,
    directory: Seq<char>,
)
    requires
        are_free(system, list),
        forall|i: int| 0 <= i < list.len() ==> is_in_place(system, #[trigger] list[i]),
        all_honest(system, list, reports, directory),
    ensures
        is_idle(system, list, after(begun(list), reports)),
        after_batch(system, list, reports, directory) == system,
    decreases reports.len(),
{
    reveal(is_cleared);
    if reports.len() > 0 {
        let earlier = reports.drop_last();
        lemma_idle(system, list, earlier, directory);
        let plan = after(begun(list), earlier);
        let report = reports.last();
        assert(is_honest(system, plan, report));
        match plan.phase {
            BatchPhase::Checking(index, previous) => {
                assert(is_in_place(system, list[index as int]));
                assert(is_free(system, list[index as int]));
                assert(is_cleared(system, list[index as int], previous));
            },
            BatchPhase::Loading(index) => {
                assert(is_in_place(system, list[index as int]));
            },
            BatchPhase::Observing(index, _) => {
                assert(is_in_place(system, list[index as int]));
            },
            _ => {},
        }
    }
}

/// Applying a set of profiles twice changes nothing the second time. Where a batch ended well, it
/// replaced at most as many profiles as there are, it left the snapshots of all others as they were,
/// and every profile is applied as it was asked for and in force. A second batch for the same
/// profiles, on the system that came of the first, asks for nothing to be replaced or taken back and
/// leaves the system as it is; where it ends, it ends well, with nothing replaced.
pub proof fn second_batches_change_nothing(
    system: System,
    list: Seq<Profile>,
    first: Seq<Report>,
    second: Seq<Report>,
    directory: Seq<char>,
)
    requires
        is_set(list),
        is_filed(system),
        all_honest(system, list, first, directory),
        after(begun(list), first).phase matches BatchPhase::Over(result) && result is Ok,
        all_honest(after_batch(system, list, first, directory), list, second, directory),
    ensures
        ({
            let result = after_batch(system, list, first, directory);
            let again = after(begun(list), second);
            &&& after(begun(list), first).phase matches BatchPhase::Over(Ok(count)) && count
                <= list.len()
            &&& forall|i: int|
                0 <= i < list.len() ==> is_in_place(result, #[trigger] list[i]) && is_kept_or_new(
                    system,
                    result,
                    list[i],
                )
            &&& forall|id: u128|
                !has_id(list, list.len() as int, id) ==> #[trigger] stored(result, id) == stored(
                    system,
                    id,
                )
            &&& after_batch(result, list, second, directory) == result
            &&& asked(again) matches Some(work) ==> !(work is Replace) && !(work is RollBack)
            &&& again.phase matches BatchPhase::Over(end) ==> end == Ok::<nat, Seq<char>>(0)
        }),
{
    reveal(is_settled_up_to);
    let result = after_batch(system, list, first, directory);
    lemma_first_run(system, list, first, directory);
    lemma_idle(result, list, second, directory);
}

/// Whether profiles are those that are stored.
pub open spec fn are_stored(applied: Seq<Profile>, system: System) -> bool {
    forall|id: u128| #[trigger] with_id(applied, id) == stored(system, id)
}

/// Whether the file system says the same of desired profiles at two times, as far as it is asked
/// next to what is applied, and their directories lead to paths that lead to themselves.
pub open spec fn are_unchanged(
    desired: Seq<Submission>,
    applied: Seq<Profile>,
    later: Seq<Submission>,
    now: Seq<Profile>,
) -> bool {
    &&& later.len() == desired.len()
    &&& forall|i: int|
        0 <= i < desired.len() ==> is_unchanged(#[trigger] desired[i], applied, later[i], now)
}

pub open spec fn is_unchanged(
    item: Submission,
    applied: Seq<Profile>,
    later: Submission,
    now: Seq<Profile>,
) -> bool {
    let id = item.profile.id;
    &&& later.profile == item.profile
    &&& is_resolved(item.profile, with_id(applied, id), item.findings)
    &&& says_the_same(item.profile, with_id(now, id), item.findings, later.findings)
}

/// Applying the same desired profiles twice changes nothing the second time: where they were
/// accepted and applied, and nothing has changed since but what came of that, they are accepted
/// again with the same result, and applying that asks for nothing to be replaced or taken back,
/// leaves the system as it is and ends, where it ends, with nothing replaced. Neither application
/// touches the snapshots of other profiles.
pub proof fn second_applications_change_nothing(
    system: System,
    desired: Seq<Submission>,
    applied: Seq<Profile>,
    later: Seq<Submission>,
    now: Seq<Profile>,
    first: Seq<Report>,
    second: Seq<Report>,
    directory: Seq<char>,
)
    requires
        is_filed(system),
        are_distinct(desired),
        are_stored(applied, system),
        validated(submitted(desired), applied, examined(desired)) is Ok,
        ({
            let list = validated(submitted(desired), applied, examined(desired))->Ok_0;
            let result = after_batch(system, list, first, directory);
            &&& all_honest(system, list, first, directory)
            &&& after(begun(list), first).phase matches BatchPhase::Over(end) && end is Ok
            &&& are_stored(now, result)
            &&& are_unchanged(desired, applied, later, now)
            &&& all_honest(result, list, second, directory)
        }),
    ensures
        ({
            let list = validated(submitted(desired), applied, examined(desired))->Ok_0;
            let result = after_batch(system, list, first, directory);
            let again = after(begun(list), second);
            &&& validated(submitted(later), now, examined(later)) == Ok::<
                Seq<Profile>,
                Seq<char>,
            >(list)
            &&& after(begun(list), first).phase matches BatchPhase::Over(Ok(count)) && count
                <= desired.len()
            &&& after_batch(result, list, second, directory) == result
            &&& asked(again) matches Some(work) ==> !(work is Replace) && !(work is RollBack)
            &&& again.phase matches BatchPhase::Over(end) ==> end == Ok::<nat, Seq<char>>(0)
            &&& forall|id: u128|
                !has_id(list, list.len() as int, id) ==> #[trigger] stored(result, id) == stored(
                    system,
                    id,
                )
        }),
{
    let list = validated(submitted(desired), applied, examined(desired))->Ok_0;
    let result = after_batch(system, list, first, directory);
    validated_ids_are_distinct(desired, applied);
    validated_sets_can_be_applied(submitted(desired), applied, examined(desired));
    second_batches_change_nothing(system, list, first, second, directory);
    validation_ignores_the_order(desired, desired, applied);
    assert forall|i: int| 0 <= i < desired.len() implies is_found_again(
        #[trigger] desired[i],
        applied,
        later[i],
        now,
    ) by {
        let item = desired[i];
        assert(is_unchanged(item, applied, later[i], now));
        assert(settled(item, applied) is Ok);
        let profile = settled(item, applied)->Ok_0;
        assert(list.contains(profile));
        let k = choose|k: int| 0 <= k < list.len() && list[k] == profile;
        assert(is_kept_or_new(system, result, list[k]));
        normalized_profiles_are_sound(
            item.profile,
            with_id(applied, item.profile.id),
            item.findings,
        );
        assert(with_id(now, item.profile.id) == stored(result, item.profile.id));
        assert(with_id(applied, item.profile.id) == stored(system, item.profile.id));
    }
    validation_is_repeatable(desired, applied, later, now);
}

/// What the system answers is an answer to what a batch asked, so that a batch that it answers comes
/// to an end.
pub proof fn honest_replies_fit(system: System, plan: Plan, report: Report)
    requires
        is_honest(system, plan, report),
    ensures
        fits(plan, report),
{
}

} // verus!
