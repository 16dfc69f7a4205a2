//! What transactions and rollbacks do to a system as a whole: to its policy and to the stored
//! snapshots.

use crate::engine::host::{
    agree_apart_from, expression_of, has_distinct_paths, has_label, has_rule,
    installation_protects, is_clear_of, is_own_module, is_own_path, is_own_rule, is_protected,
    lemma_installation_agrees, lemma_removal_agrees, performed_all, removal_clears_everything,
    removal_undoes_any_installation, Host,
};
use crate::engine::overlap::are_apart;
use crate::engine::rollback::{self, effort, Exchange, Return};
use crate::engine::steps::{installation, removal};
use crate::engine::transaction::{asked, begun, moved, remaining, Course, Phase, Work};
use crate::model::{module_name, names_belong_to_one_profile, names_of, Profile};
use crate::path::{overlapping, parts, path_equal, path_under};
use crate::policy::{escaped, escaping_is_injective, lemma_expressions_apart};
use vstd::prelude::*;

verus! {

/// A system: its policy, and the snapshots of the profiles that are applied.
#[verifier::ext_equal]
pub struct System {
    pub host: Host,
    pub snapshots: Map<u128, Profile>,
}

/// A system after work that was done completely. Modules are installed from a build directory.
pub open spec fn completed(system: System, work: Work, directory: Seq<char>) -> System {
    match work {
        Work::Teardown(profile) => System {
            host: performed_all(system.host, removal(profile)),
            ..system
        },
        Work::Install(profile) => System {
            host: performed_all(system.host, installation(profile, directory)),
            ..system
        },
        Work::Save(profile) => System {
            snapshots: system.snapshots.insert(profile.id, profile),
            ..system
        },
        Work::RemoveState(id) => System { snapshots: system.snapshots.remove(id), ..system },
        Work::Prepare(profile) => system,
        Work::RemoveTemporary(id) => system,
    }
}

/// A system after an installation that stopped at a step, which changed nothing any more.
pub open spec fn interrupted(
    system: System,
    profile: Profile,
    directory: Seq<char>,
    count: int,
) -> System {
    System {
        host: performed_all(system.host, installation(profile, directory).take(count)),
        ..system
    }
}

/// A system after a transaction went on from where it stands, and everything that it asked for was
/// done.
pub open spec fn carried_out(system: System, course: Course, directory: Seq<char>) -> System
    decreases remaining(course),
{
    match asked(course) {
        None => system,
        Some(work) => carried_out(
            completed(system, work, directory),
            moved(course, Ok(())),
            directory,
        ),
    }
}

/// Where a transaction ends that goes on from where it stands, where everything that it asks for is
/// done.
pub open spec fn ending(course: Course) -> Phase
    decreases remaining(course),
{
    match asked(course) {
        None => course.phase,
        Some(_) => ending(moved(course, Ok(()))),
    }
}

/// A system after a profile replaced its previous version.
pub open spec fn replaced(system: System, exchange: Exchange, directory: Seq<char>) -> System {
    carried_out(system, begun(exchange.current, exchange.previous), directory)
}

/// A transaction at the point where the new version is to be installed.
pub open spec fn installing(exchange: Exchange) -> Course {
    let start = begun(exchange.current, exchange.previous);
    if exchange.previous is Some {
        moved(start, Ok(()))
    } else {
        start
    }
}

/// A system at the point where the new version is to be installed.
pub open spec fn vacated(system: System, exchange: Exchange) -> System {
    match exchange.previous {
        Some(old) => System { host: performed_all(system.host, removal(old)), ..system },
        None => system,
    }
}

/// A transaction in which installing the new version failed, or storing its snapshot.
pub open spec fn broken(exchange: Exchange, saving: bool, message: Seq<char>) -> Course {
    if saving {
        moved(moved(installing(exchange), Ok(())), Err(message))
    } else {
        moved(installing(exchange), Err(message))
    }
}

/// A system after a transaction that failed when the first `count` steps of the installation were
/// done, and in which everything that it then asked for was done.
pub open spec fn taken_back(
    system: System,
    exchange: Exchange,
    directory: Seq<char>,
    count: int,
    saving: bool,
    message: Seq<char>,
) -> System {
    carried_out(
        interrupted(vacated(system, exchange), exchange.current, directory, count),
        broken(exchange, saving, message),
        directory,
    )
}

/// Where a transaction succeeds, the new version is in force and its snapshot is stored.
pub proof fn committed_profiles_are_in_force(
    system: System,
    exchange: Exchange,
    directory: Seq<char>,
)
    requires
        has_distinct_paths(exchange.current),
    ensures
        ending(begun(exchange.current, exchange.previous)) == Phase::Over(Ok::<(), Seq<char>>(())),
        is_protected(replaced(system, exchange, directory).host, exchange.current),
        replaced(system, exchange, directory).snapshots == system.snapshots.insert(
            exchange.current.id,
            exchange.current,
        ),
{
    reveal_with_fuel(ending, 4);
    lemma_replaced(system, exchange, directory);
    installation_protects(vacated(system, exchange).host, exchange.current, directory);
}

/// Where a transaction fails that has a previous version, and everything that it then asks for is
/// done, the previous version is in force and its snapshot is stored, whatever state the system was
/// in before.
pub proof fn failed_updates_restore_the_previous_version(
    system: System,
    exchange: Exchange,
    old: Profile,
    directory: Seq<char>,
    count: int,
    saving: bool,
    message: Seq<char>,
)
    requires
        exchange.previous == Some(old),
        has_distinct_paths(old),
        0 <= count <= installation(exchange.current, directory).len(),
    ensures
        ({
            let result = taken_back(system, exchange, directory, count, saving, message);
            &&& is_protected(result.host, old)
            &&& result.snapshots == system.snapshots.insert(old.id, old)
        }),
{
    lemma_taken_back(system, exchange, directory, count, saving, message);
    let stopped = interrupted(vacated(system, exchange), exchange.current, directory, count);
    installation_protects(performed_all(stopped.host, removal(exchange.current)), old, directory);
}

/// Whether the paths of a profile exist.
pub open spec fn has_paths(host: Host, profile: Profile) -> bool {
    forall|path: Seq<char>| is_own_path(profile, path) ==> #[trigger] host.paths.contains(path)
}

/// Whether nothing but a previous version is where a profile is to come.
pub open spec fn has_room(host: Host, exchange: Exchange) -> bool {
    match exchange.previous {
        None => is_clear_of(host, exchange.current),
        Some(old) => {
            &&& forall|regex: Seq<char>|
                is_own_rule(exchange.current, regex) && !is_own_rule(old, regex)
                    ==> !#[trigger] host.rules.dom().contains(regex)
            &&& forall|path: Seq<char>|
                is_own_path(exchange.current, path) && !is_own_path(old, path)
                    ==> !#[trigger] host.labels.dom().contains(path)
        },
    }
}

/// Whether what is recorded of a profile is what is in force: nothing, or the previous version.
pub open spec fn is_settled(system: System, exchange: Exchange) -> bool {
    &&& has_room(system.host, exchange)
    &&& has_paths(system.host, exchange.current)
    &&& match exchange.previous {
        None => !system.snapshots.dom().contains(exchange.current.id),
        Some(old) => {
            &&& old.id == exchange.current.id
            &&& has_distinct_paths(old)
            &&& is_protected(system.host, old)
            &&& system.snapshots.dom().contains(old.id)
            &&& system.snapshots[old.id] == old
        },
    }
}

/// A failed transaction changes nothing: wherever the installation of the new version stops, or
/// where its snapshot cannot be stored, the system is in the end as it was before, as long as
/// everything that the transaction asks for after the failure is done. The failure is reported.
pub proof fn failed_transactions_change_nothing(
    system: System,
    exchange: Exchange,
    directory: Seq<char>,
    count: int,
    saving: bool,
    message: Seq<char>,
)
    requires
        is_settled(system, exchange),
        0 <= count <= installation(exchange.current, directory).len(),
    ensures
        taken_back(system, exchange, directory, count, saving, message) =~= system,
        ending(broken(exchange, saving, message)) == Phase::Over(Err::<(), Seq<char>>(message)),
{
    reveal_with_fuel(ending, 7);
    let base = vacated(system, exchange);
    let stopped = interrupted(base, exchange.current, directory, count);
    lemma_taken_back(system, exchange, directory, count, saving, message);
    lemma_vacated(system, exchange);
    removal_undoes_any_installation(base.host, exchange.current, directory, count);
    assert(performed_all(stopped.host, removal(exchange.current)) == base.host);
    if let Some(old) = exchange.previous {
        lemma_reinstalled(system.host, base.host, old, directory);
        assert(system.snapshots.insert(old.id, old) =~= system.snapshots);
    }
}

/// Where the previous version cannot be taken out, and everything that is then asked for is done,
/// the system is in the end as it was before, wherever the removal stopped. The failure is reported.
pub proof fn stuck_transactions_change_nothing(
    system: System,
    exchange: Exchange,
    old: Profile,
    directory: Seq<char>,
    count: int,
    message: Seq<char>,
)
    requires
        exchange.previous == Some(old),
        is_settled(system, exchange),
        0 <= count <= removal(old).len(),
    ensures
        ({
            let stuck = moved(begun(exchange.current, exchange.previous), Err(message));
            let stopped = System {
                host: performed_all(system.host, removal(old).take(count)),
                ..system
            };
            &&& carried_out(stopped, stuck, directory) =~= system
            &&& ending(stuck) is Over
            &&& ending(stuck)->Over_0 is Err
        }),
{
    reveal_with_fuel(carried_out, 5);
    reveal_with_fuel(ending, 5);
    let middle = performed_all(system.host, removal(old).take(count));
    lemma_removal_agrees(system.host, system.host, old, count);
    assert(removal(old).take(removal(old).len() as int) =~= removal(old));
    lemma_removal_agrees(system.host, middle, old, removal(old).len() as int);
    lemma_reinstalled(system.host, performed_all(middle, removal(old)), old, directory);
    assert(system.snapshots.insert(old.id, old) =~= system.snapshots);
}

pub proof fn lemma_replaced(system: System, exchange: Exchange, directory: Seq<char>)
    ensures
        replaced(system, exchange, directory) == (System {
            host: performed_all(
                vacated(system, exchange).host,
                installation(exchange.current, directory),
            ),
            snapshots: system.snapshots.insert(exchange.current.id, exchange.current),
        }),
{
    reveal_with_fuel(carried_out, 4);
}

proof fn lemma_taken_back(
    system: System,
    exchange: Exchange,
    directory: Seq<char>,
    count: int,
    saving: bool,
    message: Seq<char>,
)
    ensures
        ({
            let stopped = interrupted(vacated(system, exchange), exchange.current, directory, count);
            let clean = performed_all(stopped.host, removal(exchange.current));
            taken_back(system, exchange, directory, count, saving, message)
                == match exchange.previous {
                None => System { host: clean, ..system },
                Some(old) => System {
                    host: performed_all(clean, installation(old, directory)),
                    snapshots: system.snapshots.insert(old.id, old),
                },
            }
        }),
{
    reveal_with_fuel(carried_out, 7);
}

proof fn lemma_vacated(system: System, exchange: Exchange)
    requires
        is_settled(system, exchange),
    ensures
        is_clear_of(vacated(system, exchange).host, exchange.current),
        has_paths(vacated(system, exchange).host, exchange.current),
        exchange.previous matches Some(old) ==> agree_apart_from(
            system.host,
            vacated(system, exchange).host,
            old,
        ),
{
    if let Some(old) = exchange.previous {
        let current = exchange.current;
        let after = vacated(system, exchange).host;
        assert(removal(old).take(removal(old).len() as int) =~= removal(old));
        lemma_removal_agrees(system.host, system.host, old, removal(old).len() as int);
        removal_clears_everything(system.host, old);
        assert forall|module: Seq<char>|
            is_own_module(current, module) implies !#[trigger] after.modules.contains(module) by {
            assert(is_own_module(old, module));
        }
        assert forall|regex: Seq<char>|
            is_own_rule(current, regex) implies !#[trigger] after.rules.dom().contains(regex) by {
            if !is_own_rule(old, regex) {
                assert(!system.host.rules.dom().contains(regex));
            }
        }
        assert forall|path: Seq<char>|
            is_own_path(current, path) && after.paths.contains(
                path,
            ) implies !#[trigger] after.labels.dom().contains(path) by {
            if !is_own_path(old, path) {
                assert(!system.host.labels.dom().contains(path));
            }
        }
    }
}

/// Installing a profile again where it was in force, and where nothing but what is its own has
/// changed since, leads to the same system.
proof fn lemma_reinstalled(before: Host, host: Host, profile: Profile, directory: Seq<char>)
    requires
        is_protected(before, profile),
        has_distinct_paths(profile),
        agree_apart_from(before, host, profile),
    ensures
        performed_all(host, installation(profile, directory)) =~= before,
{
    let all = installation(profile, directory);
    let after = performed_all(host, all);
    let names = names_of(profile.id);
    assert(all.take(all.len() as int) =~= all);
    lemma_installation_agrees(before, host, profile, directory, all.len() as int);
    installation_protects(host, profile, directory);
    assert forall|module: Seq<char>| #[trigger]
        after.modules.contains(module) <==> before.modules.contains(module) by {
        if !is_own_module(profile, module) {
            assert(before.modules.contains(module) <==> after.modules.contains(module));
        }
    }
    assert(after.modules =~= before.modules);
    assert forall|regex: Seq<char>| #[trigger]
        after.rules.dom().contains(regex) <==> before.rules.dom().contains(regex) by {
        lemma_rule_of(before, after, profile, regex);
    }
    assert forall|regex: Seq<char>| #[trigger]
        after.rules.dom().contains(regex) implies after.rules[regex] == before.rules[regex] by {
        lemma_rule_of(before, after, profile, regex);
    }
    assert(after.rules =~= before.rules);
    assert forall|path: Seq<char>| #[trigger]
        after.labels.dom().contains(path) <==> before.labels.dom().contains(path) by {
        lemma_label_of(before, after, profile, path);
    }
    assert forall|path: Seq<char>| #[trigger]
        after.labels.dom().contains(path) implies after.labels[path] == before.labels[path] by {
        lemma_label_of(before, after, profile, path);
    }
    assert(after.labels =~= before.labels);
}

proof fn lemma_rule_of(before: Host, after: Host, profile: Profile, regex: Seq<char>)
    requires
        is_protected(before, profile),
        is_protected(after, profile),
        agree_apart_from(before, after, profile),
    ensures
        before.rules.dom().contains(regex) <==> after.rules.dom().contains(regex),
        before.rules.dom().contains(regex) ==> before.rules[regex] == after.rules[regex],
{
    if is_own_rule(profile, regex) && regex != expression_of(profile.executable, true) {
        let i = choose|i: int|
            0 <= i < profile.data_directories.len() && regex == expression_of(
                #[trigger] profile.data_directories[i],
                false,
            );
        let label = names_of(profile.id).data_type;
        assert(has_rule(before, expression_of(profile.data_directories[i], false), label));
        assert(has_rule(after, expression_of(profile.data_directories[i], false), label));
    } else if !is_own_rule(profile, regex) {
        assert(before.rules.dom().contains(regex) <==> after.rules.dom().contains(regex));
    }
}

proof fn lemma_label_of(before: Host, after: Host, profile: Profile, path: Seq<char>)
    requires
        is_protected(before, profile),
        is_protected(after, profile),
        agree_apart_from(before, after, profile),
    ensures
        before.labels.dom().contains(path) <==> after.labels.dom().contains(path),
        before.labels.dom().contains(path) ==> before.labels[path] == after.labels[path],
{
    if profile.data_directories.contains(path) {
        let i = choose|i: int|
            0 <= i < profile.data_directories.len() && profile.data_directories[i] == path;
        let label = names_of(profile.id).data_type;
        assert(has_label(before, profile.data_directories[i], label));
        assert(has_label(after, profile.data_directories[i], label));
    } else if !is_own_path(profile, path) {
        assert(before.labels.dom().contains(path) <==> after.labels.dom().contains(path));
    }
}

/// A system after profiles replaced their previous versions, one after the other.
pub open spec fn all_replaced(
    system: System,
    list: Seq<Exchange>,
    directory: Seq<char>,
) -> System
    decreases list.len(),
{
    if list.len() == 0 {
        system
    } else {
        replaced(all_replaced(system, list.drop_last(), directory), list.last(), directory)
    }
}

/// A system after a rollback went on from where it stands, and everything that it asked for was
/// done.
pub open spec fn rolled_back(system: System, rollback: Return, directory: Seq<char>) -> System
    decreases rollback.left, effort(rollback.undoing),
{
    match rollback::asked(rollback) {
        None => system,
        Some(work) => rolled_back(
            completed(system, work, directory),
            rollback::moved(rollback, Ok(())),
            directory,
        ),
    }
}

/// Whether two profiles share neither a name nor a path.
pub open spec fn are_strangers(first: Profile, second: Profile) -> bool {
    first.id != second.id && are_apart(first, second)
}

/// Whether a profile is a stranger to both versions of another.
pub open spec fn is_stranger_to(profile: Profile, exchange: Exchange) -> bool {
    &&& are_strangers(exchange.current, profile)
    &&& exchange.previous matches Some(old) ==> are_strangers(old, profile)
}

/// Whether the versions of two profiles are strangers to each other.
pub open spec fn are_unrelated(first: Exchange, second: Exchange) -> bool {
    &&& is_stranger_to(second.current, first)
    &&& second.previous matches Some(old) ==> is_stranger_to(old, first)
}

/// Whether the profiles of a list are all strangers to each other.
pub open spec fn all_unrelated(list: Seq<Exchange>) -> bool {
    forall|i: int, j: int|
        0 <= i < j < list.len() ==> are_unrelated(#[trigger] list[i], #[trigger] list[j])
}

pub proof fn lemma_strangers(first: Profile, second: Profile)
    requires
        are_strangers(first, second),
    ensures
        forall|module: Seq<char>|
            #[trigger] is_own_module(second, module) ==> !is_own_module(first, module),
        forall|regex: Seq<char>|
            #[trigger] is_own_rule(second, regex) ==> !is_own_rule(first, regex),
        forall|path: Seq<char>|
            #[trigger] is_own_path(second, path) ==> !is_own_path(first, path),
{
    assert forall|path: Seq<char>| #[trigger] is_own_path(second, path) implies !is_own_path(
        first,
        path,
    ) by {
        lemma_no_shared_path(first, second, path);
    }
    assert forall|module: Seq<char>| #[trigger] is_own_module(second, module) implies !is_own_module(
        first,
        module,
    ) by {
        let none = Seq::<char>::empty();
        assert(module_name(first.id) + none =~= module_name(first.id));
        assert(module_name(second.id) + none =~= module_name(second.id));
        names_belong_to_one_profile(first.id, second.id, none, none);
        names_belong_to_one_profile(first.id, second.id, none, "_deny"@);
        names_belong_to_one_profile(first.id, second.id, "_deny"@, none);
        names_belong_to_one_profile(first.id, second.id, "_deny"@, "_deny"@);
    }
    assert forall|regex: Seq<char>| #[trigger] is_own_rule(second, regex) implies !is_own_rule(
        first,
        regex,
    ) by {
        if is_own_rule(first, regex) {
            let left = lemma_path_of_rule(first, regex);
            let right = lemma_path_of_rule(second, regex);
            lemma_expressions_apart(left.0, right.0);
            lemma_expressions_apart(right.0, left.0);
            if left.1 {
                escaping_is_injective(left.0, right.0);
            } else {
                reveal_strlit("(/.*)?");
                assert(regex.take(regex.len() - 6) =~= escaped(left.0));
                assert(regex.take(regex.len() - 6) =~= escaped(right.0));
                escaping_is_injective(left.0, right.0);
            }
            lemma_no_shared_path(first, second, left.0);
        }
    }
}

/// The path that a rule of a profile is for, and whether it is the executable.
proof fn lemma_path_of_rule(profile: Profile, regex: Seq<char>) -> (found: (Seq<char>, bool))
    requires
        is_own_rule(profile, regex),
    ensures
        is_own_path(profile, found.0),
        regex == expression_of(found.0, found.1),
{
    if regex == expression_of(profile.executable, true) {
        (profile.executable, true)
    } else {
        let i = choose|i: int|
            0 <= i < profile.data_directories.len() && regex == expression_of(
                #[trigger] profile.data_directories[i],
                false,
            );
        assert(profile.data_directories.contains(profile.data_directories[i]));
        (profile.data_directories[i], false)
    }
}

proof fn lemma_no_shared_path(first: Profile, second: Profile, path: Seq<char>)
    requires
        are_apart(first, second),
    ensures
        !(is_own_path(first, path) && is_own_path(second, path)),
{
    if is_own_path(first, path) && is_own_path(second, path) {
        assert(path_under(path, path)) by {
            assert(parts(path).is_prefix_of(parts(path)));
        }
        if first.data_directories.contains(path) {
            let i = choose|i: int|
                0 <= i < first.data_directories.len() && first.data_directories[i] == path;
            if second.data_directories.contains(path) {
                let j = choose|j: int|
                    0 <= j < second.data_directories.len() && second.data_directories[j] == path;
                assert(overlapping(first.data_directories[i], second.data_directories[j]));
            } else {
                assert(path_under(second.executable, first.data_directories[i]));
            }
        } else if second.data_directories.contains(path) {
            let j = choose|j: int|
                0 <= j < second.data_directories.len() && second.data_directories[j] == path;
            assert(path_under(first.executable, second.data_directories[j]));
        } else {
            assert(path_equal(first.executable, second.executable));
        }
    }
}

proof fn lemma_protection_kept(before: Host, after: Host, worked_on: Profile, profile: Profile)
    requires
        agree_apart_from(before, after, worked_on),
        are_strangers(worked_on, profile),
        is_protected(before, profile),
    ensures
        is_protected(after, profile),
{
    lemma_strangers(worked_on, profile);
    let names = names_of(profile.id);
    assert(is_own_module(profile, names.module));
    assert(is_own_module(profile, names.deny_module));
    assert(before.modules.contains(names.module) && before.modules.contains(names.deny_module));
    assert(is_own_rule(profile, expression_of(profile.executable, true)));
    assert(is_own_path(profile, profile.executable));
    assert(before.rules.dom().contains(expression_of(profile.executable, true)));
    assert(before.labels.dom().contains(profile.executable));
    assert forall|i: int| 0 <= i < profile.data_directories.len() implies has_rule(
        after,
        expression_of(#[trigger] profile.data_directories[i], false),
        names.data_type,
    ) && has_label(after, profile.data_directories[i], names.data_type) by {
        let path = profile.data_directories[i];
        assert(profile.data_directories.contains(path));
        assert(is_own_rule(profile, expression_of(path, false)));
        assert(is_own_path(profile, path));
        assert(has_rule(before, expression_of(path, false), names.data_type));
        assert(has_label(before, path, names.data_type));
        assert(before.rules.dom().contains(expression_of(path, false)));
        assert(before.labels.dom().contains(path));
    }
}

proof fn lemma_room_kept(before: Host, after: Host, worked_on: Profile, exchange: Exchange)
    requires
        agree_apart_from(before, after, worked_on),
        are_strangers(worked_on, exchange.current),
        has_room(before, exchange),
    ensures
        has_room(after, exchange),
{
    let current = exchange.current;
    lemma_strangers(worked_on, current);
    assert forall|module: Seq<char>|
        is_own_module(current, module) && !before.modules.contains(module) implies
            !#[trigger] after.modules.contains(module) by {
        assert(before.modules.contains(module) <==> after.modules.contains(module));
    }
    assert forall|regex: Seq<char>|
        is_own_rule(current, regex) && !before.rules.dom().contains(regex) implies
            !#[trigger] after.rules.dom().contains(regex) by {
        assert(before.rules.dom().contains(regex) <==> after.rules.dom().contains(regex));
    }
    assert forall|path: Seq<char>|
        is_own_path(current, path) && !before.labels.dom().contains(path) implies
            !#[trigger] after.labels.dom().contains(path) by {
        assert(before.labels.dom().contains(path) <==> after.labels.dom().contains(path));
    }
}

proof fn lemma_settlement_kept(
    before: System,
    after: System,
    worked_on: Profile,
    exchange: Exchange,
)
    requires
        is_settled(before, exchange),
        agree_apart_from(before.host, after.host, worked_on),
        are_strangers(worked_on, exchange.current),
        exchange.previous matches Some(old) ==> are_strangers(worked_on, old),
        after.snapshots.dom().contains(exchange.current.id) == before.snapshots.dom().contains(
            exchange.current.id,
        ),
        after.snapshots[exchange.current.id] == before.snapshots[exchange.current.id],
    ensures
        is_settled(after, exchange),
{
    lemma_room_kept(before.host, after.host, worked_on, exchange);
    if let Some(old) = exchange.previous {
        lemma_protection_kept(before.host, after.host, worked_on, old);
    }
}

/// What replacing a profile does to a system is confined to its two versions.
pub proof fn lemma_replacement_agrees(system: System, exchange: Exchange, directory: Seq<char>)
    ensures
        exchange.previous matches Some(old) ==> agree_apart_from(
            system.host,
            vacated(system, exchange).host,
            old,
        ),
        agree_apart_from(
            vacated(system, exchange).host,
            replaced(system, exchange, directory).host,
            exchange.current,
        ),
{
    let base = vacated(system, exchange).host;
    let all = installation(exchange.current, directory);
    lemma_replaced(system, exchange, directory);
    if let Some(old) = exchange.previous {
        assert(removal(old).take(removal(old).len() as int) =~= removal(old));
        lemma_removal_agrees(system.host, system.host, old, removal(old).len() as int);
    }
    assert(all.take(all.len() as int) =~= all);
    lemma_installation_agrees(base, base, exchange.current, directory, all.len() as int);
}

proof fn lemma_replacement_keeps_settlement(
    system: System,
    exchange: Exchange,
    other: Exchange,
    directory: Seq<char>,
)
    requires
        is_settled(system, other),
        are_unrelated(exchange, other),
    ensures
        is_settled(replaced(system, exchange, directory), other),
{
    let base = vacated(system, exchange);
    let after = replaced(system, exchange, directory);
    lemma_replacement_agrees(system, exchange, directory);
    lemma_replaced(system, exchange, directory);
    if let Some(old) = exchange.previous {
        lemma_settlement_kept(system, base, old, other);
    }
    lemma_settlement_kept(base, after, exchange.current, other);
}

/// Replacing a profile leaves the protection of every other profile in force.
pub proof fn other_profiles_stay_in_force(
    system: System,
    exchange: Exchange,
    profile: Profile,
    directory: Seq<char>,
)
    requires
        is_protected(system.host, profile),
        is_stranger_to(profile, exchange),
    ensures
        is_protected(replaced(system, exchange, directory).host, profile),
{
    let base = vacated(system, exchange).host;
    let after = replaced(system, exchange, directory).host;
    lemma_replacement_agrees(system, exchange, directory);
    if let Some(old) = exchange.previous {
        lemma_protection_kept(system.host, base, old, profile);
    }
    lemma_protection_kept(base, after, exchange.current, profile);
}

/// Removing a profile leaves nothing of it behind, neither in the policy nor among the snapshots, and
/// leaves the protection of every other profile in force.
pub proof fn removed_profiles_leave_nothing(
    system: System,
    profile: Profile,
    other: Profile,
    directory: Seq<char>,
)
    ensures
        ({
            let torn_down = completed(system, Work::Teardown(profile), directory);
            let after = completed(torn_down, Work::RemoveState(profile.id), directory);
            &&& is_clear_of(after.host, profile)
            &&& after.snapshots == system.snapshots.remove(profile.id)
            &&& is_protected(system.host, other) && are_strangers(profile, other) ==> is_protected(
                after.host,
                other,
            )
        }),
{
    let after = performed_all(system.host, removal(profile));
    removal_clears_everything(system.host, profile);
    assert(removal(profile).take(removal(profile).len() as int) =~= removal(profile));
    lemma_removal_agrees(system.host, system.host, profile, removal(profile).len() as int);
    if is_protected(system.host, other) && are_strangers(profile, other) {
        lemma_protection_kept(system.host, after, profile, other);
    }
}

/// After a batch every profile that it replaced is in force, and its snapshot is stored.
pub proof fn replaced_profiles_are_in_force(
    system: System,
    list: Seq<Exchange>,
    directory: Seq<char>,
    index: int,
)
    requires
        0 <= index < list.len(),
        has_distinct_paths(list[index].current),
        forall|other: int|
            index < other < list.len() ==> is_stranger_to(
                list[index].current,
                #[trigger] list[other],
            ),
    ensures
        ({
            let after = all_replaced(system, list, directory);
            let current = list[index].current;
            &&& is_protected(after.host, current)
            &&& after.snapshots.dom().contains(current.id)
            &&& after.snapshots[current.id] == current
        }),
    decreases list.len(),
{
    let earlier = list.drop_last();
    let before = all_replaced(system, earlier, directory);
    lemma_replaced(before, list.last(), directory);
    if index == list.len() - 1 {
        committed_profiles_are_in_force(before, list.last(), directory);
    } else {
        assert(earlier[index] == list[index]);
        assert forall|other: int| index < other < earlier.len() implies is_stranger_to(
            earlier[index].current,
            #[trigger] earlier[other],
        ) by {
            assert(is_stranger_to(list[index].current, list[other]));
        }
        replaced_profiles_are_in_force(system, earlier, directory, index);
        assert(is_stranger_to(list[index].current, list[list.len() - 1]));
        other_profiles_stay_in_force(before, list.last(), list[index].current, directory);
    }
}

/// A system after one profile was taken back.
spec fn undone(system: System, exchange: Exchange, directory: Seq<char>) -> System {
    let clean = performed_all(system.host, removal(exchange.current));
    let forgotten = system.snapshots.remove(exchange.current.id);
    match exchange.previous {
        None => System { host: clean, snapshots: forgotten },
        Some(old) => System {
            host: performed_all(clean, installation(old, directory)),
            snapshots: forgotten.insert(old.id, old),
        },
    }
}

proof fn lemma_undone(system: System, exchange: Exchange, directory: Seq<char>)
    requires
        is_settled(system, exchange),
    ensures
        undone(replaced(system, exchange, directory), exchange, directory) == system,
{
    let base = vacated(system, exchange);
    let all = installation(exchange.current, directory);
    let after = undone(replaced(system, exchange, directory), exchange, directory);
    lemma_replaced(system, exchange, directory);
    lemma_vacated(system, exchange);
    assert(all.take(all.len() as int) =~= all);
    removal_undoes_any_installation(base.host, exchange.current, directory, all.len() as int);
    if let Some(old) = exchange.previous {
        lemma_reinstalled(system.host, base.host, old, directory);
    }
    assert(after.snapshots =~= system.snapshots);
    assert(after =~= system);
}

proof fn lemma_rolled_back(system: System, rollback: Return, directory: Seq<char>)
    requires
        0 < rollback.left <= rollback.completed.len(),
        rollback.undoing is Removing,
    ensures
        rolled_back(system, rollback, directory) == rolled_back(
            undone(system, rollback.completed[rollback.left - 1], directory),
            rollback::advanced(rollback),
            directory,
        ),
{
    reveal_with_fuel(rolled_back, 6);
}

proof fn lemma_all_replaced_settled(
    system: System,
    list: Seq<Exchange>,
    other: Exchange,
    directory: Seq<char>,
)
    requires
        is_settled(system, other),
        forall|i: int| 0 <= i < list.len() ==> are_unrelated(#[trigger] list[i], other),
    ensures
        is_settled(all_replaced(system, list, directory), other),
    decreases list.len(),
{
    if list.len() > 0 {
        let earlier = list.drop_last();
        assert forall|i: int| 0 <= i < earlier.len() implies are_unrelated(
            #[trigger] earlier[i],
            other,
        ) by {
            assert(are_unrelated(list[i], other));
        }
        lemma_all_replaced_settled(system, earlier, other, directory);
        assert(are_unrelated(list[list.len() - 1], other));
        lemma_replacement_keeps_settlement(
            all_replaced(system, earlier, directory),
            list.last(),
            other,
            directory,
        );
    }
}

proof fn lemma_rollback_from(system: System, rollback: Return, directory: Seq<char>)
    requires
        rollback.left <= rollback.completed.len(),
        rollback.undoing is Removing,
        all_unrelated(rollback.completed),
        forall|i: int|
            0 <= i < rollback.completed.len() ==> is_settled(
                system,
                #[trigger] rollback.completed[i],
            ),
    ensures
        rolled_back(
            all_replaced(system, rollback.completed.take(rollback.left as int), directory),
            rollback,
            directory,
        ) == system,
    decreases rollback.left,
{
    let done = rollback.completed.take(rollback.left as int);
    if rollback.left == 0 {
        assert(done =~= Seq::<Exchange>::empty());
    } else {
        let item = rollback.completed[rollback.left - 1];
        let earlier = rollback.completed.take(rollback.left - 1);
        let before = all_replaced(system, earlier, directory);
        assert(done.drop_last() =~= earlier);
        assert(is_settled(system, item));
        assert forall|i: int| 0 <= i < earlier.len() implies are_unrelated(
            #[trigger] earlier[i],
            item,
        ) by {
            assert(are_unrelated(rollback.completed[i], rollback.completed[rollback.left - 1]));
        }
        lemma_all_replaced_settled(system, earlier, item, directory);
        lemma_undone(before, item, directory);
        lemma_rolled_back(all_replaced(system, done, directory), rollback, directory);
        lemma_rollback_from(system, rollback::advanced(rollback), directory);
    }
}

/// A rollback leads back to where a batch began, whatever made the batch fail: where profiles
/// replaced their previous versions, and everything that the rollback asks for is done, the system
/// is as it was before the batch.
pub proof fn rollbacks_restore_the_system(
    system: System,
    list: Seq<Exchange>,
    directory: Seq<char>,
)
    requires
        all_unrelated(list),
        forall|i: int| 0 <= i < list.len() ==> is_settled(system, #[trigger] list[i]),
    ensures
        rolled_back(all_replaced(system, list, directory), rollback::begun(list), directory)
            == system,
{
    assert(list.take(list.len() as int) =~= list);
    lemma_rollback_from(system, rollback::begun(list), directory);
}

/// A failed batch changes nothing: where a profile cannot be replaced after others were, and
/// everything that its transaction and the rollback of the others then ask for is done, the system
/// is as it was before the batch.
pub proof fn failed_batches_change_nothing(
    system: System,
    list: Seq<Exchange>,
    failing: Exchange,
    directory: Seq<char>,
    count: int,
    saving: bool,
    message: Seq<char>,
)
    requires
        all_unrelated(list.push(failing)),
        forall|i: int| 0 <= i < list.len() ==> is_settled(system, #[trigger] list[i]),
        is_settled(system, failing),
        0 <= count <= installation(failing.current, directory).len(),
    ensures
        ({
            let reached = all_replaced(system, list, directory);
            let failed = taken_back(reached, failing, directory, count, saving, message);
            rolled_back(failed, rollback::begun(list), directory) == system
        }),
{
    let all = list.push(failing);
    assert forall|i: int, j: int| 0 <= i < j < list.len() implies are_unrelated(
        #[trigger] list[i],
        #[trigger] list[j],
    ) by {
        assert(are_unrelated(all[i], all[j]));
    }
    assert forall|i: int| 0 <= i < list.len() implies are_unrelated(#[trigger] list[i], failing) by {
        assert(are_unrelated(all[i], all[list.len() as int]));
    }
    let reached = all_replaced(system, list, directory);
    lemma_all_replaced_settled(system, list, failing, directory);
    failed_transactions_change_nothing(reached, failing, directory, count, saving, message);
    rollbacks_restore_the_system(system, list, directory);
}

} // verus!
