//! What the steps do to a system, and what follows for installing and removing profiles: nothing
//! is ever left without the types it is labelled with, and removal undoes any part of an
//! installation.

use crate::engine::steps::{
    base_install, deny_install, deny_removal, directories_install, directories_removal,
    directory_install, directory_removal, installation, removal, Task,
};
use crate::engine::normalize::is_separated;
use crate::model::{names_of, Names, Profile};
use crate::path::{parts, path_under};
use crate::policy::{escaped, escaping_is_injective, lemma_expressions_apart};
use vstd::prelude::*;

verus! {

/// The part of a system that profiles change.
#[verifier::ext_equal]
pub struct Host {
    /// The modules that are installed.
    pub modules: Set<Seq<char>>,
    /// The local file-context rules: the type for each expression.
    pub rules: Map<Seq<char>, Seq<char>>,
    /// The types that paths were given by local rules.
    pub labels: Map<Seq<char>, Seq<char>>,
    /// The paths that exist.
    pub paths: Set<Seq<char>>,
}

/// The expression of the rule for a path.
pub open spec fn expression_of(path: Seq<char>, executable: bool) -> Seq<char> {
    if executable {
        escaped(path)
    } else {
        escaped(path) + "(/.*)?"@
    }
}

/// The labels after a path was labelled by the rules.
pub open spec fn labelled(host: Host, path: Seq<char>, executable: bool) -> Map<
    Seq<char>,
    Seq<char>,
> {
    let regex = expression_of(path, executable);
    if host.rules.dom().contains(regex) {
        host.labels.insert(path, host.rules[regex])
    } else {
        host.labels.remove(path)
    }
}

/// A system after a step that did not fail.
pub open spec fn performed(host: Host, task: Task) -> Host {
    match task {
        Task::InstallModule { module, file, context } => Host {
            modules: host.modules.insert(module),
            ..host
        },
        Task::AddRule { path, executable, label } => Host {
            rules: host.rules.insert(expression_of(path, executable), label),
            ..host
        },
        Task::Label { path, recursive, context } => Host {
            labels: labelled(host, path, !recursive),
            ..host
        },
        Task::RemoveModule { module } => Host { modules: host.modules.remove(module), ..host },
        Task::DeleteRule { path, executable } => Host {
            rules: host.rules.remove(expression_of(path, executable)),
            ..host
        },
        Task::Restore { path, recursive, context } => if host.paths.contains(path) {
            Host { labels: labelled(host, path, !recursive), ..host }
        } else {
            host
        },
        Task::RequireNoModule { module } => host,
        Task::RequireNoRule { path, executable } => host,
    }
}

/// A system after steps that did not fail.
pub open spec fn performed_all(host: Host, list: Seq<Task>) -> Host
    decreases list.len(),
{
    if list.len() == 0 {
        host
    } else {
        performed(performed_all(host, list.drop_last()), list.last())
    }
}

/// Whether an expression is that of a rule of a profile.
pub open spec fn is_own_rule(profile: Profile, regex: Seq<char>) -> bool {
    regex == expression_of(profile.executable, true) || exists|i: int|
        0 <= i < profile.data_directories.len() && regex == expression_of(
            #[trigger] profile.data_directories[i],
            false,
        )
}

/// Whether a path is one of a profile.
pub open spec fn is_own_path(profile: Profile, path: Seq<char>) -> bool {
    path == profile.executable || profile.data_directories.contains(path)
}

/// Whether a module is one of a profile.
pub open spec fn is_own_module(profile: Profile, module: Seq<char>) -> bool {
    module == names_of(profile.id).module || module == names_of(profile.id).deny_module
}

/// Whether a type is one of a profile.
pub open spec fn is_own_type(profile: Profile, label: Seq<char>) -> bool {
    label == names_of(profile.id).exec_type || label == names_of(profile.id).data_type
}

/// Whether two systems agree on everything that is not a profile's own.
pub open spec fn agree_apart_from(left: Host, right: Host, profile: Profile) -> bool {
    &&& forall|module: Seq<char>|
        !is_own_module(profile, module) ==> (#[trigger] left.modules.contains(module)
            <==> right.modules.contains(module))
    &&& forall|regex: Seq<char>|
        !is_own_rule(profile, regex) ==> (#[trigger] left.rules.dom().contains(regex)
            <==> right.rules.dom().contains(regex)) && (left.rules.dom().contains(regex)
            ==> left.rules[regex] == right.rules[regex])
    &&& forall|path: Seq<char>|
        !is_own_path(profile, path) ==> (#[trigger] left.labels.dom().contains(path)
            <==> right.labels.dom().contains(path)) && (left.labels.dom().contains(path)
            ==> left.labels[path] == right.labels[path])
    &&& left.paths == right.paths
}

/// Whether a step concerns only what is a profile's own.
pub open spec fn is_own_task(profile: Profile, task: Task) -> bool {
    match task {
        Task::InstallModule { module, file, context } => is_own_module(profile, module),
        Task::AddRule { path, executable, label } => is_own_rule(
            profile,
            expression_of(path, executable),
        ),
        Task::Label { path, recursive, context } => is_own_path(profile, path),
        Task::RemoveModule { module } => is_own_module(profile, module),
        Task::DeleteRule { path, executable } => is_own_rule(
            profile,
            expression_of(path, executable),
        ),
        Task::Restore { path, recursive, context } => is_own_path(profile, path),
        _ => true,
    }
}

pub open spec fn all_own(profile: Profile, list: Seq<Task>) -> bool {
    forall|i: int| 0 <= i < list.len() ==> is_own_task(profile, #[trigger] list[i])
}

proof fn lemma_own_task_agrees(before: Host, host: Host, profile: Profile, task: Task)
    requires
        agree_apart_from(before, host, profile),
        is_own_task(profile, task),
    ensures
        agree_apart_from(before, performed(host, task), profile),
{
    let after = performed(host, task);
    assert forall|module: Seq<char>| !is_own_module(profile, module) implies (
    #[trigger] before.modules.contains(module) <==> after.modules.contains(module)) by {
        assert(host.modules.contains(module) <==> after.modules.contains(module));
    }
    assert forall|regex: Seq<char>| !is_own_rule(profile, regex) implies (
    #[trigger] before.rules.dom().contains(regex) <==> after.rules.dom().contains(regex))
        && (before.rules.dom().contains(regex) ==> before.rules[regex] == after.rules[regex]) by {
        assert(host.rules.dom().contains(regex) <==> after.rules.dom().contains(regex));
        assert(host.rules.dom().contains(regex) ==> host.rules[regex] == after.rules[regex]);
    }
    assert forall|path: Seq<char>| !is_own_path(profile, path) implies (
    #[trigger] before.labels.dom().contains(path) <==> after.labels.dom().contains(path))
        && (before.labels.dom().contains(path) ==> before.labels[path] == after.labels[path]) by {
        assert(host.labels.dom().contains(path) <==> after.labels.dom().contains(path));
        assert(host.labels.dom().contains(path) ==> host.labels[path] == after.labels[path]);
    }
}

proof fn lemma_own_tasks_agree(before: Host, host: Host, profile: Profile, list: Seq<Task>)
    requires
        agree_apart_from(before, host, profile),
        all_own(profile, list),
    ensures
        agree_apart_from(before, performed_all(host, list), profile),
    decreases list.len(),
{
    if list.len() > 0 {
        assert forall|i: int| 0 <= i < list.drop_last().len() implies is_own_task(
            profile,
            #[trigger] list.drop_last()[i],
        ) by {
            assert(is_own_task(profile, list[i]));
        }
        lemma_own_tasks_agree(before, host, profile, list.drop_last());
        assert(is_own_task(profile, list[list.len() - 1]));
        lemma_own_task_agrees(before, performed_all(host, list.drop_last()), profile, list.last());
    }
}

proof fn lemma_directories_install_own(profile: Profile, count: nat)
    requires
        count <= profile.data_directories.len(),
    ensures
        all_own(
            profile,
            directories_install(names_of(profile.id), profile.data_directories, count),
        ),
    decreases count,
{
    if count > 0 {
        lemma_directories_install_own(profile, (count - 1) as nat);
        let directory = profile.data_directories[count - 1];
        assert(profile.data_directories.contains(directory));
        assert(is_own_rule(profile, expression_of(directory, false)));
    }
}

proof fn lemma_installation_own(profile: Profile, work: Seq<char>)
    ensures
        all_own(profile, installation(profile, work)),
{
    lemma_directories_install_own(profile, profile.data_directories.len());
}

proof fn lemma_directories_removal_own(profile: Profile, count: nat)
    requires
        count <= profile.data_directories.len(),
    ensures
        all_own(profile, directories_removal(profile.data_directories, count)),
    decreases count,
{
    if count > 0 {
        lemma_directories_removal_own(profile, (count - 1) as nat);
        let directory = profile.data_directories[count - 1];
        assert(profile.data_directories.contains(directory));
        assert(is_own_rule(profile, expression_of(directory, false)));
    }
}

proof fn lemma_removal_own(profile: Profile)
    ensures
        all_own(profile, removal(profile)),
{
    lemma_directories_removal_own(profile, profile.data_directories.len());
}

/// Installing and removing a profile touch nothing that is not its own: the modules of other
/// profiles, foreign rules and the labels of other paths stay as they are, wherever the work stops.
pub proof fn steps_touch_only_their_own(host: Host, profile: Profile, work: Seq<char>, count: int)
    requires
        0 <= count,
    ensures
        count <= installation(profile, work).len() ==> agree_apart_from(
            host,
            performed_all(host, installation(profile, work).take(count)),
            profile,
        ),
        count <= removal(profile).len() ==> agree_apart_from(
            host,
            performed_all(host, removal(profile).take(count)),
            profile,
        ),
{
    if count <= installation(profile, work).len() {
        lemma_installation_agrees(host, host, profile, work, count);
    }
    if count <= removal(profile).len() {
        lemma_removal_agrees(host, host, profile, count);
    }
}

/// A part of an installation keeps what is not a profile's own.
pub proof fn lemma_installation_agrees(
    before: Host,
    host: Host,
    profile: Profile,
    work: Seq<char>,
    count: int,
)
    requires
        agree_apart_from(before, host, profile),
        0 <= count <= installation(profile, work).len(),
    ensures
        agree_apart_from(
            before,
            performed_all(host, installation(profile, work).take(count)),
            profile,
        ),
{
    lemma_installation_own(profile, work);
    let part = installation(profile, work).take(count);
    assert forall|i: int| 0 <= i < part.len() implies is_own_task(profile, #[trigger] part[i]) by {
        assert(is_own_task(profile, installation(profile, work)[i]));
    }
    lemma_own_tasks_agree(before, host, profile, part);
}

/// A part of a removal keeps what is not a profile's own.
pub proof fn lemma_removal_agrees(before: Host, host: Host, profile: Profile, count: int)
    requires
        agree_apart_from(before, host, profile),
        0 <= count <= removal(profile).len(),
    ensures
        agree_apart_from(before, performed_all(host, removal(profile).take(count)), profile),
{
    lemma_removal_own(profile);
    let part = removal(profile).take(count);
    assert forall|i: int| 0 <= i < part.len() implies is_own_task(profile, #[trigger] part[i]) by {
        assert(is_own_task(profile, removal(profile)[i]));
    }
    lemma_own_tasks_agree(before, host, profile, part);
}

proof fn lemma_performed_concat(host: Host, first: Seq<Task>, second: Seq<Task>)
    ensures
        performed_all(host, first + second) == performed_all(performed_all(host, first), second),
    decreases second.len(),
{
    if second.len() == 0 {
        assert(first + second =~= first);
    } else {
        lemma_performed_concat(host, first, second.drop_last());
        assert((first + second).drop_last() =~= first + second.drop_last());
    }
}

/// Whether nothing of a profile is left: no module, no rule, and no label on a path that exists.
pub open spec fn is_clear_of(host: Host, profile: Profile) -> bool {
    &&& forall|module: Seq<char>|
        is_own_module(profile, module) ==> !#[trigger] host.modules.contains(module)
    &&& forall|regex: Seq<char>|
        is_own_rule(profile, regex) ==> !#[trigger] host.rules.dom().contains(regex)
    &&& forall|path: Seq<char>|
        is_own_path(profile, path) && host.paths.contains(path)
            ==> !#[trigger] host.labels.dom().contains(path)
}

/// Whether the rules and labels of the first `count` directories, and of the executable, are gone.
pub open spec fn is_stripped(host: Host, profile: Profile, count: int) -> bool {
    &&& !host.rules.dom().contains(expression_of(profile.executable, true))
    &&& host.paths.contains(profile.executable) ==> !host.labels.dom().contains(profile.executable)
    &&& forall|i: int|
        0 <= i < count ==> !host.rules.dom().contains(
            expression_of(#[trigger] profile.data_directories[i], false),
        )
    &&& forall|i: int|
        0 <= i < count && host.paths.contains(#[trigger] profile.data_directories[i])
            ==> !host.labels.dom().contains(profile.data_directories[i])
}

proof fn lemma_two(host: Host, list: Seq<Task>)
    requires
        list.len() == 2,
    ensures
        performed_all(host, list) == performed(performed(host, list[0]), list[1]),
{
    reveal_with_fuel(performed_all, 3);
    assert(list.drop_last().drop_last() =~= Seq::<Task>::empty());
}

proof fn lemma_three(host: Host, list: Seq<Task>)
    requires
        list.len() == 3,
    ensures
        performed_all(host, list) == performed(
            performed(performed(host, list[0]), list[1]),
            list[2],
        ),
{
    reveal_with_fuel(performed_all, 4);
    assert(list.drop_last().drop_last().drop_last() =~= Seq::<Task>::empty());
}

proof fn lemma_stripping(host: Host, profile: Profile, count: nat)
    requires
        count <= profile.data_directories.len(),
    ensures
        ({
            let after = performed_all(
                performed_all(host, deny_removal(profile)),
                directories_removal(profile.data_directories, count),
            );
            &&& is_stripped(after, profile, count as int)
            &&& after.modules == host.modules.remove(names_of(profile.id).deny_module)
            &&& after.paths == host.paths
        }),
    decreases count,
{
    let start = performed_all(host, deny_removal(profile));
    lemma_three(host, deny_removal(profile));
    if count > 0 {
        let shorter = (count - 1) as nat;
        lemma_stripping(host, profile, shorter);
        let directory = profile.data_directories[count - 1];
        let before = directories_removal(profile.data_directories, shorter);
        lemma_performed_concat(start, before, directory_removal(directory));
        lemma_two(performed_all(start, before), directory_removal(directory));
    }
}

/// Removal leaves nothing of a profile behind, whatever state the system was in before: both
/// modules are gone, all rules are gone, and no path that exists carries a label of its own.
pub proof fn removal_clears_everything(host: Host, profile: Profile)
    ensures
        is_clear_of(performed_all(host, removal(profile)), profile),
{
    let count = profile.data_directories.len();
    let directories = directories_removal(profile.data_directories, count);
    let last = Task::RemoveModule { module: names_of(profile.id).module };
    lemma_stripping(host, profile, count);
    lemma_performed_concat(host, deny_removal(profile), directories);
    let body = deny_removal(profile) + directories;
    assert(removal(profile).drop_last() =~= body);
    let after = performed_all(host, removal(profile));
    assert(after == performed(performed_all(host, body), last));
    assert forall|regex: Seq<char>| is_own_rule(profile, regex) implies !#[trigger] after.rules.dom().contains(
        regex,
    ) by {
        if regex != expression_of(profile.executable, true) {
            let i = choose|i: int|
                0 <= i < profile.data_directories.len() && regex == expression_of(
                    #[trigger] profile.data_directories[i],
                    false,
                );
            assert(!after.rules.dom().contains(
                expression_of(profile.data_directories[i], false),
            ));
        }
    }
    assert forall|path: Seq<char>|
        is_own_path(profile, path) && after.paths.contains(path) implies !#[trigger] after.labels.dom().contains(
    path) by {
        if path != profile.executable {
            let i = choose|i: int|
                0 <= i < profile.data_directories.len() && profile.data_directories[i] == path;
            assert(!after.labels.dom().contains(profile.data_directories[i]));
        }
    }
}

/// Removal undoes an installation, and any part of one: a system that was clear of a profile is,
/// wherever the installation stopped, after removal as it was before.
pub proof fn removal_undoes_any_installation(
    host: Host,
    profile: Profile,
    work: Seq<char>,
    count: int,
)
    requires
        is_clear_of(host, profile),
        forall|path: Seq<char>| is_own_path(profile, path) ==> #[trigger] host.paths.contains(path),
        0 <= count <= installation(profile, work).len(),
    ensures
        performed_all(
            performed_all(host, installation(profile, work).take(count)),
            removal(profile),
        ) =~= host,
{
    let part = installation(profile, work).take(count);
    let middle = performed_all(host, part);
    let after = performed_all(middle, removal(profile));
    steps_touch_only_their_own(host, profile, work, count);
    lemma_removal_own(profile);
    lemma_own_tasks_agree(host, middle, profile, removal(profile));
    removal_clears_everything(middle, profile);
    assert forall|module: Seq<char>| #[trigger]
        after.modules.contains(module) <==> host.modules.contains(module) by {
        if is_own_module(profile, module) {
            assert(!host.modules.contains(module));
            assert(!after.modules.contains(module));
        }
    }
    assert(after.modules =~= host.modules);
    assert forall|regex: Seq<char>| #[trigger]
        after.rules.dom().contains(regex) <==> host.rules.dom().contains(regex) by {
        if is_own_rule(profile, regex) {
            assert(!host.rules.dom().contains(regex));
            assert(!after.rules.dom().contains(regex));
        } else {
            assert(host.rules.dom().contains(regex) <==> after.rules.dom().contains(regex));
        }
    }
    assert forall|regex: Seq<char>| #[trigger]
        after.rules.dom().contains(regex) implies after.rules[regex] == host.rules[regex] by {
        assert(host.rules.dom().contains(regex));
        assert(!is_own_rule(profile, regex));
    }
    assert(after.rules =~= host.rules);
    assert forall|path: Seq<char>| #[trigger]
        after.labels.dom().contains(path) <==> host.labels.dom().contains(path) by {
        if is_own_path(profile, path) {
            assert(host.paths.contains(path));
            assert(!host.labels.dom().contains(path));
            assert(!after.labels.dom().contains(path));
        } else {
            assert(host.labels.dom().contains(path) <==> after.labels.dom().contains(path));
        }
    }
    assert forall|path: Seq<char>| #[trigger]
        after.labels.dom().contains(path) implies after.labels[path] == host.labels[path] by {
        assert(host.labels.dom().contains(path));
        assert(!is_own_path(profile, path));
    }
    assert(after.labels =~= host.labels);
}

/// Whether a step changes which modules are installed.
pub open spec fn is_module_task(task: Task) -> bool {
    task is InstallModule || task is RemoveModule
}

proof fn lemma_no_modules(host: Host, list: Seq<Task>)
    requires
        forall|i: int| 0 <= i < list.len() ==> !is_module_task(#[trigger] list[i]),
    ensures
        performed_all(host, list).modules == host.modules,
    decreases list.len(),
{
    if list.len() > 0 {
        let shorter = list.drop_last();
        assert forall|i: int| 0 <= i < shorter.len() implies !is_module_task(
            #[trigger] shorter[i],
        ) by {
            assert(!is_module_task(list[i]));
        }
        lemma_no_modules(host, shorter);
        assert(!is_module_task(list[list.len() - 1]));
    }
}

proof fn lemma_directories_install_modules(names: Names, directories: Seq<Seq<char>>, count: nat)
    ensures
        forall|i: int|
            0 <= i < directories_install(names, directories, count).len() ==> !is_module_task(
                #[trigger] directories_install(names, directories, count)[i],
            ),
    decreases count,
{
    if count > 0 {
        lemma_directories_install_modules(names, directories, (count - 1) as nat);
        let before = directories_install(names, directories, (count - 1) as nat);
        let last = directory_install(names, directories[count - 1]);
        let all = directories_install(names, directories, count);
        assert forall|i: int| 0 <= i < all.len() implies !is_module_task(#[trigger] all[i]) by {
            if i < before.len() {
                assert(all[i] == before[i]);
            } else {
                assert(all[i] == last[i - before.len()]);
            }
        }
    }
}

proof fn lemma_directories_removal_modules(directories: Seq<Seq<char>>, count: nat)
    ensures
        forall|i: int|
            0 <= i < directories_removal(directories, count).len() ==> !is_module_task(
                #[trigger] directories_removal(directories, count)[i],
            ),
    decreases count,
{
    if count > 0 {
        lemma_directories_removal_modules(directories, (count - 1) as nat);
        let before = directories_removal(directories, (count - 1) as nat);
        let last = directory_removal(directories[count - 1]);
        let all = directories_removal(directories, count);
        assert forall|i: int| 0 <= i < all.len() implies !is_module_task(#[trigger] all[i]) by {
            if i < before.len() {
                assert(all[i] == before[i]);
            } else {
                assert(all[i] == last[i - before.len()]);
            }
        }
    }
}

proof fn lemma_installation_modules(profile: Profile, work: Seq<char>, count: int, host: Host)
    requires
        0 < count < installation(profile, work).len(),
    ensures
        performed_all(host, installation(profile, work).take(count)).modules
            == host.modules.insert(names_of(profile.id).module),
{
    let all = installation(profile, work);
    let part = all.take(count);
    let rest = part.skip(1);
    let names = names_of(profile.id);
    let middle = directories_install(
        names,
        profile.data_directories,
        profile.data_directories.len(),
    );
    lemma_directories_install_modules(
        names,
        profile.data_directories,
        profile.data_directories.len(),
    );
    assert forall|i: int| 0 <= i < rest.len() implies !is_module_task(#[trigger] rest[i]) by {
        assert(rest[i] == all[i + 1]);
        if i + 1 >= 3 {
            assert(all[i + 1] == middle[i + 1 - 3]);
        }
    }
    let first = seq![all[0]];
    lemma_performed_concat(host, first, rest);
    assert(first + rest =~= part);
    reveal_with_fuel(performed_all, 2);
    assert(first.drop_last() =~= Seq::<Task>::empty());
    lemma_no_modules(performed_all(host, first), rest);
}

proof fn lemma_removal_modules(profile: Profile, count: int, host: Host)
    requires
        0 < count < removal(profile).len(),
    ensures
        performed_all(host, removal(profile).take(count)).modules == host.modules.remove(
            names_of(profile.id).deny_module,
        ),
{
    let all = removal(profile);
    let part = all.take(count);
    let rest = part.skip(1);
    let middle = directories_removal(profile.data_directories, profile.data_directories.len());
    lemma_directories_removal_modules(profile.data_directories, profile.data_directories.len());
    assert forall|i: int| 0 <= i < rest.len() implies !is_module_task(#[trigger] rest[i]) by {
        assert(rest[i] == all[i + 1]);
        if i + 1 >= 3 {
            assert(all[i + 1] == middle[i + 1 - 3]);
        }
    }
    let first = seq![all[0]];
    lemma_performed_concat(host, first, rest);
    assert(first + rest =~= part);
    reveal_with_fuel(performed_all, 2);
    assert(first.drop_last() =~= Seq::<Task>::empty());
    lemma_no_modules(performed_all(host, first), rest);
}

proof fn lemma_module_names_differ(profile: Profile)
    ensures
        names_of(profile.id).module != names_of(profile.id).deny_module,
{
    reveal_strlit("_deny");
    let names = names_of(profile.id);
    assert(names.deny_module.len() == names.module.len() + 5);
}

/// The deny module is the last thing that is installed and the first that is removed: it is absent
/// wherever an installation stops before its end, and wherever a removal stops after its first
/// step.
pub proof fn deny_module_frames_the_work(host: Host, profile: Profile, work: Seq<char>, count: int)
    requires
        0 <= count,
    ensures
        count < installation(profile, work).len() && !host.modules.contains(
            names_of(profile.id).deny_module,
        ) ==> !performed_all(host, installation(profile, work).take(count)).modules.contains(
            names_of(profile.id).deny_module,
        ),
        0 < count <= removal(profile).len() ==> !performed_all(
            host,
            removal(profile).take(count),
        ).modules.contains(names_of(profile.id).deny_module),
{
    lemma_module_names_differ(profile);
    if count < installation(profile, work).len() {
        if count > 0 {
            lemma_installation_modules(profile, work, count, host);
        } else {
            assert(installation(profile, work).take(0) =~= Seq::<Task>::empty());
        }
    }
    if 0 < count <= removal(profile).len() {
        if count < removal(profile).len() {
            lemma_removal_modules(profile, count, host);
        } else {
            assert(removal(profile).take(count) =~= removal(profile));
            removal_clears_everything(host, profile);
            assert(is_own_module(profile, names_of(profile.id).deny_module));
        }
    }
}

/// Whether the types of a profile stand only in its own rules and on its own paths.
pub open spec fn keeps_types(host: Host, profile: Profile) -> bool {
    &&& forall|regex: Seq<char>| #[trigger]
        host.rules.dom().contains(regex) && is_own_type(profile, host.rules[regex]) ==> is_own_rule(
            profile,
            regex,
        )
    &&& forall|path: Seq<char>| #[trigger]
        host.labels.dom().contains(path) && is_own_type(profile, host.labels[path]) ==> is_own_path(
            profile,
            path,
        )
}

/// Whether the base module of a profile is installed wherever a rule, or the label of a path that
/// exists, uses one of its types.
pub open spec fn is_typed(host: Host, profile: Profile) -> bool {
    host.modules.contains(names_of(profile.id).module) || {
        &&& forall|regex: Seq<char>| #[trigger]
            host.rules.dom().contains(regex) ==> !is_own_type(profile, host.rules[regex])
        &&& forall|path: Seq<char>| #[trigger]
            host.labels.dom().contains(path) && host.paths.contains(path) ==> !is_own_type(
                profile,
                host.labels[path],
            )
    }
}

/// Whether a step can only take labels away, not bring new ones.
pub open spec fn is_removing(task: Task) -> bool {
    task is DeleteRule || task is Restore || task is RemoveModule
}

/// Whether no rule, and no label of a path that exists, uses a type of a profile.
pub open spec fn is_untyped(host: Host, profile: Profile) -> bool {
    &&& forall|regex: Seq<char>| #[trigger]
        host.rules.dom().contains(regex) ==> !is_own_type(profile, host.rules[regex])
    &&& forall|path: Seq<char>| #[trigger]
        host.labels.dom().contains(path) && host.paths.contains(path) ==> !is_own_type(
            profile,
            host.labels[path],
        )
}

proof fn lemma_removing_keeps_untyped(host: Host, profile: Profile, list: Seq<Task>)
    requires
        is_untyped(host, profile),
        forall|i: int| 0 <= i < list.len() ==> is_removing(#[trigger] list[i]),
    ensures
        is_untyped(performed_all(host, list), profile),
    decreases list.len(),
{
    if list.len() > 0 {
        let shorter = list.drop_last();
        assert forall|i: int| 0 <= i < shorter.len() implies is_removing(#[trigger] shorter[i]) by {
            assert(is_removing(list[i]));
        }
        lemma_removing_keeps_untyped(host, profile, shorter);
        let before = performed_all(host, shorter);
        let after = performed(before, list.last());
        assert(is_removing(list[list.len() - 1]));
        assert forall|path: Seq<char>| #[trigger]
            after.labels.dom().contains(path) && after.paths.contains(path) implies !is_own_type(
            profile,
            after.labels[path],
        ) by {
            if before.labels.dom().contains(path) && before.labels[path] == after.labels[path] {
            } else {
                assert(list.last() is Restore);
                let regex = expression_of(path, !list.last()->Restore_recursive);
                assert(before.rules.dom().contains(regex));
            }
        }
    }
}

proof fn lemma_directories_removal_removing(directories: Seq<Seq<char>>, count: nat)
    ensures
        forall|i: int|
            0 <= i < directories_removal(directories, count).len() ==> is_removing(
                #[trigger] directories_removal(directories, count)[i],
            ),
    decreases count,
{
    if count > 0 {
        lemma_directories_removal_removing(directories, (count - 1) as nat);
        let before = directories_removal(directories, (count - 1) as nat);
        let last = directory_removal(directories[count - 1]);
        let all = directories_removal(directories, count);
        assert forall|i: int| 0 <= i < all.len() implies is_removing(#[trigger] all[i]) by {
            if i < before.len() {
                assert(all[i] == before[i]);
            } else {
                assert(all[i] == last[i - before.len()]);
            }
        }
    }
}

proof fn lemma_removal_removing(profile: Profile)
    ensures
        forall|i: int| 0 <= i < removal(profile).len() ==> is_removing(#[trigger] removal(profile)[i]),
{
    let middle = directories_removal(profile.data_directories, profile.data_directories.len());
    lemma_directories_removal_removing(profile.data_directories, profile.data_directories.len());
    let all = removal(profile);
    assert forall|i: int| 0 <= i < all.len() implies is_removing(#[trigger] all[i]) by {
        if 3 <= i < all.len() - 1 {
            assert(all[i] == middle[i - 3]);
        }
    }
}

/// The base module is never missing while something uses its types: where that holds of a system,
/// it holds wherever an installation or a removal stops.
pub proof fn types_exist_while_they_are_used(
    host: Host,
    profile: Profile,
    work: Seq<char>,
    count: int,
)
    requires
        is_typed(host, profile),
        keeps_types(host, profile),
        0 <= count,
    ensures
        count <= installation(profile, work).len() ==> is_typed(
            performed_all(host, installation(profile, work).take(count)),
            profile,
        ),
        count <= removal(profile).len() ==> is_typed(
            performed_all(host, removal(profile).take(count)),
            profile,
        ),
{
    lemma_module_names_differ(profile);
    let all = installation(profile, work);
    if count <= all.len() {
        if count == 0 {
            assert(all.take(0) =~= Seq::<Task>::empty());
        } else if count < all.len() {
            lemma_installation_modules(profile, work, count, host);
        } else {
            let shorter = all.take(count - 1);
            lemma_installation_modules(profile, work, count - 1, host);
            assert(all.take(count).drop_last() =~= shorter);
        }
    }
    if count <= removal(profile).len() {
        let part = removal(profile).take(count);
        lemma_removal_removing(profile);
        assert forall|i: int| 0 <= i < part.len() implies is_removing(#[trigger] part[i]) by {
            assert(is_removing(removal(profile)[i]));
        }
        if !host.modules.contains(names_of(profile.id).module) {
            lemma_removing_keeps_untyped(host, profile, part);
        } else if count == 0 {
            assert(part =~= Seq::<Task>::empty());
        } else if count < removal(profile).len() {
            lemma_removal_modules(profile, count, host);
        } else {
            assert(part =~= removal(profile));
            let after = performed_all(host, part);
            removal_clears_everything(host, profile);
            lemma_removal_own(profile);
            lemma_types_stay_own(host, profile, part);
            assert forall|regex: Seq<char>| #[trigger]
                after.rules.dom().contains(regex) implies !is_own_type(
                profile,
                after.rules[regex],
            ) by {
                if is_own_type(profile, after.rules[regex]) {
                    assert(is_own_rule(profile, regex));
                }
            }
        }
    }
}

proof fn lemma_types_stay_own(host: Host, profile: Profile, list: Seq<Task>)
    requires
        keeps_types(host, profile),
        all_own(profile, list),
        forall|i: int| 0 <= i < list.len() ==> is_removing(#[trigger] list[i]),
    ensures
        keeps_types(performed_all(host, list), profile),
    decreases list.len(),
{
    if list.len() > 0 {
        let shorter = list.drop_last();
        assert forall|i: int| 0 <= i < shorter.len() implies is_removing(#[trigger] shorter[i])
            && is_own_task(profile, shorter[i]) by {
            assert(is_removing(list[i]));
            assert(is_own_task(profile, list[i]));
        }
        lemma_types_stay_own(host, profile, shorter);
        assert(is_removing(list[list.len() - 1]));
        assert(is_own_task(profile, list[list.len() - 1]));
    }
}

/// Whether a profile is in force: its modules are installed, and its rules and labels are those of
/// its types.
pub open spec fn is_protected(host: Host, profile: Profile) -> bool {
    let names = names_of(profile.id);
    &&& host.modules.contains(names.module)
    &&& host.modules.contains(names.deny_module)
    &&& is_labelled(host, profile, profile.data_directories.len() as int)
}

/// Whether the rules and labels of the executable and of the first `count` directories are those of
/// the profile's types.
pub open spec fn is_labelled(host: Host, profile: Profile, count: int) -> bool {
    let names = names_of(profile.id);
    &&& has_rule(host, expression_of(profile.executable, true), names.exec_type)
    &&& has_label(host, profile.executable, names.exec_type)
    &&& forall|i: int|
        0 <= i < count ==> has_rule(
            host,
            expression_of(#[trigger] profile.data_directories[i], false),
            names.data_type,
        )
    &&& forall|i: int|
        0 <= i < count ==> has_label(host, #[trigger] profile.data_directories[i], names.data_type)
}

pub open spec fn has_rule(host: Host, regex: Seq<char>, label: Seq<char>) -> bool {
    host.rules.dom().contains(regex) && host.rules[regex] == label
}

pub open spec fn has_label(host: Host, path: Seq<char>, label: Seq<char>) -> bool {
    host.labels.dom().contains(path) && host.labels[path] == label
}

/// Whether the paths of a profile are all different.
pub open spec fn has_distinct_paths(profile: Profile) -> bool {
    &&& !profile.data_directories.contains(profile.executable)
    &&& profile.data_directories.no_duplicates()
}

proof fn lemma_expressions_differ(profile: Profile, i: int, j: int)
    requires
        has_distinct_paths(profile),
        0 <= i < profile.data_directories.len(),
        0 <= j < profile.data_directories.len(),
        i != j,
    ensures
        expression_of(profile.data_directories[i], false) != expression_of(
            profile.data_directories[j],
            false,
        ),
        expression_of(profile.data_directories[i], false) != expression_of(profile.executable, true),
{
    let left = profile.data_directories[i];
    let right = profile.data_directories[j];
    lemma_executable_expression(profile, i);
    let first = expression_of(left, false);
    let second = expression_of(right, false);
    if first == second {
        reveal_strlit("(/.*)?");
        assert(first.take(first.len() - 6) =~= escaped(left));
        assert(second.take(second.len() - 6) =~= escaped(right));
        escaping_is_injective(left, right);
    }
}

proof fn lemma_executable_expression(profile: Profile, i: int)
    requires
        0 <= i < profile.data_directories.len(),
    ensures
        expression_of(profile.data_directories[i], false) != expression_of(profile.executable, true),
{
    lemma_expressions_apart(profile.executable, profile.data_directories[i]);
}

proof fn lemma_labelling(host: Host, profile: Profile, work: Seq<char>, count: nat)
    requires
        has_distinct_paths(profile),
        count <= profile.data_directories.len(),
    ensures
        is_labelled(
            performed_all(
                performed_all(host, base_install(profile, work)),
                directories_install(names_of(profile.id), profile.data_directories, count),
            ),
            profile,
            count as int,
        ),
    decreases count,
{
    let names = names_of(profile.id);
    let start = performed_all(host, base_install(profile, work));
    lemma_three(host, base_install(profile, work));
    if count > 0 {
        let shorter = (count - 1) as nat;
        lemma_labelling(host, profile, work, shorter);
        let directory = profile.data_directories[count - 1];
        let before = directories_install(names, profile.data_directories, shorter);
        lemma_performed_concat(start, before, directory_install(names, directory));
        let middle = performed_all(start, before);
        lemma_two(middle, directory_install(names, directory));
        let after = performed_all(
            start,
            directories_install(names, profile.data_directories, count),
        );
        lemma_executable_expression(profile, count - 1);
        assert(profile.data_directories.contains(directory));
        assert forall|i: int| 0 <= i < count implies has_rule(
            after,
            expression_of(#[trigger] profile.data_directories[i], false),
            names.data_type,
        ) && has_label(after, profile.data_directories[i], names.data_type) by {
            if i < count - 1 {
                lemma_expressions_differ(profile, i, count - 1);
                assert(has_rule(
                    middle,
                    expression_of(profile.data_directories[i], false),
                    names.data_type,
                ));
                assert(has_label(middle, profile.data_directories[i], names.data_type));
                assert(profile.data_directories[i] != directory);
            }
        }
    }
}

/// A complete installation puts a profile in force, whatever state the system was in before.
pub proof fn installation_protects(host: Host, profile: Profile, work: Seq<char>)
    requires
        has_distinct_paths(profile),
    ensures
        is_protected(performed_all(host, installation(profile, work)), profile),
{
    let count = profile.data_directories.len();
    let names = names_of(profile.id);
    let directories = directories_install(names, profile.data_directories, count);
    lemma_labelling(host, profile, work, count);
    lemma_performed_concat(host, base_install(profile, work), directories);
    let body = base_install(profile, work) + directories;
    let all = installation(profile, work);
    assert(all.drop_last() =~= body);
    assert(all.take(all.len() - 1) =~= body);
    lemma_installation_modules(profile, work, all.len() - 1, host);
    let before = performed_all(host, body);
    let after = performed(before, deny_install(profile, work));
    assert(after == performed_all(host, all));
    assert forall|i: int| 0 <= i < count implies has_rule(
        after,
        expression_of(#[trigger] profile.data_directories[i], false),
        names.data_type,
    ) && has_label(after, profile.data_directories[i], names.data_type) by {
        assert(has_rule(
            before,
            expression_of(profile.data_directories[i], false),
            names.data_type,
        ));
        assert(has_label(before, profile.data_directories[i], names.data_type));
    }
}

/// The paths of a normalized profile are all different.
pub proof fn separated_paths_differ(profile: Profile)
    requires
        is_separated(profile.executable, profile.data_directories),
    ensures
        has_distinct_paths(profile),
{
    let paths = profile.data_directories;
    if paths.contains(profile.executable) {
        let i = choose|i: int| 0 <= i < paths.len() && paths[i] == profile.executable;
        assert(path_under(profile.executable, paths[i])) by {
            assert(parts(paths[i]).is_prefix_of(parts(paths[i])));
        }
    }
    assert forall|i: int, j: int|
        0 <= i < paths.len() && 0 <= j < paths.len() && i != j implies paths[i] != paths[j] by {
        if paths[i] == paths[j] {
            assert(parts(paths[i]).is_prefix_of(parts(paths[i])));
            assert(path_under(paths[i], paths[j]));
        }
    }
}

} // verus!
