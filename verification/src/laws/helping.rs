//! The privileged helper: what it runs, what it accepts, and how it updates a profile.

use crate::command::Call;
use crate::compile::Stage;
use crate::engine::normalize::{found_executable, Findings, Resolution};
use crate::engine::steps::installation;
use crate::files::FileFacts;
use crate::helper::{
    answer_ok, application, asked, deduplicated, executable_at, helper_located, helper_normalized,
    make_call, moved, required_commands, resolved_directories, resolved_directory, HelperPhase,
    HelperTask, HelperWork,
};
use crate::laws::changing::with_cleanup;
use crate::laws::resolving::{holds_nothing, searches_find_the_first};
use crate::laws::steps::installations_take_these_steps;
use crate::laws::system::place_of;
use crate::model::{names_of, Profile};
use crate::order::arranged;
use crate::path::{by_path, names, parts, path_equal, path_under};
use crate::policy::{base_module, deny_module, profile_fault};
use crate::search::lemma_first_of_none;
use vstd::prelude::*;

verus! {

/// The commands that the helper needs, and the one by which it compiles.
pub proof fn helpers_need_these_commands(module: Seq<char>)
    ensures
        required_commands() == seq![
            "getenforce"@,
            "make"@,
            "restorecon"@,
            "semanage"@,
            "semodule"@,
        ],
        make_call(module) == (Call {
            program: "make"@,
            arguments: seq!["-f"@, "/usr/share/selinux/devel/Makefile"@, module + ".pp"@],
        }),
{
}

/// Whether what was found is a file that can be executed.
pub open spec fn can_run(found: Option<FileFacts>) -> bool {
    found matches Some(facts) && facts.file && facts.mode & 0o111 != 0
}

/// A command of the helper is the first executable file of its name in the four system directories.
pub proof fn helper_commands_are_found_in_order(
    command: Seq<char>,
    found: Seq<Option<FileFacts>>,
    index: int,
)
    requires
        found.len() == 4,
        0 <= index < 4,
    ensures
        command.contains('/') ==> helper_located(command, found) == Err::<Seq<char>, Seq<char>>(
            "Command names must not contain '/'"@,
        ),
        !command.contains('/') && can_run(found[index]) && (forall|i: int|
            0 <= i < index ==> !can_run(#[trigger] found[i])) ==> helper_located(command, found)
            == Ok::<Seq<char>, Seq<char>>(place_of(command, index)),
        !command.contains('/') && (forall|i: int| 0 <= i < 4 ==> !can_run(#[trigger] found[i]))
            ==> helper_located(command, found) == Err::<Seq<char>, Seq<char>>("Command not found"@),
{
    let probe = executable_at(command, found);
    assert forall|i: int| 0 <= i < 4 implies (#[trigger] probe(i)) == if can_run(found[i]) {
        Some(place_of(command, i))
    } else {
        None
    } by {
        crate::laws::system::commands_are_found_in_order(command, found, i);
    }
    lemma_first_of_none(4, probe);
    if can_run(found[index]) && (forall|i: int| 0 <= i < index ==> !can_run(#[trigger] found[i])) {
        assert forall|i: int| 0 <= i < index implies (#[trigger] probe(i)) is None by {
            assert(!can_run(found[i]));
        }
        searches_find_the_first(4, probe, index);
    }
    if forall|i: int| 0 <= i < 4 ==> !can_run(#[trigger] found[i]) {
        assert forall|i: int| 0 <= i < 4 implies (#[trigger] probe(i)) is None by {
            assert(!can_run(found[i]));
        }
    }
}

/// What the helper does to apply a profile: it writes and compiles the base module, installs it with
/// the rules and labels, and writes and installs the deny module behind all of them. An invalid
/// profile gets nothing done.
pub proof fn helpers_apply_in_this_order(profile: Profile, work: Seq<char>)
    ensures
        profile_fault(profile) matches Some(message) ==> application(profile, work) == Err::<
            Seq<HelperTask>,
            Seq<char>,
        >(message),
        profile_fault(profile) is None ==> application(profile, work) is Ok && {
            let list = application(profile, work)->Ok_0;
            let steps = installation(profile, work);
            let own = names_of(profile.id);
            let size = list.len() as int;
            &&& list.len() == steps.len() + 3
            &&& list[0] == HelperTask::Build(
                Stage::Write {
                    path: work + "/"@ + (own.module + ".te"@),
                    contents: base_module(profile),
                },
            )
            &&& list[1] == HelperTask::Build(
                Stage::Run {
                    command: make_call(own.module),
                    context: "Could not compile the SELinux type-enforcement module"@,
                },
            )
            &&& forall|i: int|
                0 <= i < steps.len() - 1 ==> #[trigger] list[i + 2] == HelperTask::Install(steps[i])
            &&& list[size - 2] == HelperTask::Build(
                Stage::Write {
                    path: work + "/"@ + (own.module + "_deny"@ + ".cil"@),
                    contents: deny_module(profile),
                },
            )
            &&& list[size - 1] == HelperTask::Install(steps[steps.len() - 1])
        },
{
    installations_take_these_steps(profile, work);
}

/// An answer of the helper says whether it succeeded, and with what message.
pub proof fn answers_tell_the_outcome(message: String, error: crate::error::Error)
    ensures
        answer_ok(Ok(message)) == (true, message@),
        answer_ok(Err(error)) == (false, error@),
{
}

/// A directory of the helper is accepted exactly where it leads to a directory that is at least three
/// names deep.
pub proof fn helper_directories_are_deep_enough(path: Seq<char>, finding: Resolution)
    ensures
        ({
            let found = resolved_directory(path, finding);
            let place = finding.resolved->Ok_0@;
            &&& found is Ok <==> finding.resolved is Ok && (finding.facts matches Ok(facts)
                && facts.directory) && names(parts(place)) >= 3
            &&& found is Ok ==> found == Ok::<Seq<char>, Seq<char>>(place)
            &&& finding.resolved matches Err(error) ==> found == Err::<Seq<char>, Seq<char>>(
                "Could not resolve "@ + path + ": "@ + error@,
            )
            &&& finding.resolved is Ok && !(finding.facts matches Ok(facts) && facts.directory)
                ==> found == Err::<Seq<char>, Seq<char>>(place + " is not a directory"@)
        }),
{
}

/// Directories are resolved one after the other, and the first that is refused is told.
pub proof fn helper_directories_are_resolved_one_by_one(
    paths: Seq<Seq<char>>,
    findings: Seq<Resolution>,
    count: nat,
)
    requires
        0 < count,
    ensures
        resolved_directories(paths, findings, 0) == Ok::<Seq<Seq<char>>, Seq<char>>(Seq::empty()),
        resolved_directories(paths, findings, (count - 1) as nat) is Err ==> resolved_directories(
            paths,
            findings,
            count,
        ) == resolved_directories(paths, findings, (count - 1) as nat),
        resolved_directories(paths, findings, (count - 1) as nat) matches Ok(before)
            ==> resolved_directories(paths, findings, count) == match resolved_directory(
            paths[count - 1],
            findings[count - 1],
        ) {
            Ok(path) => Ok::<Seq<Seq<char>>, Seq<char>>(before.push(path)),
            Err(message) => Err(message),
        },
{
}

/// Whether a path is among those of a list.
pub open spec fn is_among(paths: Seq<Seq<char>>, path: Seq<char>) -> bool {
    exists|k: int| 0 <= k < paths.len() && path_equal(#[trigger] paths[k], path)
}

proof fn lemma_last_kept(paths: Seq<Seq<char>>)
    ensures
        deduplicated(paths).len() <= paths.len(),
        paths.len() > 0 ==> deduplicated(paths).len() > 0 && path_equal(
            deduplicated(paths).last(),
            paths.last(),
        ),
    decreases paths.len(),
{
    if paths.len() > 0 {
        lemma_last_kept(paths.drop_last());
    }
}

/// A list whose neighbours were made different has no two neighbours that are the same.
pub proof fn neighbours_are_made_different(paths: Seq<Seq<char>>, index: int)
    requires
        0 <= index < deduplicated(paths).len() - 1,
    ensures
        !path_equal(deduplicated(paths)[index], deduplicated(paths)[index + 1]),
    decreases paths.len(),
{
    let before = deduplicated(paths.drop_last());
    if index < before.len() - 1 {
        neighbours_are_made_different(paths.drop_last(), index);
    }
}

/// Making neighbours different takes no path out altogether: each is still among those that are left.
pub proof fn no_path_is_lost(paths: Seq<Seq<char>>, index: int)
    requires
        0 <= index < paths.len(),
    ensures
        is_among(deduplicated(paths), paths[index]),
    decreases paths.len(),
{
    let shorter = paths.drop_last();
    let before = deduplicated(shorter);
    let result = deduplicated(paths);
    if index < shorter.len() {
        no_path_is_lost(shorter, index);
        let k = choose|k: int|
            0 <= k < before.len() && path_equal(#[trigger] before[k], shorter[index]);
        assert(result[k] == before[k]);
        assert(path_equal(result[k], paths[index]));
    } else {
        lemma_last_kept(paths);
        assert(path_equal(result[result.len() - 1], paths[index]));
    }
}

/// Making neighbours different adds no path: each that is left was in the list.
pub proof fn no_path_is_added(paths: Seq<Seq<char>>, index: int)
    requires
        0 <= index < deduplicated(paths).len(),
    ensures
        paths.contains(deduplicated(paths)[index]),
    decreases paths.len(),
{
    let shorter = paths.drop_last();
    let before = deduplicated(shorter);
    if index < before.len() {
        no_path_is_added(shorter, index);
        let k = choose|k: int| 0 <= k < shorter.len() && shorter[k] == before[index];
        assert(paths[k] == before[index]);
    } else {
        assert(paths[paths.len() - 1] == deduplicated(paths)[index]);
    }
}

/// What the helper makes of a profile: it differs from what was asked for in nothing but its paths,
/// it is valid, its executable is where it was found, and its directories are those that were
/// resolved, in their order and each once.
pub proof fn helpers_keep_all_but_the_paths(profile: Profile, findings: Findings)
    ensures
        ({
            let paths = profile.data_directories;
            let executable = found_executable(profile.executable, None, findings.executable);
            let found = resolved_directories(paths, findings.directories@, paths.len());
            let result = helper_normalized(profile, findings);
            &&& profile_fault(profile) matches Some(message) ==> result == Err::<Profile, Seq<char>>(
                message,
            )
            &&& profile_fault(profile) is None && executable is Err ==> result == Err::<
                Profile,
                Seq<char>,
            >(executable->Err_0)
            &&& profile_fault(profile) is None && executable is Ok && found is Err ==> result == Err::<
                Profile,
                Seq<char>,
            >(found->Err_0)
            &&& result matches Ok(settled) ==> {
                &&& profile_fault(profile) is None && executable is Ok && found is Ok
                &&& settled.schema_version == profile.schema_version
                &&& settled.id == profile.id
                &&& settled.name == profile.name
                &&& settled.launch_domain == profile.launch_domain
                &&& settled.launch_role == profile.launch_role
                &&& settled.block_ptrace == profile.block_ptrace
                &&& settled.block_fd_use == profile.block_fd_use
                &&& settled.executable == executable->Ok_0
                &&& settled.data_directories == deduplicated(arranged(found->Ok_0, by_path()))
                &&& profile_fault(settled) is None
                &&& forall|i: int|
                    0 <= i < settled.data_directories.len() ==> !path_under(
                        settled.executable,
                        #[trigger] settled.data_directories[i],
                    )
            }
        }),
{
    let paths = profile.data_directories;
    if let Ok(settled) = helper_normalized(profile, findings) {
        let list = settled.data_directories;
        let probe = crate::engine::normalize::containment_at(settled.executable, list);
        lemma_first_of_none(list.len(), probe);
        assert forall|i: int| 0 <= i < list.len() implies !path_under(
            settled.executable,
            #[trigger] list[i],
        ) by {
            assert(probe(i) is None);
        }
    }
}

/// What an undisturbed update of the helper does: the previous version is taken out, if there is any,
/// then what stands in the way is looked for, and the new version is applied and stored.
pub proof fn undisturbed_helpers_do_this(profile: Profile, previous: Option<Profile>, has: bool)
    ensures
        asked(HelperPhase::RemovingPrevious, profile, previous) == Some(
            HelperWork::Teardown(previous->Some_0),
        ),
        moved(HelperPhase::RemovingPrevious, has, Ok(())) == HelperPhase::Checking,
        asked(HelperPhase::Checking, profile, previous) == Some(HelperWork::Preflight(profile)),
        moved(HelperPhase::Checking, has, Ok(())) == HelperPhase::Applying,
        asked(HelperPhase::Applying, profile, previous) == Some(HelperWork::Apply(profile)),
        moved(HelperPhase::Applying, has, Ok(())) == HelperPhase::Saving,
        asked(HelperPhase::Saving, profile, previous) == Some(HelperWork::Save(profile)),
        moved(HelperPhase::Saving, has, Ok(())) == HelperPhase::Over(Ok(())),
        asked(HelperPhase::Over(Ok(())), profile, previous) is None,
{
}

/// What the helper does where the previous version could not be taken out, and where something stands
/// in the way: nothing of the new version is applied, and a previous version that was taken out is
/// applied and stored again.
pub proof fn refused_helper_updates_restore(
    profile: Profile,
    old: Profile,
    message: Seq<char>,
    trouble: Seq<char>,
)
    ensures
        ({
            let previous = Some(old);
            let first = moved(HelperPhase::Checking, true, Err(message));
            let second = moved(first, true, Ok(()));
            let stuck = "The previous profile could not be restored: "@ + trouble + ": "@ + message;
            &&& moved(HelperPhase::RemovingPrevious, true, Err(message)) == HelperPhase::Over(
                Err("Could not remove the previous policy before updating"@ + ": "@ + message),
            )
            &&& moved(HelperPhase::Checking, false, Err(message)) == HelperPhase::Over(Err(message))
            &&& asked(first, profile, previous) == Some(HelperWork::Apply(old))
            &&& asked(second, profile, previous) == Some(HelperWork::Save(old))
            &&& moved(second, true, Ok(())) == HelperPhase::Over(Err(message))
            &&& moved(first, true, Err(trouble)) == HelperPhase::Over(Err(stuck))
            &&& moved(second, true, Err(trouble)) == HelperPhase::Over(Err(stuck))
        }),
{
}

/// What the helper does where applying or storing fails: whatever becomes of the temporary snapshot,
/// the new version is taken out, and a previous version is applied and stored again. Every failure
/// on the way is told.
pub proof fn failed_helper_updates_are_taken_back(
    profile: Profile,
    old: Profile,
    saving: bool,
    message: Seq<char>,
    temporary: Result<(), Seq<char>>,
    cleanup: Result<(), Seq<char>>,
    trouble: Seq<char>,
)
    ensures
        ({
            let failing = if saving {
                HelperPhase::Saving
            } else {
                HelperPhase::Applying
            };
            let told = with_cleanup(message, cleanup);
            let stuck = told + "; restoring the previous profile also failed: "@ + trouble;
            let first = moved(failing, true, Err(message));
            let second = moved(first, true, temporary);
            let third = moved(second, true, cleanup);
            let fourth = moved(third, true, Ok(()));
            &&& asked(first, profile, Some(old)) == Some(HelperWork::RemoveTemporary(profile.id))
            &&& asked(second, profile, Some(old)) == Some(HelperWork::Teardown(profile))
            &&& asked(third, profile, Some(old)) == Some(HelperWork::Apply(old))
            &&& asked(fourth, profile, Some(old)) == Some(HelperWork::Save(old))
            &&& moved(fourth, true, Ok(())) == HelperPhase::Over(Err(told))
            &&& moved(third, true, Err(trouble)) == HelperPhase::Over(Err(stuck))
            &&& moved(fourth, true, Err(trouble)) == HelperPhase::Over(Err(stuck))
            &&& moved(
                moved(moved(failing, false, Err(message)), false, temporary),
                false,
                cleanup,
            ) == HelperPhase::Over(Err(told))
        }),
{
}

/// Success is owed: the helper accepts every valid profile whose paths were found, whose directories
/// hold neither each other nor the executable, and which is still valid with the paths where they
/// lead.
pub proof fn sound_profiles_are_accepted_by_helpers(profile: Profile, findings: Findings)
    requires
        profile_fault(profile) is None,
        found_executable(profile.executable, None, findings.executable) is Ok,
        resolved_directories(
            profile.data_directories,
            findings.directories@,
            profile.data_directories.len(),
        ) is Ok,
        ({
            let executable = found_executable(
                profile.executable,
                None,
                findings.executable,
            )->Ok_0;
            let found = resolved_directories(
                profile.data_directories,
                findings.directories@,
                profile.data_directories.len(),
            )->Ok_0;
            let paths = deduplicated(arranged(found, by_path()));
            &&& holds_nothing(executable, paths)
            &&& profile_fault(Profile { executable, data_directories: paths, ..profile }) is None
        }),
    ensures
        helper_normalized(profile, findings) is Ok,
{
    let executable = found_executable(profile.executable, None, findings.executable)->Ok_0;
    let found = resolved_directories(
        profile.data_directories,
        findings.directories@,
        profile.data_directories.len(),
    )->Ok_0;
    let paths = deduplicated(arranged(found, by_path()));
    let probe = crate::engine::normalize::containment_at(executable, paths);
    lemma_first_of_none(paths.len(), probe);
    assert forall|i: int| 0 <= i < paths.len() implies (#[trigger] probe(i)) is None by {
        let inner = crate::engine::normalize::contained_behind(paths, i);
        let size = (paths.len() - i - 1) as nat;
        lemma_first_of_none(size, inner);
        assert forall|k: int| 0 <= k < size implies (#[trigger] inner(k)) is None by {
            assert(!path_under(paths[i + 1 + k], paths[i]));
        }
        assert(!path_under(executable, paths[i]));
    }
}

/// The directories that the helper accepts do not hold a later one.
pub proof fn helpers_refuse_nested_directories(profile: Profile, findings: Findings)
    ensures
        helper_normalized(profile, findings) matches Ok(settled) ==> forall|i: int, j: int|
            0 <= i < j < settled.data_directories.len() ==> !path_under(
                #[trigger] settled.data_directories[j],
                #[trigger] settled.data_directories[i],
            ),
{
    if let Ok(settled) = helper_normalized(profile, findings) {
        let paths = settled.data_directories;
        let probe = crate::engine::normalize::containment_at(settled.executable, paths);
        lemma_first_of_none(paths.len(), probe);
        assert forall|i: int, j: int| 0 <= i < j < paths.len() implies !path_under(
            #[trigger] paths[j],
            #[trigger] paths[i],
        ) by {
            assert(probe(i) is None);
            let inner = crate::engine::normalize::contained_behind(paths, i);
            lemma_first_of_none((paths.len() - i - 1) as nat, inner);
            assert(i + 1 + (j - i - 1) == j);
            assert(inner(j - i - 1) is None);
        }
    }
}

} // verus!
