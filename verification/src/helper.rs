//! The privileged helper of desktop front ends: its requests, its checks and its transaction. It
//! serves one request for one profile at a time.

use crate::command::{candidates, command_candidates, Call, Invocation};
use crate::compile::{staged, stages, BuildStep, Stage};
use crate::engine::normalize::{
    containment_at, found_executable, with_paths, Findings, Resolution,
};
use crate::engine::steps::{deny_install, install_steps, installation, tasks, Step, Task};
use crate::error::{fault, in_context, outcome, viewed, Error};
use crate::files::{executable, is_executable, FileFacts};
use crate::model::{names_of, Profile, ProtectionProfile};
use crate::order::arranged;
use crate::path::{by_path, normal_component_count, parts, path_equal, same_path};
use crate::policy::{
    base_module, broad_directory, broad_message, deny_module, profile_fault, render_deny_cil,
    render_type_enforcement, validate_profile, MIN_DIRECTORY_NAMES,
};
use crate::search::{first_of, lemma_first_of};
use crate::sources::{inside, join, sort_paths, string_list};
use crate::text::{characters, contains_char, strings, text2};
use vstd::prelude::*;

verus! {

pub const POLICY_MAKEFILE: &'static str = "/usr/share/selinux/devel/Makefile";

/// The largest request that is read.
pub const MAX_REQUEST_SIZE: usize = 1048576;

/// What the helper is asked for.
#[derive(Debug)]
pub enum HelperRequest {
    Apply { profile: ProtectionProfile },
    Remove { id: u128 },
}

/// What the helper answers.
#[derive(Debug)]
pub struct HelperResponse {
    pub ok: bool,
    pub message: String,
}

/// Refuses to go on without root privileges.
pub fn require_helper_root(effective_user: u32) -> (result: Result<(), Error>)
    ensures
        outcome(result) == if effective_user == 0 {
            Ok::<(), Seq<char>>(())
        } else {
            Err("microvisor-helper must run as root through pkexec"@)
        },
{
    if effective_user != 0 {
        return Err(Error::new("microvisor-helper must run as root through pkexec"));
    }
    Ok(())
}

/// Refuses a request that is larger than the limit.
pub fn check_request_size(size: usize) -> (result: Result<(), Error>)
    ensures
        outcome(result) == if size > MAX_REQUEST_SIZE {
            Err::<(), Seq<char>>("Request exceeds the 1 MiB limit"@)
        } else {
            Ok(())
        },
{
    if size > MAX_REQUEST_SIZE {
        return Err(Error::new("Request exceeds the 1 MiB limit"));
    }
    Ok(())
}

/// The commands that the helper needs, in the order in which they are looked for.
pub open spec fn required_commands() -> Seq<Seq<char>> {
    seq!["getenforce"@, "make"@, "restorecon"@, "semanage"@, "semodule"@]
}

/// The commands that the helper needs, in the order in which they are looked for.
pub fn helper_commands() -> (result: Vec<String>)
    ensures
        strings(result@) == required_commands(),
{
    let result = vec![
        "getenforce".to_owned(),
        "make".to_owned(),
        "restorecon".to_owned(),
        "semanage".to_owned(),
        "semodule".to_owned(),
    ];
    assert(strings(result@) =~= required_commands());
    result
}

/// Refuses a system without the policy development files.
pub fn check_makefile(is_file: bool) -> (result: Result<(), Error>)
    ensures
        outcome(result) == if is_file {
            Ok::<(), Seq<char>>(())
        } else {
            Err("SELinux policy development files are missing: "@ + POLICY_MAKEFILE@)
        },
{
    if !is_file {
        let message = text2("SELinux policy development files are missing: ", POLICY_MAKEFILE);
        return Err(Error { message });
    }
    Ok(())
}

/// The candidate at an index, where an executable file was found there.
pub open spec fn executable_at(command: Seq<char>, found: Seq<Option<FileFacts>>) -> spec_fn(
    int,
) -> Option<Seq<char>> {
    |index: int|
        match found[index] {
            Some(facts) => if facts.file && executable(facts.mode) {
                Some(candidates(command)[index])
            } else {
                None
            },
            None => None,
        }
}

/// The program that a command stands for, given what was found at each candidate.
pub open spec fn helper_located(command: Seq<char>, found: Seq<Option<FileFacts>>) -> Result<
    Seq<char>,
    Seq<char>,
> {
    if command.contains('/') {
        Err("Command names must not contain '/'"@)
    } else {
        match first_of(4, executable_at(command, found)) {
            Some(path) => Ok(path),
            None => Err("Command not found"@),
        }
    }
}

/// Finds a command of the helper, given what was found at each of its candidates.
pub fn find_helper_command(command: &str, found: &[Option<FileFacts>; 4]) -> (result: Result<
    String,
    Error,
>)
    ensures
        viewed(result) == helper_located(command@, found@),
{
    let chars = characters(command);
    if contains_char(chars.as_slice(), '/') {
        return Err(Error::new("Command names must not contain '/'"));
    }
    let paths = command_candidates(command);
    let ghost probe = executable_at(command@, found@);
    let mut index: usize = 0;
    while index < 4
        invariant
            index <= 4,
            found@.len() == 4,
            strings(paths@) == candidates(command@),
            probe == executable_at(command@, found@),
            !command@.contains('/'),
            first_of(index as nat, probe) is None,
        decreases 4 - index,
    {
        if let Some(facts) = &found[index] {
            if facts.file && is_executable(facts.mode) {
                assert(strings(paths@).len() == 4);
                let path = paths[index].clone();
                proof {
                    assert(path@ == strings(paths@)[index as int]);
                    assert(probe(index as int) == Some(path@));
                    lemma_first_of((index + 1) as nat, 4, probe);
                }
                return Ok(path);
            }
        }
        assert(probe(index as int) is None);
        index += 1;
    }
    Err(Error::new("Command not found"))
}

/// The command that builds the base module, run in the directory that holds its source.
pub open spec fn make_call(module: Seq<char>) -> Call {
    Call { program: "make"@, arguments: seq!["-f"@, POLICY_MAKEFILE@, module + ".pp"@] }
}

/// The command that builds the base module, run in the directory that holds its source.
pub fn make_command(module: &str) -> (result: Invocation)
    ensures
        result@ == make_call(module@),
{
    let arguments = vec!["-f".to_owned(), POLICY_MAKEFILE.to_owned(), text2(module, ".pp")];
    assert(strings(arguments@) =~= make_call(module@).arguments);
    Invocation { program: "make".to_owned(), arguments }
}

/// What the helper builds the base module of a profile from, and how, in a directory.
pub open spec fn helper_build(profile: Profile, work: Seq<char>) -> Result<Seq<Stage>, Seq<char>> {
    let names = names_of(profile.id);
    match profile_fault(profile) {
        Some(message) => Err(message),
        None => Ok(
            seq![
                Stage::Write {
                    path: inside(work, names.module + ".te"@),
                    contents: base_module(profile),
                },
                Stage::Run {
                    command: make_call(names.module),
                    context: "Could not compile the SELinux type-enforcement module"@,
                },
            ],
        ),
    }
}

/// The stages in which the helper builds the base module of a profile. Commands are run in the
/// directory.
pub fn helper_build_steps(profile: &ProtectionProfile, work: &str) -> (result: Result<
    Vec<BuildStep>,
    Error,
>)
    ensures
        staged(result) == helper_build(profile@, work@),
{
    match render_type_enforcement(profile) {
        Err(error) => Err(error),
        Ok(contents) => {
            let ids = profile.identifiers();
            let name = text2(ids.module.as_str(), ".te");
            let context = "Could not compile the SELinux type-enforcement module".to_owned();
            let result = vec![
                BuildStep::Write { path: join(work, name.as_str()), contents },
                BuildStep::Run { command: make_command(ids.module.as_str()), context },
            ];
            assert(stages(result@) =~= helper_build(profile@, work@)->Ok_0);
            Ok(result)
        },
    }
}

/// One step of applying a profile.
#[derive(Debug)]
pub enum HelperStep {
    /// A stage of building a module.
    Build(BuildStep),
    /// A step of installing the profile.
    Install(Step),
}

/// One step of applying a profile, as a value.
pub enum HelperTask {
    Build(Stage),
    Install(Task),
}

impl View for HelperStep {
    type V = HelperTask;

    open spec fn view(&self) -> HelperTask {
        match self {
            HelperStep::Build(step) => HelperTask::Build(step@),
            HelperStep::Install(step) => HelperTask::Install(step@),
        }
    }
}

pub open spec fn helper_tasks(list: Seq<HelperStep>) -> Seq<HelperTask> {
    list.map_values(|item: HelperStep| item@)
}

pub open spec fn building(list: Seq<Stage>) -> Seq<HelperTask> {
    list.map_values(|stage: Stage| HelperTask::Build(stage))
}

pub open spec fn installing(list: Seq<Task>) -> Seq<HelperTask> {
    list.map_values(|task: Task| HelperTask::Install(task))
}

/// How the helper applies a profile in a directory: it builds the base module, installs it and labels
/// everything, and writes and installs the deny module only then.
pub open spec fn application(profile: Profile, work: Seq<char>) -> Result<
    Seq<HelperTask>,
    Seq<char>,
> {
    match helper_build(profile, work) {
        Err(message) => Err(message),
        Ok(stages) => Ok(
            building(stages) + installing(installation(profile, work).drop_last()) + seq![
                HelperTask::Build(
                    Stage::Write {
                        path: inside(work, names_of(profile.id).deny_module + ".cil"@),
                        contents: deny_module(profile),
                    },
                ),
                HelperTask::Install(deny_install(profile, work)),
            ],
        ),
    }
}

/// What a result with a list of steps says.
pub open spec fn applying(result: Result<Vec<HelperStep>, Error>) -> Result<
    Seq<HelperTask>,
    Seq<char>,
> {
    match result {
        Ok(list) => Ok(helper_tasks(list@)),
        Err(error) => Err(error@),
    }
}

/// The steps in which the helper applies a profile.
pub fn helper_apply_steps(profile: &ProtectionProfile, work: &str) -> (result: Result<
    Vec<HelperStep>,
    Error,
>)
    ensures
        applying(result) == application(profile@, work@),
{
    let builds = match helper_build_steps(profile, work) {
        Err(error) => {
            return Err(error);
        },
        Ok(builds) => builds,
    };
    let contents = match render_deny_cil(profile) {
        Err(error) => {
            return Err(error);
        },
        Ok(contents) => contents,
    };
    let ids = profile.identifiers();
    let name = text2(ids.deny_module.as_str(), ".cil");
    let mut result: Vec<HelperStep> = Vec::new();
    push_builds(&mut result, builds);
    let mut steps = install_steps(profile, work);
    let ghost all = tasks(steps@);
    assert(all.len() == steps@.len());
    let last = steps.pop();
    assert(tasks(steps@) =~= all.drop_last());
    push_installs(&mut result, steps);
    result.push(HelperStep::Build(BuildStep::Write { path: join(work, name.as_str()), contents }));
    if let Some(step) = last {
        assert(step@ == all.last());
        result.push(HelperStep::Install(step));
    }
    assert(helper_tasks(result@) =~= application(profile@, work@)->Ok_0);
    Ok(result)
}

fn push_builds(list: &mut Vec<HelperStep>, builds: Vec<BuildStep>)
    ensures
        helper_tasks(final(list)@) == helper_tasks(old(list)@) + building(stages(builds@)),
{
    let ghost all = builds@;
    let ghost head = list@;
    let mut rest = builds;
    let size: usize = rest.len();
    let mut index: usize = 0;
    while index < size
        invariant
            index <= size == all.len(),
            rest@ == all.skip(index as int),
            list@.len() == head.len() + index,
            forall|i: int| 0 <= i < head.len() ==> #[trigger] list@[i] == head[i],
            forall|i: int|
                head.len() <= i < list@.len() ==> #[trigger] list@[i] == HelperStep::Build(
                    all[i - head.len()],
                ),
        decreases size - index,
    {
        let step = rest.remove(0);
        assert(rest@ =~= all.skip(index + 1));
        list.push(HelperStep::Build(step));
        index += 1;
    }
    assert(helper_tasks(list@) =~= helper_tasks(head) + building(stages(all)));
}

fn push_installs(list: &mut Vec<HelperStep>, steps: Vec<Step>)
    ensures
        helper_tasks(final(list)@) == helper_tasks(old(list)@) + installing(tasks(steps@)),
{
    let ghost all = steps@;
    let ghost head = list@;
    let mut rest = steps;
    let size: usize = rest.len();
    let mut index: usize = 0;
    while index < size
        invariant
            index <= size == all.len(),
            rest@ == all.skip(index as int),
            list@.len() == head.len() + index,
            forall|i: int| 0 <= i < head.len() ==> #[trigger] list@[i] == head[i],
            forall|i: int|
                head.len() <= i < list@.len() ==> #[trigger] list@[i] == HelperStep::Install(
                    all[i - head.len()],
                ),
        decreases size - index,
    {
        let step = rest.remove(0);
        assert(rest@ =~= all.skip(index + 1));
        list.push(HelperStep::Install(step));
        index += 1;
    }
    assert(helper_tasks(list@) =~= helper_tasks(head) + installing(tasks(all)));
}

/// The command by which the helper asks for the version of the SELinux userspace.
pub fn helper_version_query() -> (result: Invocation)
    ensures
        result@ == (Call { program: "semodule"@, arguments: seq!["--version"@] }),
{
    let arguments = vec!["--version".to_owned()];
    assert(strings(arguments@) =~= seq!["--version"@]);
    Invocation { program: "semodule".to_owned(), arguments }
}

/// The answer for an outcome.
pub open spec fn answer_ok(result: Result<String, Error>) -> (bool, Seq<char>) {
    match result {
        Ok(message) => (true, message@),
        Err(error) => (false, error@),
    }
}

/// The answer for an outcome.
pub fn respond(result: Result<String, Error>) -> (response: HelperResponse)
    ensures
        (response.ok, response.message@) == answer_ok(result),
{
    match result {
        Ok(message) => HelperResponse { ok: true, message },
        Err(error) => HelperResponse { ok: false, message: error.message },
    }
}

/// What is said of a profile that was applied.
pub fn applied_message(name: &str) -> (result: String)
    ensures
        result@ == "Protection applied to "@ + name@,
{
    text2("Protection applied to ", name)
}

/// What is said of a removal: of which profile, if there was any.
pub fn removed_message(name: Option<&str>) -> (result: String)
    ensures
        result@ == match name {
            Some(text) => "Protection removed from "@ + text@,
            None => "No installed protection profile was found"@,
        },
{
    match name {
        Some(text) => text2("Protection removed from ", text),
        None => "No installed protection profile was found".to_owned(),
    }
}

/// A protected directory where it really is, or why it is not accepted.
pub open spec fn resolved_directory(directory: Seq<char>, finding: Resolution) -> Result<
    Seq<char>,
    Seq<char>,
> {
    match finding.resolved {
        Err(error) => Err(crate::engine::normalize::unresolved(directory, error@)),
        Ok(path) => if !(finding.facts matches Ok(facts) && facts.directory) {
            Err(path@ + " is not a directory"@)
        } else if crate::path::names(parts(path@)) < MIN_DIRECTORY_NAMES {
            Err(broad_message(path@))
        } else {
            Ok(path@)
        },
    }
}

/// The first `count` protected directories where they really are, or the first error.
pub open spec fn resolved_directories(
    directories: Seq<Seq<char>>,
    findings: Seq<Resolution>,
    count: nat,
) -> Result<Seq<Seq<char>>, Seq<char>>
    decreases count,
{
    if count == 0 {
        Ok(Seq::empty())
    } else {
        match resolved_directories(directories, findings, (count - 1) as nat) {
            Err(message) => Err(message),
            Ok(before) => match resolved_directory(directories[count - 1], findings[count - 1]) {
                Err(message) => Err(message),
                Ok(path) => Ok(before.push(path)),
            },
        }
    }
}

/// A list without the paths that are the same as the one before them.
pub open spec fn deduplicated(paths: Seq<Seq<char>>) -> Seq<Seq<char>>
    decreases paths.len(),
{
    if paths.len() == 0 {
        Seq::empty()
    } else {
        let before = deduplicated(paths.drop_last());
        if before.len() > 0 && path_equal(before.last(), paths.last()) {
            before
        } else {
            before.push(paths.last())
        }
    }
}

/// The profile with its paths where they really are, or why it is not accepted. Directories that
/// lead to one place count once.
pub open spec fn helper_normalized(profile: Profile, findings: Findings) -> Result<
    Profile,
    Seq<char>,
> {
    let directories = profile.data_directories;
    match profile_fault(profile) {
        Some(message) => Err(message),
        None => match found_executable(profile.executable, None, findings.executable) {
            Err(message) => Err(message),
            Ok(path) => match resolved_directories(
                directories,
                findings.directories@,
                directories.len(),
            ) {
                Err(message) => Err(message),
                Ok(found) => {
                    let paths = deduplicated(arranged(found, by_path()));
                    let result = with_paths(profile, path, paths);
                    match first_of(paths.len(), containment_at(path, paths)) {
                        Some(message) => Err(message),
                        None => match profile_fault(result) {
                            Some(message) => Err(message),
                            None => Ok(result),
                        },
                    }
                },
            },
        },
    }
}

fn resolve_directory(directory: &str, finding: &Resolution) -> (result: Result<String, Error>)
    ensures
        viewed(result) == resolved_directory(directory@, *finding),
{
    match &finding.resolved {
        Err(error) => {
            let context = text2("Could not resolve ", directory);
            Err(error.context(context.as_str()))
        },
        Ok(path) => {
            let directory_found = match &finding.facts {
                Ok(facts) => facts.directory,
                Err(_) => false,
            };
            if !directory_found {
                Err(Error { message: text2(path.as_str(), " is not a directory") })
            } else if normal_component_count(path.as_str()) < MIN_DIRECTORY_NAMES {
                Err(broad_directory(path.as_str()))
            } else {
                Ok(path.clone())
            }
        },
    }
}

proof fn lemma_resolved_error(
    directories: Seq<Seq<char>>,
    findings: Seq<Resolution>,
    hit: nat,
    count: nat,
)
    requires
        hit <= count,
        resolved_directories(directories, findings, hit) is Err,
    ensures
        resolved_directories(directories, findings, count) == resolved_directories(
            directories,
            findings,
            hit,
        ),
    decreases count,
{
    if hit < count {
        lemma_resolved_error(directories, findings, hit, (count - 1) as nat);
    }
}

fn resolve_directories(directories: &Vec<String>, findings: &Vec<Resolution>) -> (result: Result<
    Vec<String>,
    Error,
>)
    requires
        findings@.len() == directories@.len(),
    ensures
        string_list(result) == resolved_directories(
            strings(directories@),
            findings@,
            directories@.len(),
        ),
{
    let ghost all = strings(directories@);
    let mut found: Vec<String> = Vec::new();
    assert(strings(found@) =~= Seq::<Seq<char>>::empty());
    let mut index: usize = 0;
    while index < directories.len()
        invariant
            index <= directories@.len() == findings@.len(),
            all == strings(directories@),
            resolved_directories(all, findings@, index as nat) == Ok::<
                Seq<Seq<char>>,
                Seq<char>,
            >(strings(found@)),
        decreases directories.len() - index,
    {
        assert(all[index as int] == directories@[index as int]@);
        match resolve_directory(directories[index].as_str(), &findings[index]) {
            Err(error) => {
                proof {
                    lemma_resolved_error(all, findings@, (index + 1) as nat, all.len());
                }
                return Err(error);
            },
            Ok(path) => {
                let ghost before = found@;
                found.push(path);
                assert(strings(found@) =~= strings(before).push(path@));
            },
        }
        index += 1;
    }
    Ok(found)
}

/// A list without the paths that are the same as the one before them.
pub fn deduplicate(paths: &Vec<String>) -> (result: Vec<String>)
    ensures
        strings(result@) == deduplicated(strings(paths@)),
{
    let ghost all = strings(paths@);
    let mut result: Vec<String> = Vec::new();
    assert(strings(result@) =~= Seq::<Seq<char>>::empty());
    assert(all.take(0) =~= Seq::<Seq<char>>::empty());
    let mut index: usize = 0;
    while index < paths.len()
        invariant
            index <= paths@.len(),
            all == strings(paths@),
            strings(result@) == deduplicated(all.take(index as int)),
        decreases paths.len() - index,
    {
        let ghost before = result@;
        assert(all.take(index + 1).drop_last() =~= all.take(index as int));
        assert(all[index as int] == paths@[index as int]@);
        assert(strings(result@).len() == result@.len());
        let mut repeated = false;
        if result.len() > 0 {
            assert(strings(result@).last() == result@.last()@);
            repeated = same_path(result[result.len() - 1].as_str(), paths[index].as_str());
        }
        if !repeated {
            let path = paths[index].clone();
            result.push(path);
            assert(strings(result@) =~= strings(before).push(path@));
        }
        index += 1;
    }
    assert(all.take(all.len() as int) =~= all);
    result
}

/// Puts the paths of a profile where they really are, given what the file system says of them.
pub fn normalize_for_helper(profile: ProtectionProfile, findings: &Findings) -> (result: Result<
    ProtectionProfile,
    Error,
>)
    requires
        findings.directories@.len() == profile.data_directories@.len(),
    ensures
        viewed(result) == helper_normalized(profile@, *findings),
{
    if let Err(error) = validate_profile(&profile) {
        return Err(error);
    }
    let path = match crate::engine::normalize::locate_executable(
        profile.executable.as_str(),
        None,
        &findings.executable,
    ) {
        Err(error) => {
            return Err(error);
        },
        Ok(path) => path,
    };
    let found = match resolve_directories(&profile.data_directories, &findings.directories) {
        Err(error) => {
            return Err(error);
        },
        Ok(found) => found,
    };
    let sorted = sort_paths(found);
    let directories = deduplicate(&sorted);
    if let Err(error) = crate::engine::normalize::check_overlaps(path.as_str(), &directories) {
        return Err(error);
    }
    let mut profile = profile;
    profile.executable = path;
    profile.data_directories = directories;
    match validate_profile(&profile) {
        Err(error) => Err(error),
        Ok(()) => Ok(profile),
    }
}

/// What the helper's transaction asks to be done.
#[derive(Debug)]
pub enum HelperAct {
    /// Take a profile out.
    Teardown(ProtectionProfile),
    /// Make sure that nothing foreign is in the way of a profile.
    Preflight(ProtectionProfile),
    /// Build and install a profile.
    Apply(ProtectionProfile),
    /// Store the snapshot of a profile.
    Save(ProtectionProfile),
    /// Delete what is left of a snapshot that was not stored completely.
    RemoveTemporary(u128),
}

/// What the helper's transaction asks to be done, as a value.
pub enum HelperWork {
    Teardown(Profile),
    Preflight(Profile),
    Apply(Profile),
    Save(Profile),
    RemoveTemporary(u128),
}

/// What an optional request holds.
pub open spec fn requested(act: Option<HelperAct>) -> Option<HelperWork> {
    match act {
        None => None,
        Some(HelperAct::Teardown(profile)) => Some(HelperWork::Teardown(profile@)),
        Some(HelperAct::Preflight(profile)) => Some(HelperWork::Preflight(profile@)),
        Some(HelperAct::Apply(profile)) => Some(HelperWork::Apply(profile@)),
        Some(HelperAct::Save(profile)) => Some(HelperWork::Save(profile@)),
        Some(HelperAct::RemoveTemporary(id)) => Some(HelperWork::RemoveTemporary(id)),
    }
}

/// Where the helper's transaction stands.
#[derive(Debug)]
pub enum HelperStage {
    /// The previous version is being taken out.
    RemovingPrevious,
    /// The new version is being checked.
    Checking,
    /// The check failed, and the previous version is being applied again.
    ReapplyingUnchecked(Error),
    /// The snapshot of the previous version is being stored again after a failed check.
    ResavingUnchecked(Error),
    /// The new version is being applied.
    Applying,
    /// The snapshot of the new version is being stored.
    Saving,
    /// Applying or storing failed, and what is left of the snapshot is being deleted.
    ClearingTemporary(Error),
    /// What was applied is being taken out.
    CleaningUp(Error),
    /// The previous version is being applied again.
    Reapplying(Error, Option<Error>),
    /// The snapshot of the previous version is being stored again.
    Resaving(Error, Option<Error>),
    /// The transaction is over.
    Over(Result<(), Error>),
}

/// Where the helper's transaction stands, as a value.
pub enum HelperPhase {
    RemovingPrevious,
    Checking,
    ReapplyingUnchecked(Seq<char>),
    ResavingUnchecked(Seq<char>),
    Applying,
    Saving,
    ClearingTemporary(Seq<char>),
    CleaningUp(Seq<char>),
    Reapplying(Seq<char>, Option<Seq<char>>),
    Resaving(Seq<char>, Option<Seq<char>>),
    Over(Result<(), Seq<char>>),
}

impl View for HelperStage {
    type V = HelperPhase;

    open spec fn view(&self) -> HelperPhase {
        match self {
            HelperStage::RemovingPrevious => HelperPhase::RemovingPrevious,
            HelperStage::Checking => HelperPhase::Checking,
            HelperStage::ReapplyingUnchecked(error) => HelperPhase::ReapplyingUnchecked(error@),
            HelperStage::ResavingUnchecked(error) => HelperPhase::ResavingUnchecked(error@),
            HelperStage::Applying => HelperPhase::Applying,
            HelperStage::Saving => HelperPhase::Saving,
            HelperStage::ClearingTemporary(error) => HelperPhase::ClearingTemporary(error@),
            HelperStage::CleaningUp(error) => HelperPhase::CleaningUp(error@),
            HelperStage::Reapplying(error, cleanup) => HelperPhase::Reapplying(
                error@,
                fault(*cleanup),
            ),
            HelperStage::Resaving(error, cleanup) => HelperPhase::Resaving(error@, fault(*cleanup)),
            HelperStage::Over(result) => HelperPhase::Over(outcome(*result)),
        }
    }
}

/// What the helper's transaction asks to be done next, for a profile and its previous version.
pub open spec fn asked(phase: HelperPhase, profile: Profile, previous: Option<Profile>) -> Option<
    HelperWork,
> {
    let old = previous->Some_0;
    match phase {
        HelperPhase::RemovingPrevious => Some(HelperWork::Teardown(old)),
        HelperPhase::Checking => Some(HelperWork::Preflight(profile)),
        HelperPhase::ReapplyingUnchecked(_) => Some(HelperWork::Apply(old)),
        HelperPhase::ResavingUnchecked(_) => Some(HelperWork::Save(old)),
        HelperPhase::Applying => Some(HelperWork::Apply(profile)),
        HelperPhase::Saving => Some(HelperWork::Save(profile)),
        HelperPhase::ClearingTemporary(_) => Some(HelperWork::RemoveTemporary(profile.id)),
        HelperPhase::CleaningUp(_) => Some(HelperWork::Teardown(profile)),
        HelperPhase::Reapplying(_, _) => Some(HelperWork::Apply(old)),
        HelperPhase::Resaving(_, _) => Some(HelperWork::Save(old)),
        HelperPhase::Over(_) => None,
    }
}

/// Whether the transaction of a profile with or without a previous version can stand in a phase.
pub open spec fn is_sound(phase: HelperPhase, has_previous: bool) -> bool {
    has_previous || phase is Checking || phase is Applying || phase is Saving
        || phase is ClearingTemporary || phase is CleaningUp || phase is Over
}

pub open spec fn unrestored(message: Seq<char>, rollback: Seq<char>) -> Seq<char> {
    in_context(message, "The previous profile could not be restored: "@ + rollback)
}

/// Where the helper's transaction stands after what it asked for was done, or failed.
pub open spec fn moved(
    phase: HelperPhase,
    has_previous: bool,
    reply: Result<(), Seq<char>>,
) -> HelperPhase {
    match (phase, reply) {
        (HelperPhase::RemovingPrevious, Ok(_)) => HelperPhase::Checking,
        (HelperPhase::RemovingPrevious, Err(message)) => HelperPhase::Over(
            Err(in_context(message, "Could not remove the previous policy before updating"@)),
        ),
        (HelperPhase::Checking, Ok(_)) => HelperPhase::Applying,
        (HelperPhase::Checking, Err(message)) => if has_previous {
            HelperPhase::ReapplyingUnchecked(message)
        } else {
            HelperPhase::Over(Err(message))
        },
        (HelperPhase::ReapplyingUnchecked(first), Ok(_)) => HelperPhase::ResavingUnchecked(first),
        (HelperPhase::ResavingUnchecked(first), Ok(_)) => HelperPhase::Over(Err(first)),
        (HelperPhase::ReapplyingUnchecked(first), Err(message)) => HelperPhase::Over(
            Err(unrestored(first, message)),
        ),
        (HelperPhase::ResavingUnchecked(first), Err(message)) => HelperPhase::Over(
            Err(unrestored(first, message)),
        ),
        (HelperPhase::Applying, Ok(_)) => HelperPhase::Saving,
        (HelperPhase::Saving, Ok(_)) => HelperPhase::Over(Ok(())),
        (HelperPhase::Applying, Err(message)) => HelperPhase::ClearingTemporary(message),
        (HelperPhase::Saving, Err(message)) => HelperPhase::ClearingTemporary(message),
        (HelperPhase::ClearingTemporary(first), _) => HelperPhase::CleaningUp(first),
        (HelperPhase::CleaningUp(first), _) => {
            let cleanup = match reply {
                Ok(_) => None,
                Err(message) => Some(message),
            };
            if has_previous {
                HelperPhase::Reapplying(first, cleanup)
            } else {
                HelperPhase::Over(
                    Err(crate::engine::transaction::failure_detail(first, cleanup, None)),
                )
            }
        },
        (HelperPhase::Reapplying(first, cleanup), Ok(_)) => HelperPhase::Resaving(first, cleanup),
        (HelperPhase::Resaving(first, cleanup), Ok(_)) => HelperPhase::Over(
            Err(crate::engine::transaction::failure_detail(first, cleanup, None)),
        ),
        (HelperPhase::Reapplying(first, cleanup), Err(message)) => HelperPhase::Over(
            Err(crate::engine::transaction::failure_detail(first, cleanup, Some(message))),
        ),
        (HelperPhase::Resaving(first, cleanup), Err(message)) => HelperPhase::Over(
            Err(crate::engine::transaction::failure_detail(first, cleanup, Some(message))),
        ),
        (HelperPhase::Over(result), _) => HelperPhase::Over(result),
    }
}

fn refused(first: &Error, rollback: &Error) -> (result: HelperStage)
    ensures
        result@ == HelperPhase::Over(Err::<(), Seq<char>>(unrestored(first@, rollback@))),
{
    let context = text2(
        "The previous profile could not be restored: ",
        rollback.message.as_str(),
    );
    HelperStage::Over(Err(first.context(context.as_str())))
}

fn failed(first: Error, cleanup: Option<Error>, rollback: Option<Error>) -> (result: HelperStage)
    ensures
        result@ == HelperPhase::Over(
            Err::<(), Seq<char>>(
                crate::engine::transaction::failure_detail(
                    first@,
                    fault(cleanup),
                    fault(rollback),
                ),
            ),
        ),
{
    HelperStage::Over(Err(crate::engine::transaction::describe_failure(first, cleanup, rollback)))
}

/// The transaction of the helper: an update of one profile.
#[derive(Debug)]
pub struct HelperTransaction {
    pub profile: ProtectionProfile,
    pub previous: Option<ProtectionProfile>,
    pub stage: HelperStage,
}

/// What an optional profile holds.
pub open spec fn held(profile: Option<ProtectionProfile>) -> Option<Profile> {
    match profile {
        Some(profile) => Some(profile@),
        None => None,
    }
}

impl HelperTransaction {
    /// A transaction before anything is done.
    pub fn new(profile: ProtectionProfile, previous: Option<ProtectionProfile>) -> (result: Self)
        ensures
            result.profile@ == profile@,
            held(result.previous) == held(previous),
            result.stage@ == if previous is Some {
                HelperPhase::RemovingPrevious
            } else {
                HelperPhase::Checking
            },
            is_sound(result.stage@, result.previous is Some),
    {
        let stage = if previous.is_some() {
            HelperStage::RemovingPrevious
        } else {
            HelperStage::Checking
        };
        HelperTransaction { profile, previous, stage }
    }

    /// What is to be done next, until the transaction is over.
    pub fn next(&self) -> (result: Option<HelperAct>)
        requires
            is_sound(self.stage@, self.previous is Some),
        ensures
            requested(result) == asked(self.stage@, self.profile@, held(self.previous)),
    {
        match &self.stage {
            HelperStage::Checking => {
                return Some(HelperAct::Preflight(self.profile.clone()));
            },
            HelperStage::Applying => {
                return Some(HelperAct::Apply(self.profile.clone()));
            },
            HelperStage::Saving => {
                return Some(HelperAct::Save(self.profile.clone()));
            },
            HelperStage::ClearingTemporary(_) => {
                return Some(HelperAct::RemoveTemporary(self.profile.id));
            },
            HelperStage::CleaningUp(_) => {
                return Some(HelperAct::Teardown(self.profile.clone()));
            },
            HelperStage::Over(_) => {
                return None;
            },
            _ => {},
        }
        match &self.previous {
            None => None,
            Some(old) => match &self.stage {
                HelperStage::RemovingPrevious => Some(HelperAct::Teardown(old.clone())),
                HelperStage::ReapplyingUnchecked(_) => Some(HelperAct::Apply(old.clone())),
                HelperStage::ResavingUnchecked(_) => Some(HelperAct::Save(old.clone())),
                HelperStage::Reapplying(_, _) => Some(HelperAct::Apply(old.clone())),
                HelperStage::Resaving(_, _) => Some(HelperAct::Save(old.clone())),
                _ => None,
            },
        }
    }

    /// Takes the result of what was asked for.
    pub fn advance(self, reply: Result<(), Error>) -> (result: Self)
        requires
            is_sound(self.stage@, self.previous is Some),
        ensures
            result.profile@ == self.profile@,
            held(result.previous) == held(self.previous),
            result.stage@ == moved(self.stage@, self.previous is Some, outcome(reply)),
            is_sound(result.stage@, result.previous is Some),
    {
        let has_previous = self.previous.is_some();
        let stage = next_stage(self.stage, has_previous, reply);
        HelperTransaction { profile: self.profile, previous: self.previous, stage }
    }
}

fn next_stage(stage: HelperStage, has_previous: bool, reply: Result<(), Error>) -> (result:
    HelperStage)
    ensures
        result@ == moved(stage@, has_previous, outcome(reply)),
{
    match stage {
        HelperStage::RemovingPrevious => match reply {
            Ok(_) => HelperStage::Checking,
            Err(error) => HelperStage::Over(
                Err(error.context("Could not remove the previous policy before updating")),
            ),
        },
        HelperStage::Checking => match reply {
            Ok(_) => HelperStage::Applying,
            Err(error) => if has_previous {
                HelperStage::ReapplyingUnchecked(error)
            } else {
                HelperStage::Over(Err(error))
            },
        },
        HelperStage::ReapplyingUnchecked(first) => match reply {
            Ok(_) => HelperStage::ResavingUnchecked(first),
            Err(error) => refused(&first, &error),
        },
        HelperStage::ResavingUnchecked(first) => match reply {
            Ok(_) => HelperStage::Over(Err(first)),
            Err(error) => refused(&first, &error),
        },
        HelperStage::Applying => match reply {
            Ok(_) => HelperStage::Saving,
            Err(error) => HelperStage::ClearingTemporary(error),
        },
        HelperStage::Saving => match reply {
            Ok(_) => HelperStage::Over(Ok(())),
            Err(error) => HelperStage::ClearingTemporary(error),
        },
        HelperStage::ClearingTemporary(first) => HelperStage::CleaningUp(first),
        HelperStage::CleaningUp(first) => {
            let cleanup = match reply {
                Ok(_) => None,
                Err(error) => Some(error),
            };
            if has_previous {
                HelperStage::Reapplying(first, cleanup)
            } else {
                failed(first, cleanup, None)
            }
        },
        HelperStage::Reapplying(first, cleanup) => match reply {
            Ok(_) => HelperStage::Resaving(first, cleanup),
            Err(error) => failed(first, cleanup, Some(error)),
        },
        HelperStage::Resaving(first, cleanup) => match reply {
            Ok(_) => failed(first, cleanup, None),
            Err(error) => failed(first, cleanup, Some(error)),
        },
        HelperStage::Over(result) => HelperStage::Over(result),
    }
}

/// How far the helper's transaction is from its end.
pub open spec fn remaining(phase: HelperPhase) -> int {
    match phase {
        HelperPhase::RemovingPrevious => 8,
        HelperPhase::Checking => 7,
        HelperPhase::ReapplyingUnchecked(_) => 2,
        HelperPhase::ResavingUnchecked(_) => 1,
        HelperPhase::Applying => 6,
        HelperPhase::Saving => 5,
        HelperPhase::ClearingTemporary(_) => 4,
        HelperPhase::CleaningUp(_) => 3,
        HelperPhase::Reapplying(_, _) => 2,
        HelperPhase::Resaving(_, _) => 1,
        HelperPhase::Over(_) => 0,
    }
}

/// The helper's transaction ends whatever fails, and succeeds exactly where the new version was
/// applied and its snapshot was stored.
pub proof fn helper_transactions_end(
    phase: HelperPhase,
    has_previous: bool,
    reply: Result<(), Seq<char>>,
)
    requires
        !(phase is Over),
    ensures
        0 <= remaining(moved(phase, has_previous, reply)) < remaining(phase),
        moved(phase, has_previous, reply) == HelperPhase::Over(Ok::<(), Seq<char>>(()))
            <==> phase is Saving && reply is Ok,
        moved(phase, has_previous, reply) is Saving <==> phase is Applying && reply is Ok,
        moved(phase, has_previous, reply) is Applying <==> phase is Checking && reply is Ok,
{
}

} // verus!
