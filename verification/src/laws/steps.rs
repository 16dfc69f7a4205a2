//! The steps that change a system: which commands they run, in which order, and what they make of
//! the answers.

use crate::bytes::lossy;
use crate::command::{successful, Call, Output};
use crate::engine::host::Host;
use crate::engine::inspection::{begun, is_seen, moved, sight, signs_of, Look, Sight, Sign};
use crate::engine::observe::{module_listed, names_module, rule_listed, states_rule};
use crate::engine::reapply::holds;
use crate::engine::steps::{
    closing, directories_install, directories_removal, directory_checks, executable_check,
    installation, is_owned, module_checks, opening, preflight, reaction, removal, Answer, Request,
    Task,
};
use crate::error::{outcome, Error};
use crate::laws::text::{is_blank, words_stand_between_spaces};
use crate::model::{names_of, Profile};
use crate::policy::{
    directory_regex, escaped, expressions_belong_to_one_path, has_control, lemma_valid_paths,
    path_regex, profile_fault,
};
use crate::text::{
    is_space, leading_space, lemma_leading_space, lemma_leading_word, lines_of, trimmed,
    trimmed_start, words_of,
};
use vstd::prelude::*;

verus! {

/// A command with its arguments.
pub open spec fn command(program: Seq<char>, arguments: Seq<Seq<char>>) -> Result<
    Request,
    Seq<char>,
> {
    Ok(Request::Run(Call { program, arguments }))
}

/// The command that each step runs first. Modules are installed with `semodule -i`, rules added with
/// `semanage fcontext -a` for the exact expression of the path, labels set with `restorecon`. What is
/// to be removed or must not exist is looked for in the listing of modules or of local rules.
pub proof fn steps_run_these_commands(
    path: Seq<char>,
    module: Seq<char>,
    file: Seq<char>,
    label: Seq<char>,
    context: Seq<char>,
)
    requires
        !has_control(path),
    ensures
        opening(Task::InstallModule { module, file, context }) == command(
            "semodule"@,
            seq!["-i"@, file],
        ),
        opening(Task::AddRule { path, executable: true, label }) == command(
            "semanage"@,
            seq!["fcontext"@, "-a"@, "-f"@, "f"@, "-t"@, label, escaped(path)],
        ),
        opening(Task::AddRule { path, executable: false, label }) == command(
            "semanage"@,
            seq!["fcontext"@, "-a"@, "-t"@, label, escaped(path) + "(/.*)?"@],
        ),
        opening(Task::Label { path, recursive: false, context }) == command(
            "restorecon"@,
            seq!["-v"@, path],
        ),
        opening(Task::Label { path, recursive: true, context }) == command(
            "restorecon"@,
            seq!["-RFv"@, path],
        ),
        opening(Task::RemoveModule { module }) == command("semodule"@, seq!["-l"@]),
        opening(Task::RequireNoModule { module }) == command("semodule"@, seq!["-l"@]),
        forall|executable: bool|
            #[trigger] opening(Task::DeleteRule { path, executable }) == command(
                "semanage"@,
                seq!["fcontext"@, "-l"@, "-C"@],
            ),
        forall|executable: bool|
            #[trigger] opening(Task::RequireNoRule { path, executable }) == command(
                "semanage"@,
                seq!["fcontext"@, "-l"@, "-C"@],
            ),
        forall|recursive: bool|
            #[trigger] opening(Task::Restore { path, recursive, context }) == Ok::<
                Request,
                Seq<char>,
            >(Request::Exists(path)),
{
    assert(seq!["fcontext"@, "-a"@] + seq!["-f"@, "f"@] + seq!["-t"@, label, escaped(path)] =~= seq![
        "fcontext"@,
        "-a"@,
        "-f"@,
        "f"@,
        "-t"@,
        label,
        escaped(path),
    ]);
    assert(seq!["fcontext"@, "-a"@] + Seq::<Seq<char>>::empty() + seq![
        "-t"@,
        label,
        escaped(path) + "(/.*)?"@,
    ] =~= seq!["fcontext"@, "-a"@, "-t"@, label, escaped(path) + "(/.*)?"@]);
}

/// What a path that cannot stand in an expression comes to: no command is run for it.
pub proof fn unfit_paths_run_nothing(path: Seq<char>, executable: bool, label: Seq<char>)
    requires
        has_control(path),
    ensures
        opening(Task::AddRule { path, executable, label }) is Err,
        opening(Task::DeleteRule { path, executable }) is Err,
        opening(Task::RequireNoRule { path, executable }) is Err,
{
}

/// What a command that ran came to: its output where it succeeded, and otherwise what it said, its
/// errors before its output. A command that could not be run fails as it did.
pub proof fn commands_succeed_or_speak(ran: Result<Output, Seq<char>>)
    ensures
        successful(ran) is Ok <==> (ran is Ok && ran->Ok_0.success),
        successful(ran) is Ok ==> successful(ran) == ran,
        ran matches Err(message) ==> successful(ran) == Err::<Output, Seq<char>>(message),
        ran matches Ok(output) && !output.success ==> successful(ran) == Err::<Output, Seq<char>>(
            if trimmed(lossy(ran->Ok_0.stderr@)).len() > 0 {
                trimmed(lossy(ran->Ok_0.stderr@))
            } else {
                trimmed(lossy(ran->Ok_0.stdout@))
            },
        ),
{
}

/// The command that follows where something is there, and none where it is not. A failure to look is
/// an error of its own.
pub open spec fn follows(present: bool, call: Call) -> Result<Option<Call>, Seq<char>> {
    if present {
        Ok(Some(call))
    } else {
        Ok(None)
    }
}

/// What the steps that take something out do on the listing: they remove exactly what is listed, with
/// `semodule -r` and `semanage fcontext -d`, and leave alone what is not. Labels are restored exactly
/// where the path exists.
pub proof fn steps_remove_what_is_there(
    path: Seq<char>,
    module: Seq<char>,
    context: Seq<char>,
    output: Output,
    exists: bool,
)
    requires
        !has_control(path),
        output.success,
    ensures
        ({
            let listing = lossy(output.stdout@);
            let ran = Answer::Ran(Ok(output));
            &&& reaction(Task::RemoveModule { module }, ran) == follows(
                module_listed(listing, module),
                Call { program: "semodule"@, arguments: seq!["-r"@, module] },
            )
            &&& reaction(Task::DeleteRule { path, executable: true }, ran) == follows(
                rule_listed(listing, escaped(path)),
                Call {
                    program: "semanage"@,
                    arguments: seq!["fcontext"@, "-d"@, "-f"@, "f"@, escaped(path)],
                },
            )
            &&& reaction(Task::DeleteRule { path, executable: false }, ran) == follows(
                rule_listed(listing, escaped(path) + "(/.*)?"@),
                Call {
                    program: "semanage"@,
                    arguments: seq!["fcontext"@, "-d"@, escaped(path) + "(/.*)?"@],
                },
            )
            &&& reaction(
                Task::Restore { path, recursive: false, context },
                Answer::Exists(exists),
            ) == follows(exists, Call { program: "restorecon"@, arguments: seq!["-v"@, path] })
            &&& reaction(
                Task::Restore { path, recursive: true, context },
                Answer::Exists(exists),
            ) == follows(exists, Call { program: "restorecon"@, arguments: seq!["-RFv"@, path] })
        }),
{
    assert(seq!["fcontext"@, "-d"@] + seq!["-f"@, "f"@] + seq![escaped(path)] =~= seq![
        "fcontext"@,
        "-d"@,
        "-f"@,
        "f"@,
        escaped(path),
    ]);
    assert(seq!["fcontext"@, "-d"@] + Seq::<Seq<char>>::empty() + seq![escaped(path) + "(/.*)?"@]
        =~= seq!["fcontext"@, "-d"@, escaped(path) + "(/.*)?"@]);
}

/// What the steps that look for something foreign do on the listing: they refuse to go on, and name
/// it, exactly where it is listed.
pub proof fn steps_refuse_what_is_foreign(path: Seq<char>, module: Seq<char>, output: Output)
    requires
        !has_control(path),
        output.success,
    ensures
        ({
            let listing = lossy(output.stdout@);
            let ran = Answer::Ran(Ok(output));
            &&& reaction(Task::RequireNoModule { module }, ran) == if module_listed(
                listing,
                module,
            ) {
                Err::<Option<Call>, Seq<char>>(
                    "SELinux module '"@ + module
                        + "' already exists but is not owned by the active Microvisor transaction"@,
                )
            } else {
                Ok(None)
            }
            &&& reaction(Task::RequireNoRule { path, executable: true }, ran) == if rule_listed(
                listing,
                escaped(path),
            ) {
                Err::<Option<Call>, Seq<char>>(
                    "A local SELinux file-context rule already exists for '"@ + escaped(path)
                        + "'. Microvisor will not overwrite it"@,
                )
            } else {
                Ok(None)
            }
            &&& reaction(Task::RequireNoRule { path, executable: false }, ran) == if rule_listed(
                listing,
                escaped(path) + "(/.*)?"@,
            ) {
                Err::<Option<Call>, Seq<char>>(
                    "A local SELinux file-context rule already exists for '"@ + (escaped(path)
                        + "(/.*)?"@) + "'. Microvisor will not overwrite it"@,
                )
            } else {
                Ok(None)
            }
        }),
{
}

/// A step goes on after a command only where the command succeeded, whatever the step is, and never
/// where the program was not found.
pub proof fn steps_go_on_only_after_success(task: Task, ran: Result<Output, Error>, missing: Error)
    ensures
        reaction(task, Answer::Missing(missing)) == Err::<Option<Call>, Seq<char>>(missing@),
        !(task is Restore) && reaction(task, Answer::Ran(ran)) is Ok ==> ran is Ok
            && ran->Ok_0.success,
        closing(task, outcome(ran)) is Ok <==> (ran is Ok && ran->Ok_0.success),
        task is InstallModule || task is AddRule || task is Label ==> (reaction(
            task,
            Answer::Ran(ran),
        ) is Ok <==> (ran is Ok && ran->Ok_0.success)) && (ran is Ok && ran->Ok_0.success
            ==> reaction(task, Answer::Ran(ran)) == Ok::<Option<Call>, Seq<char>>(None)),
        closing(task, outcome(ran)) is Err ==> closing(task, outcome(ran)) == Err::<(), Seq<char>>(
            (match task {
                Task::InstallModule { module, file, context } => context,
                Task::AddRule { path, executable, label } => "Could not add file-context rule for "@
                    + path,
                Task::Label { path, recursive, context } => context,
                Task::RemoveModule { module } => "Could not remove policy module "@ + module,
                Task::DeleteRule { path, executable } => "Could not delete file-context rule for "@
                    + path,
                Task::Restore { path, recursive, context } => context,
                _ => Seq::empty(),
            }) + ": "@ + successful(outcome(ran))->Err_0,
        ),
{
}

/// Whether a line begins with a text, after white space, and white space follows.
pub open spec fn leads_with(
    line: Seq<char>,
    indent: Seq<char>,
    text: Seq<char>,
    rest: Seq<char>,
) -> bool {
    line == indent + text + rest && is_blank(indent) && rest.len() > 0 && is_space(rest[0])
}

/// A local rule is listed exactly where a line begins with its expression, after white space, and
/// white space follows: an expression that only begins like it does not count.
pub proof fn rules_are_listed_by_line(listing: Seq<char>, regex: Seq<char>)
    requires
        regex.len() > 0,
        !is_space(regex[0]),
    ensures
        rule_listed(listing, regex) <==> exists|i: int, indent: Seq<char>, rest: Seq<char>|
            0 <= i < lines_of(listing).len() && #[trigger] leads_with(
                lines_of(listing)[i],
                indent,
                regex,
                rest,
            ),
{
    let lines = lines_of(listing);
    if rule_listed(listing, regex) {
        let i = choose|i: int| 0 <= i < lines.len() && states_rule(#[trigger] lines[i], regex);
        let line = lines[i];
        lemma_leading_space(line);
        let lead = leading_space(line) as int;
        let indent = line.take(lead);
        let content = trimmed_start(line);
        let rest = content.skip(regex.len() as int);
        assert(content.subrange(0, regex.len() as int) == regex);
        assert(line =~= indent + regex + rest) by {
            assert(content =~= content.subrange(0, regex.len() as int) + rest);
            assert(line =~= indent + content);
        }
        assert(rest[0] == content[regex.len() as int]);
        assert(leads_with(lines[i], indent, regex, rest));
    }
    if exists|i: int, indent: Seq<char>, rest: Seq<char>|
        0 <= i < lines.len() && #[trigger] leads_with(lines[i], indent, regex, rest) {
        let (i, indent, rest) = choose|i: int, indent: Seq<char>, rest: Seq<char>|
            0 <= i < lines.len() && #[trigger] leads_with(lines[i], indent, regex, rest);
        let line = lines[i];
        let content = regex + rest;
        lemma_leading_space(line);
        let lead = leading_space(line) as int;
        assert(line =~= indent + content);
        assert(line[indent.len() as int] == regex[0]);
        if lead < indent.len() {
            assert(line[lead] == indent[lead]);
        }
        assert(lead == indent.len());
        assert(trimmed_start(line) =~= content);
        assert(content.subrange(0, regex.len() as int) =~= regex);
        assert(content[regex.len() as int] == rest[0]);
        assert(states_rule(lines[i], regex));
    }
}

/// Whether a line begins with a word, after white space.
pub open spec fn leads_with_word(
    line: Seq<char>,
    indent: Seq<char>,
    word: Seq<char>,
    rest: Seq<char>,
) -> bool {
    line == indent + word + rest && is_blank(indent) && (rest.len() > 0 ==> is_space(rest[0]))
}

/// A module is listed exactly where it is the first word of a line.
pub proof fn modules_are_listed_by_line(listing: Seq<char>, module: Seq<char>)
    requires
        module.len() > 0,
        forall|i: int| 0 <= i < module.len() ==> !is_space(#[trigger] module[i]),
    ensures
        module_listed(listing, module) <==> exists|i: int, indent: Seq<char>, rest: Seq<char>|
            0 <= i < lines_of(listing).len() && #[trigger] leads_with_word(
                lines_of(listing)[i],
                indent,
                module,
                rest,
            ),
{
    let lines = lines_of(listing);
    if module_listed(listing, module) {
        let i = choose|i: int| 0 <= i < lines.len() && names_module(#[trigger] lines[i], module);
        let line = lines[i];
        lemma_leading_space(line);
        let lead = leading_space(line) as int;
        let indent = line.take(lead);
        let content = trimmed_start(line);
        lemma_leading_word(content);
        let size = crate::text::leading_word(content) as int;
        let rest = content.skip(size);
        assert(words_of(line)[0] == content.take(size));
        assert(line =~= indent + module + rest) by {
            assert(content =~= content.take(size) + rest);
            assert(line =~= indent + content);
        }
        if rest.len() > 0 {
            assert(rest[0] == content[size]);
        }
        assert(leads_with_word(lines[i], indent, module, rest));
    }
    if exists|i: int, indent: Seq<char>, rest: Seq<char>|
        0 <= i < lines.len() && #[trigger] leads_with_word(lines[i], indent, module, rest) {
        let (i, indent, rest) = choose|i: int, indent: Seq<char>, rest: Seq<char>|
            0 <= i < lines.len() && #[trigger] leads_with_word(lines[i], indent, module, rest);
        words_stand_between_spaces(indent, module, rest);
        assert(words_of(lines[i])[0] == module);
        assert(names_module(lines[i], module));
    }
}

/// Whether a check succeeds, given what the listings of modules and of rules say.
pub open spec fn passes(
    task: Task,
    modules: Result<Output, Error>,
    rules: Result<Output, Error>,
) -> bool {
    if opening(task) == command("semodule"@, seq!["-l"@]) {
        reaction(task, Answer::Ran(modules)) == Ok::<Option<Call>, Seq<char>>(None)
    } else {
        opening(task) == command("semanage"@, seq!["fcontext"@, "-l"@, "-C"@]) && reaction(
            task,
            Answer::Ran(rules),
        ) == Ok::<Option<Call>, Seq<char>>(None)
    }
}

pub open spec fn all_pass(
    tasks: Seq<Task>,
    modules: Result<Output, Error>,
    rules: Result<Output, Error>,
) -> bool {
    forall|i: int| 0 <= i < tasks.len() ==> passes(#[trigger] tasks[i], modules, rules)
}

proof fn lemma_pass_concat(
    first: Seq<Task>,
    second: Seq<Task>,
    modules: Result<Output, Error>,
    rules: Result<Output, Error>,
)
    ensures
        all_pass(first + second, modules, rules) <==> all_pass(first, modules, rules) && all_pass(
            second,
            modules,
            rules,
        ),
{
    let whole = first + second;
    if all_pass(whole, modules, rules) {
        assert forall|i: int| 0 <= i < first.len() implies passes(
            #[trigger] first[i],
            modules,
            rules,
        ) by {
            assert(whole[i] == first[i]);
        }
        assert forall|i: int| 0 <= i < second.len() implies passes(
            #[trigger] second[i],
            modules,
            rules,
        ) by {
            assert(whole[first.len() + i] == second[i]);
        }
    }
    if all_pass(first, modules, rules) && all_pass(second, modules, rules) {
        assert forall|i: int| 0 <= i < whole.len() implies passes(
            #[trigger] whole[i],
            modules,
            rules,
        ) by {
            if i < first.len() {
                assert(whole[i] == first[i]);
            } else {
                assert(whole[i] == second[i - first.len()]);
            }
        }
    }
}

proof fn lemma_calls_differ()
    ensures
        command("semodule"@, seq!["-l"@]) != command(
            "semanage"@,
            seq!["fcontext"@, "-l"@, "-C"@],
        ),
{
    assert(seq!["-l"@].len() == 1 && seq!["fcontext"@, "-l"@, "-C"@].len() == 3);
}

proof fn lemma_rule_passes(
    path: Seq<char>,
    executable: bool,
    modules: Result<Output, Error>,
    rules: Result<Output, Error>,
)
    requires
        !has_control(path),
        rules is Ok && rules->Ok_0.success,
    ensures
        passes(Task::RequireNoRule { path, executable }, modules, rules) <==> !rule_listed(
            lossy(rules->Ok_0.stdout@),
            if executable {
                escaped(path)
            } else {
                escaped(path) + "(/.*)?"@
            },
        ),
{
    lemma_calls_differ();
    let task = Task::RequireNoRule { path, executable };
    assert(opening(task) == command("semanage"@, seq!["fcontext"@, "-l"@, "-C"@]));
}

proof fn lemma_module_passes(
    module: Seq<char>,
    modules: Result<Output, Error>,
    rules: Result<Output, Error>,
)
    requires
        modules is Ok && modules->Ok_0.success,
    ensures
        passes(Task::RequireNoModule { module }, modules, rules) <==> !module_listed(
            lossy(modules->Ok_0.stdout@),
            module,
        ),
{
    let task = Task::RequireNoModule { module };
    assert(opening(task) == command("semodule"@, seq!["-l"@]));
}

/// Whether a directory is one of a previous version.
pub open spec fn had_directory(previous: Option<Profile>, directory: Seq<char>) -> bool {
    previous is Some && previous->Some_0.data_directories.contains(directory)
}

proof fn lemma_owned(directory: Seq<char>, previous: Option<Profile>)
    requires
        !has_control(directory),
    ensures
        is_owned(directory, previous) <==> had_directory(previous, directory),
{
    if let Some(item) = previous {
        let list = item.data_directories;
        if is_owned(directory, previous) {
            let i = choose|i: int|
                0 <= i < list.len() && directory_regex(directory) is Ok && directory_regex(
                    #[trigger] list[i],
                ) == directory_regex(directory);
            expressions_belong_to_one_path(list[i], directory);
            assert(list.contains(list[i]));
        }
        if list.contains(directory) {
            let i = choose|i: int| 0 <= i < list.len() && list[i] == directory;
            assert(directory_regex(list[i]) == directory_regex(directory));
        }
    }
}

proof fn lemma_directories_pass(
    directories: Seq<Seq<char>>,
    previous: Option<Profile>,
    count: nat,
    modules: Result<Output, Error>,
    rules: Result<Output, Error>,
)
    requires
        count <= directories.len(),
        forall|i: int| 0 <= i < directories.len() ==> !has_control(#[trigger] directories[i]),
        rules is Ok && rules->Ok_0.success,
    ensures
        all_pass(directory_checks(directories, previous, count), modules, rules) <==> forall|i: int|
            0 <= i < count && !had_directory(previous, #[trigger] directories[i]) ==> !rule_listed(
                lossy(rules->Ok_0.stdout@),
                escaped(directories[i]) + "(/.*)?"@,
            ),
    decreases count,
{
    if count > 0 {
        lemma_directories_pass(directories, previous, (count - 1) as nat, modules, rules);
        let before = directory_checks(directories, previous, (count - 1) as nat);
        let path = directories[count - 1];
        let task = Task::RequireNoRule { path, executable: false };
        lemma_owned(path, previous);
        lemma_rule_passes(path, false, modules, rules);
        lemma_pass_concat(before, seq![task], modules, rules);
        assert(before.push(task) =~= before + seq![task]);
        assert(all_pass(seq![task], modules, rules) <==> passes(task, modules, rules)) by {
            if all_pass(seq![task], modules, rules) {
                assert(passes(seq![task][0], modules, rules));
            }
        }
    }
}

/// Before a profile is installed, nothing foreign is let through: the checks succeed exactly where
/// neither of its modules is installed and no local rule has the expression of its executable or of
/// one of its directories. Of a previous version of the profile, the modules and the rules of the
/// paths that it had are its own, and only those.
pub proof fn nothing_foreign_is_overwritten(
    profile: Profile,
    previous: Option<Profile>,
    modules: Result<Output, Error>,
    rules: Result<Output, Error>,
)
    requires
        profile_fault(profile) is None,
        previous is Some ==> !has_control(previous->Some_0.executable),
        modules is Ok && modules->Ok_0.success,
        rules is Ok && rules->Ok_0.success,
    ensures
        preflight(profile, previous) is Ok,
        all_pass(preflight(profile, previous)->Ok_0, modules, rules) <==> {
            let installed = lossy(modules->Ok_0.stdout@);
            let local = lossy(rules->Ok_0.stdout@);
            &&& previous is None ==> !module_listed(installed, names_of(profile.id).module)
                && !module_listed(installed, names_of(profile.id).deny_module)
            &&& !(previous is Some && previous->Some_0.executable == profile.executable)
                ==> !rule_listed(local, escaped(profile.executable))
            &&& forall|i: int|
                0 <= i < profile.data_directories.len() && !had_directory(
                    previous,
                    #[trigger] profile.data_directories[i],
                ) ==> !rule_listed(local, escaped(profile.data_directories[i]) + "(/.*)?"@)
        },
{
    let names = names_of(profile.id);
    let paths = profile.data_directories;
    lemma_valid_paths(profile);
    let first = module_checks(profile, previous);
    let second = executable_check(profile, previous)->Ok_0;
    let third = directory_checks(paths, previous, paths.len());
    lemma_pass_concat(first, second, modules, rules);
    lemma_pass_concat(first + second, third, modules, rules);
    lemma_directories_pass(paths, previous, paths.len(), modules, rules);
    lemma_rule_passes(profile.executable, true, modules, rules);
    lemma_module_passes(names.module, modules, rules);
    lemma_module_passes(names.deny_module, modules, rules);
    let check = Task::RequireNoRule { path: profile.executable, executable: true };
    if let Some(item) = previous {
        expressions_belong_to_one_path(item.executable, profile.executable);
    }
    if previous is None {
        if all_pass(first, modules, rules) {
            assert(passes(first[0], modules, rules) && passes(first[1], modules, rules));
        }
    }
    if second.len() > 0 {
        assert(second[0] == check);
        if all_pass(second, modules, rules) {
            assert(passes(second[0], modules, rules));
        }
    }
}

/// The steps of installing, in their order: the base module, the rule and the label of the
/// executable, the rule and the labels of each directory, and the deny module behind all of them.
pub proof fn installations_take_these_steps(profile: Profile, work: Seq<char>)
    ensures
        ({
            let steps = installation(profile, work);
            let names = names_of(profile.id);
            let size = profile.data_directories.len();
            &&& steps.len() == 2 * size + 4
            &&& steps[0] is InstallModule && steps[0]->InstallModule_module == names.module
            &&& steps[1] == (Task::AddRule {
                path: profile.executable,
                executable: true,
                label: names.exec_type,
            })
            &&& steps[2] is Label && steps[2]->Label_path == profile.executable
                && !steps[2]->Label_recursive
            &&& forall|i: int|
                0 <= i < size ==> is_labelled_at(
                    steps,
                    2 * i + 3,
                    #[trigger] profile.data_directories[i],
                    names.data_type,
                )
            &&& steps[(2 * size + 3) as int] is InstallModule && steps[(2 * size + 3) as int]->InstallModule_module == names.deny_module
        }),
{
    let names = names_of(profile.id);
    let size = profile.data_directories.len();
    let middle = directories_install(names, profile.data_directories, size);
    lemma_directory_steps(profile, size);
    let steps = installation(profile, work);
    assert forall|i: int| 0 <= i < size implies is_labelled_at(
        steps,
        2 * i + 3,
        #[trigger] profile.data_directories[i],
        names.data_type,
    ) by {
        assert(is_labelled_at(middle, 2 * i, profile.data_directories[i], names.data_type));
        assert(steps[2 * i + 3] == middle[2 * i]);
        assert(steps[2 * i + 4] == middle[2 * i + 1]);
    }
}

/// Whether two steps add the rule of a directory and label it with all that lies below.
pub open spec fn is_labelled_at(
    steps: Seq<Task>,
    at: int,
    directory: Seq<char>,
    label: Seq<char>,
) -> bool {
    &&& steps[at] == (Task::AddRule { path: directory, executable: false, label })
    &&& steps[at + 1] is Label
    &&& steps[at + 1]->Label_path == directory
    &&& steps[at + 1]->Label_recursive
    &&& steps[at + 1]->Label_context == "Could not label "@ + directory
}

proof fn lemma_directory_steps(profile: Profile, count: nat)
    requires
        count <= profile.data_directories.len(),
    ensures
        ({
            let steps = directories_install(names_of(profile.id), profile.data_directories, count);
            steps.len() == 2 * count && forall|i: int|
                0 <= i < count ==> is_labelled_at(
                    steps,
                    2 * i,
                    #[trigger] profile.data_directories[i],
                    names_of(profile.id).data_type,
                )
        }),
    decreases count,
{
    if count > 0 {
        lemma_directory_steps(profile, (count - 1) as nat);
        let names = names_of(profile.id);
        let before = directories_install(names, profile.data_directories, (count - 1) as nat);
        let steps = directories_install(names, profile.data_directories, count);
        assert forall|i: int| 0 <= i < count implies is_labelled_at(
            steps,
            2 * i,
            #[trigger] profile.data_directories[i],
            names.data_type,
        ) by {
            if i < count - 1 {
                assert(is_labelled_at(before, 2 * i, profile.data_directories[i], names.data_type));
                assert(steps[2 * i] == before[2 * i] && steps[2 * i + 1] == before[2 * i + 1]);
            }
        }
    }
}

/// The steps of removing, in their order: the deny module before all others, the rule and the label
/// of the executable, the rule and the labels of each directory, and the base module behind all of
/// them.
pub proof fn removals_take_these_steps(profile: Profile)
    ensures
        ({
            let steps = removal(profile);
            let names = names_of(profile.id);
            let size = profile.data_directories.len();
            &&& steps.len() == 2 * size + 4
            &&& steps[0] == (Task::RemoveModule { module: names.deny_module })
            &&& steps[1] == (Task::DeleteRule { path: profile.executable, executable: true })
            &&& steps[2] is Restore && steps[2]->Restore_path == profile.executable
                && !steps[2]->Restore_recursive
            &&& forall|i: int|
                0 <= i < size ==> is_restored_at(
                    steps,
                    2 * i + 3,
                    #[trigger] profile.data_directories[i],
                )
            &&& steps[(2 * size + 3) as int] == (Task::RemoveModule { module: names.module })
        }),
{
    let size = profile.data_directories.len();
    let middle = directories_removal(profile.data_directories, size);
    lemma_restored_steps(profile.data_directories, size);
    let steps = removal(profile);
    assert forall|i: int| 0 <= i < size implies is_restored_at(
        steps,
        2 * i + 3,
        #[trigger] profile.data_directories[i],
    ) by {
        assert(is_restored_at(middle, 2 * i, profile.data_directories[i]));
        assert(steps[2 * i + 3] == middle[2 * i]);
        assert(steps[2 * i + 4] == middle[2 * i + 1]);
    }
}

/// Whether two steps delete the rule of a directory and restore the labels of all that lies below.
pub open spec fn is_restored_at(steps: Seq<Task>, at: int, directory: Seq<char>) -> bool {
    &&& steps[at] == (Task::DeleteRule { path: directory, executable: false })
    &&& steps[at + 1] is Restore
    &&& steps[at + 1]->Restore_path == directory
    &&& steps[at + 1]->Restore_recursive
    &&& steps[at + 1]->Restore_context == "Could not restore labels below "@ + directory
}

proof fn lemma_restored_steps(directories: Seq<Seq<char>>, count: nat)
    requires
        count <= directories.len(),
    ensures
        ({
            let steps = directories_removal(directories, count);
            steps.len() == 2 * count && forall|i: int|
                0 <= i < count ==> is_restored_at(steps, 2 * i, #[trigger] directories[i])
        }),
    decreases count,
{
    if count > 0 {
        lemma_restored_steps(directories, (count - 1) as nat);
        let before = directories_removal(directories, (count - 1) as nat);
        let steps = directories_removal(directories, count);
        assert forall|i: int| 0 <= i < count implies is_restored_at(
            steps,
            2 * i,
            #[trigger] directories[i],
        ) by {
            if i < count - 1 {
                assert(is_restored_at(before, 2 * i, directories[i]));
                assert(steps[2 * i] == before[2 * i] && steps[2 * i + 1] == before[2 * i + 1]);
            }
        }
    }
}

/// An inspection after it was answered with the same two listings throughout.
pub open spec fn inspected(
    look: Look,
    modules: Result<Output, Seq<char>>,
    rules: Result<Output, Seq<char>>,
) -> Result<bool, Seq<char>>
    decreases look.signs.len() - look.found,
    when look.verdict is None
{
    match sight(look) {
        Sight::Over(result) => result,
        Sight::Waiting(call) => {
            let ran = if call == (Call { program: "semodule"@, arguments: seq!["-l"@] }) {
                modules
            } else {
                rules
            };
            let next = moved(look, ran);
            if next.verdict is Some || next.found >= look.signs.len() || next.found <= look.found {
                match sight(next) {
                    Sight::Over(result) => result,
                    Sight::Waiting(_) => Ok(false),
                }
            } else {
                inspected(next, modules, rules)
            }
        },
    }
}

/// Whether a sign of a profile is listed.
pub open spec fn is_listed(sign: Sign, installed: Seq<char>, local: Seq<char>) -> bool {
    match sign {
        Sign::Module(module) => module_listed(installed, module),
        Sign::Rule { path, executable } => rule_listed(
            local,
            if executable {
                escaped(path)
            } else {
                escaped(path) + "(/.*)?"@
            },
        ),
    }
}

proof fn lemma_inspected(
    look: Look,
    modules: Result<Output, Seq<char>>,
    rules: Result<Output, Seq<char>>,
)
    requires
        look.verdict is None,
        look.found <= look.signs.len(),
        modules is Ok && modules->Ok_0.success,
        rules is Ok && rules->Ok_0.success,
        forall|i: int|
            0 <= i < look.signs.len() ==> (#[trigger] look.signs[i] matches Sign::Rule {
                path,
                executable,
            } ==> !has_control(path)),
    ensures
        inspected(look, modules, rules) == Ok::<bool, Seq<char>>(
            forall|i: int|
                look.found <= i < look.signs.len() ==> is_listed(
                    #[trigger] look.signs[i],
                    lossy(modules->Ok_0.stdout@),
                    lossy(rules->Ok_0.stdout@),
                ),
        ),
    decreases look.signs.len() - look.found,
{
    lemma_calls_differ();
    let installed = lossy(modules->Ok_0.stdout@);
    let local = lossy(rules->Ok_0.stdout@);
    if look.found < look.signs.len() {
        let sign = look.signs[look.found as int];
        let ran = match sign {
            Sign::Module(_) => modules,
            Sign::Rule { path, executable } => rules,
        };
        assert(is_seen(sign, ran) == Ok::<bool, Seq<char>>(is_listed(sign, installed, local)));
        let next = moved(look, ran);
        assert(sight(look) is Waiting);
        if is_listed(sign, installed, local) {
            assert(next == (Look { found: look.found + 1, ..look }));
            if next.found < look.signs.len() {
                lemma_inspected(next, modules, rules);
            }
            assert forall|i: int|
                look.found <= i < look.signs.len() && (forall|k: int|
                    next.found <= k < look.signs.len() ==> is_listed(
                        #[trigger] look.signs[k],
                        installed,
                        local,
                    )) implies is_listed(#[trigger] look.signs[i], installed, local) by {}
        } else {
            assert(!is_listed(look.signs[look.found as int], installed, local));
        }
    }
}

/// A profile is found in force exactly where both its modules are installed and there is a local rule
/// for its executable and for each of its directories.
pub proof fn inspections_find_what_is_in_force(
    profile: Profile,
    modules: Result<Output, Seq<char>>,
    rules: Result<Output, Seq<char>>,
)
    requires
        profile_fault(profile) is None,
        modules is Ok && modules->Ok_0.success,
        rules is Ok && rules->Ok_0.success,
    ensures
        inspected(begun(profile), modules, rules) == Ok::<bool, Seq<char>>(
            is_in_force(profile, lossy(modules->Ok_0.stdout@), lossy(rules->Ok_0.stdout@)),
        ),
{
    let list = signs_of(profile);
    let paths = profile.data_directories;
    let installed = lossy(modules->Ok_0.stdout@);
    let local = lossy(rules->Ok_0.stdout@);
    lemma_valid_paths(profile);
    assert forall|i: int| 0 <= i < paths.len() implies #[trigger] list[i + 3] == (Sign::Rule {
        path: paths[i],
        executable: false,
    }) by {}
    assert forall|i: int| 0 <= i < list.len() implies (#[trigger] list[i] matches Sign::Rule {
        path,
        executable,
    } ==> !has_control(path)) by {
        if i >= 3 {
            assert(list[(i - 3) + 3] == (Sign::Rule { path: paths[i - 3], executable: false }));
            assert(!has_control(paths[i - 3]));
        }
    }
    lemma_inspected(begun(profile), modules, rules);
    if forall|i: int| 0 <= i < list.len() ==> is_listed(#[trigger] list[i], installed, local) {
        assert(is_listed(list[0], installed, local) && is_listed(list[1], installed, local));
        assert(is_listed(list[2], installed, local));
        assert forall|i: int| 0 <= i < paths.len() implies rule_listed(
            local,
            escaped(#[trigger] paths[i]) + "(/.*)?"@,
        ) by {
            assert(is_listed(list[i + 3], installed, local));
        }
    }
    if is_in_force(profile, installed, local) {
        assert forall|i: int| 0 <= i < list.len() implies is_listed(
            #[trigger] list[i],
            installed,
            local,
        ) by {
            if i >= 3 {
                assert(list[(i - 3) + 3] == (Sign::Rule { path: paths[i - 3], executable: false }));
                assert(rule_listed(local, escaped(paths[i - 3]) + "(/.*)?"@));
            }
        }
    }
}

/// Whether a profile is in force as the listings say.
pub open spec fn is_in_force(profile: Profile, installed: Seq<char>, local: Seq<char>) -> bool {
    &&& module_listed(installed, names_of(profile.id).module)
    &&& module_listed(installed, names_of(profile.id).module + "_deny"@)
    &&& rule_listed(local, escaped(profile.executable))
    &&& forall|i: int|
        0 <= i < profile.data_directories.len() ==> rule_listed(
            local,
            escaped(#[trigger] profile.data_directories[i]) + "(/.*)?"@,
        )
}

/// Whether every check of a list succeeds on a host.
pub open spec fn all_hold(host: Host, tasks: Seq<Task>) -> bool {
    forall|i: int| 0 <= i < tasks.len() ==> holds(host, #[trigger] tasks[i])
}

proof fn lemma_hold_concat(host: Host, first: Seq<Task>, second: Seq<Task>)
    ensures
        all_hold(host, first + second) <==> all_hold(host, first) && all_hold(host, second),
{
    let whole = first + second;
    if all_hold(host, whole) {
        assert forall|i: int| 0 <= i < first.len() implies holds(host, #[trigger] first[i]) by {
            assert(whole[i] == first[i]);
        }
        assert forall|i: int| 0 <= i < second.len() implies holds(host, #[trigger] second[i]) by {
            assert(whole[first.len() + i] == second[i]);
        }
    }
    if all_hold(host, first) && all_hold(host, second) {
        assert forall|i: int| 0 <= i < whole.len() implies holds(host, #[trigger] whole[i]) by {
            if i < first.len() {
                assert(whole[i] == first[i]);
            } else {
                assert(whole[i] == second[i - first.len()]);
            }
        }
    }
}

proof fn lemma_directories_hold(
    host: Host,
    directories: Seq<Seq<char>>,
    previous: Option<Profile>,
    count: nat,
)
    requires
        count <= directories.len(),
        forall|i: int| 0 <= i < directories.len() ==> !has_control(#[trigger] directories[i]),
    ensures
        all_hold(host, directory_checks(directories, previous, count)) <==> forall|i: int|
            0 <= i < count && !had_directory(previous, #[trigger] directories[i])
                ==> !host.rules.dom().contains(directory_regex(directories[i])->Ok_0),
    decreases count,
{
    if count > 0 {
        lemma_directories_hold(host, directories, previous, (count - 1) as nat);
        let before = directory_checks(directories, previous, (count - 1) as nat);
        let path = directories[count - 1];
        let task = Task::RequireNoRule { path, executable: false };
        lemma_owned(path, previous);
        lemma_hold_concat(host, before, seq![task]);
        assert(before.push(task) =~= before + seq![task]);
        assert(all_hold(host, seq![task]) <==> holds(host, task)) by {
            if all_hold(host, seq![task]) {
                assert(holds(host, seq![task][0]));
            }
        }
    }
}

/// Where all checks before an installation succeed, the host has nothing that the installation would
/// overwrite: of a profile that is new neither of its two modules, nor a rule for its executable or
/// for one of its directories, and of one that replaces a previous version no rule for a path that
/// the previous version did not have. The checks succeed nowhere else.
pub proof fn hosts_hold_nothing_foreign(host: Host, profile: Profile, previous: Option<Profile>)
    requires
        profile_fault(profile) is None,
        previous is Some ==> !has_control(previous->Some_0.executable),
    ensures
        preflight(profile, previous) is Ok,
        all_hold(host, preflight(profile, previous)->Ok_0) <==> {
            &&& previous is None ==> !host.modules.contains(names_of(profile.id).module)
                && !host.modules.contains(names_of(profile.id).module + "_deny"@)
            &&& !(previous is Some && previous->Some_0.executable == profile.executable)
                ==> !host.rules.dom().contains(path_regex(profile.executable)->Ok_0)
            &&& forall|i: int|
                0 <= i < profile.data_directories.len() && !had_directory(
                    previous,
                    #[trigger] profile.data_directories[i],
                ) ==> !host.rules.dom().contains(directory_regex(profile.data_directories[i])->Ok_0)
        },
{
    let paths = profile.data_directories;
    lemma_valid_paths(profile);
    let first = module_checks(profile, previous);
    let second = executable_check(profile, previous)->Ok_0;
    let third = directory_checks(paths, previous, paths.len());
    lemma_hold_concat(host, first, second);
    lemma_hold_concat(host, first + second, third);
    lemma_directories_hold(host, paths, previous, paths.len());
    if let Some(item) = previous {
        expressions_belong_to_one_path(item.executable, profile.executable);
    }
    if previous is None {
        if all_hold(host, first) {
            assert(holds(host, first[0]) && holds(host, first[1]));
        }
    }
    if second.len() > 0 {
        assert(second[0] == (Task::RequireNoRule { path: profile.executable, executable: true }));
        if all_hold(host, second) {
            assert(holds(host, second[0]));
        }
    }
}

} // verus!
