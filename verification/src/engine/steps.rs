//! The steps of installing a profile, of taking it out again, and of making sure that nothing
//! foreign is in its way. Each step asks the system one question, and where the answer calls for it
//! runs one command.

use crate::command::{checked, successful, Call, Invocation, Output};
use crate::engine::observe::{
    absent, ensure_fcontext_absent, ensure_module_absent, find_module, find_rule, foreign_module,
    foreign_rule, list_modules, list_rules, module_listing, module_present, rule_listing,
    rule_present,
};
use crate::error::{in_context, outcome, viewed, Error};
use crate::model::{known, names_of, Names, Profile, ProtectionProfile};
use crate::policy::{
    directory_regex, path_regex, recursive_directory_regex, selinux_path_regex,
};
use crate::sources::{inside, join};
use crate::text::{same_text, strings, text2};
use vstd::prelude::*;

verus! {

/// One step.
#[derive(Debug)]
pub enum Step {
    /// Installs a module from a file.
    InstallModule { module: String, file: String, context: String },
    /// Adds the file-context rule of a path.
    AddRule { path: String, executable: bool, label: String },
    /// Labels a path by the rules.
    Label { path: String, recursive: bool, context: String },
    /// Removes a module, where it is installed.
    RemoveModule { module: String },
    /// Deletes the file-context rule of a path, where there is one.
    DeleteRule { path: String, executable: bool },
    /// Labels a path by the rules, where it exists.
    Restore { path: String, recursive: bool, context: String },
    /// Refuses to go on where a module is installed.
    RequireNoModule { module: String },
    /// Refuses to go on where there is a file-context rule for a path.
    RequireNoRule { path: String, executable: bool },
}

/// One step, as a value.
pub enum Task {
    InstallModule { module: Seq<char>, file: Seq<char>, context: Seq<char> },
    AddRule { path: Seq<char>, executable: bool, label: Seq<char> },
    Label { path: Seq<char>, recursive: bool, context: Seq<char> },
    RemoveModule { module: Seq<char> },
    DeleteRule { path: Seq<char>, executable: bool },
    Restore { path: Seq<char>, recursive: bool, context: Seq<char> },
    RequireNoModule { module: Seq<char> },
    RequireNoRule { path: Seq<char>, executable: bool },
}

impl View for Step {
    type V = Task;

    open spec fn view(&self) -> Task {
        match self {
            Step::InstallModule { module, file, context } => Task::InstallModule {
                module: module@,
                file: file@,
                context: context@,
            },
            Step::AddRule { path, executable, label } => Task::AddRule {
                path: path@,
                executable: *executable,
                label: label@,
            },
            Step::Label { path, recursive, context } => Task::Label {
                path: path@,
                recursive: *recursive,
                context: context@,
            },
            Step::RemoveModule { module } => Task::RemoveModule { module: module@ },
            Step::DeleteRule { path, executable } => Task::DeleteRule {
                path: path@,
                executable: *executable,
            },
            Step::Restore { path, recursive, context } => Task::Restore {
                path: path@,
                recursive: *recursive,
                context: context@,
            },
            Step::RequireNoModule { module } => Task::RequireNoModule { module: module@ },
            Step::RequireNoRule { path, executable } => Task::RequireNoRule {
                path: path@,
                executable: *executable,
            },
        }
    }
}

/// What a list of steps holds.
pub open spec fn tasks(list: Seq<Step>) -> Seq<Task> {
    list.map_values(|item: Step| item@)
}

/// What a step asks of the system.
#[derive(Debug)]
pub enum Question {
    /// To run a command.
    Run(Invocation),
    /// Whether a path exists.
    Exists(String),
}

/// What a step asks of the system, as a value.
pub enum Request {
    Run(Call),
    Exists(Seq<char>),
}

impl View for Question {
    type V = Request;

    open spec fn view(&self) -> Request {
        match self {
            Question::Run(invocation) => Request::Run(invocation@),
            Question::Exists(path) => Request::Exists(path@),
        }
    }
}

/// What the system answers.
#[derive(Debug)]
pub enum Answer {
    /// The program of a command was not found.
    Missing(Error),
    /// A command was run, or could not be.
    Ran(Result<Output, Error>),
    /// A path exists, or does not.
    Exists(bool),
}

/// The expression of the rule for a path: the path itself for an executable, else everything below
/// it as well.
pub open spec fn rule_regex(path: Seq<char>, executable: bool) -> Result<Seq<char>, Seq<char>> {
    if executable {
        path_regex(path)
    } else {
        directory_regex(path)
    }
}

fn expression(path: &str, executable: bool) -> (result: Result<String, Error>)
    ensures
        viewed(result) == rule_regex(path@, executable),
{
    if executable {
        selinux_path_regex(path)
    } else {
        recursive_directory_regex(path)
    }
}

/// The options that restrict a rule to regular files.
pub open spec fn kind_options(executable: bool) -> Seq<Seq<char>> {
    if executable {
        seq!["-f"@, "f"@]
    } else {
        Seq::empty()
    }
}

/// The command that installs a module.
pub open spec fn install_call(file: Seq<char>) -> Call {
    Call { program: "semodule"@, arguments: seq!["-i"@, file] }
}

/// The command that adds a rule.
pub open spec fn add_call(regex: Seq<char>, executable: bool, label: Seq<char>) -> Call {
    Call {
        program: "semanage"@,
        arguments: seq!["fcontext"@, "-a"@] + kind_options(executable) + seq!["-t"@, label, regex],
    }
}

/// The command that deletes a rule.
pub open spec fn delete_call(regex: Seq<char>, executable: bool) -> Call {
    Call {
        program: "semanage"@,
        arguments: seq!["fcontext"@, "-d"@] + kind_options(executable) + seq![regex],
    }
}

/// The command that labels a path by the rules.
pub open spec fn label_call(path: Seq<char>, recursive: bool) -> Call {
    let option = if recursive {
        "-RFv"@
    } else {
        "-v"@
    };
    Call { program: "restorecon"@, arguments: seq![option, path] }
}

/// The command that removes a module.
pub open spec fn remove_call(module: Seq<char>) -> Call {
    Call { program: "semodule"@, arguments: seq!["-r"@, module] }
}

/// What is said where the command of a step fails.
pub open spec fn task_context(task: Task) -> Seq<char> {
    match task {
        Task::InstallModule { module, file, context } => context,
        Task::AddRule { path, executable, label } => "Could not add file-context rule for "@ + path,
        Task::Label { path, recursive, context } => context,
        Task::RemoveModule { module } => "Could not remove policy module "@ + module,
        Task::DeleteRule { path, executable } => "Could not delete file-context rule for "@ + path,
        Task::Restore { path, recursive, context } => context,
        _ => Seq::empty(),
    }
}

/// What a step asks first, or why it cannot.
pub open spec fn opening(task: Task) -> Result<Request, Seq<char>> {
    match task {
        Task::InstallModule { module, file, context } => Ok(Request::Run(install_call(file))),
        Task::AddRule { path, executable, label } => match rule_regex(path, executable) {
            Err(message) => Err(message),
            Ok(regex) => Ok(Request::Run(add_call(regex, executable, label))),
        },
        Task::Label { path, recursive, context } => Ok(Request::Run(label_call(path, recursive))),
        Task::RemoveModule { module } => Ok(Request::Run(module_listing())),
        Task::DeleteRule { path, executable } => match rule_regex(path, executable) {
            Err(message) => Err(message),
            Ok(regex) => Ok(Request::Run(rule_listing())),
        },
        Task::Restore { path, recursive, context } => Ok(Request::Exists(path)),
        Task::RequireNoModule { module } => Ok(Request::Run(module_listing())),
        Task::RequireNoRule { path, executable } => match rule_regex(path, executable) {
            Err(message) => Err(message),
            Ok(regex) => Ok(Request::Run(rule_listing())),
        },
    }
}

/// What a failed or successful command of a step comes to.
pub open spec fn closing(task: Task, ran: Result<Output, Seq<char>>) -> Result<(), Seq<char>> {
    match successful(ran) {
        Ok(_) => Ok(()),
        Err(message) => Err(in_context(message, task_context(task))),
    }
}

/// The command to run where something is there.
pub open spec fn if_present(present: Result<bool, Seq<char>>, call: Call) -> Result<
    Option<Call>,
    Seq<char>,
> {
    match present {
        Err(message) => Err(message),
        Ok(true) => Ok(Some(call)),
        Ok(false) => Ok(None),
    }
}

/// A step that is over, unless it failed.
pub open spec fn settled(result: Result<(), Seq<char>>) -> Result<Option<Call>, Seq<char>> {
    match result {
        Err(message) => Err(message),
        Ok(()) => Ok(None),
    }
}

/// Whether an answer is of the kind that a step asks for first.
pub open spec fn fits(task: Task, answer: Answer) -> bool {
    (task is Restore) == (answer is Exists)
}

/// What a step does on the first answer: a further command, nothing more, or fail.
pub open spec fn reaction(task: Task, answer: Answer) -> Result<Option<Call>, Seq<char>> {
    match answer {
        Answer::Missing(error) => Err(error@),
        Answer::Exists(exists) => match task {
            Task::Restore { path, recursive, context } => if exists {
                Ok(Some(label_call(path, recursive)))
            } else {
                Ok(None)
            },
            _ => Ok(None),
        },
        Answer::Ran(ran) => match task {
            Task::RemoveModule { module } => if_present(
                module_present(outcome(ran), module),
                remove_call(module),
            ),
            Task::DeleteRule { path, executable } => match rule_regex(path, executable) {
                Err(message) => Err(message),
                Ok(regex) => if_present(
                    rule_present(outcome(ran), regex),
                    delete_call(regex, executable),
                ),
            },
            Task::RequireNoModule { module } => settled(
                absent(module_present(outcome(ran), module), foreign_module(module)),
            ),
            Task::RequireNoRule { path, executable } => match rule_regex(path, executable) {
                Err(message) => Err(message),
                Ok(regex) => settled(
                    absent(rule_present(outcome(ran), regex), foreign_rule(regex)),
                ),
            },
            _ => settled(closing(task, outcome(ran))),
        },
    }
}

fn command2(program: &str, first: &str, second: &str) -> (result: Invocation)
    ensures
        result@ == (Call { program: program@, arguments: seq![first@, second@] }),
{
    let arguments = vec![first.to_owned(), second.to_owned()];
    assert(strings(arguments@) =~= seq![first@, second@]);
    Invocation { program: program.to_owned(), arguments }
}

fn labelling(path: &str, recursive: bool) -> (result: Invocation)
    ensures
        result@ == label_call(path@, recursive),
{
    if recursive {
        command2("restorecon", "-RFv", path)
    } else {
        command2("restorecon", "-v", path)
    }
}

fn adding(regex: &str, executable: bool, label: &str) -> (result: Invocation)
    ensures
        result@ == add_call(regex@, executable, label@),
{
    let mut arguments: Vec<String> = Vec::new();
    arguments.push("fcontext".to_owned());
    arguments.push("-a".to_owned());
    if executable {
        arguments.push("-f".to_owned());
        arguments.push("f".to_owned());
    }
    arguments.push("-t".to_owned());
    arguments.push(label.to_owned());
    arguments.push(regex.to_owned());
    assert(strings(arguments@) =~= add_call(regex@, executable, label@).arguments);
    Invocation { program: "semanage".to_owned(), arguments }
}

fn deleting(regex: &str, executable: bool) -> (result: Invocation)
    ensures
        result@ == delete_call(regex@, executable),
{
    let mut arguments: Vec<String> = Vec::new();
    arguments.push("fcontext".to_owned());
    arguments.push("-d".to_owned());
    if executable {
        arguments.push("-f".to_owned());
        arguments.push("f".to_owned());
    }
    arguments.push(regex.to_owned());
    assert(strings(arguments@) =~= delete_call(regex@, executable).arguments);
    Invocation { program: "semanage".to_owned(), arguments }
}

/// What a result with an optional command says.
pub open spec fn optional_call(result: Result<Option<Invocation>, Error>) -> Result<
    Option<Call>,
    Seq<char>,
> {
    match result {
        Ok(Some(invocation)) => Ok(Some(invocation@)),
        Ok(None) => Ok(None),
        Err(error) => Err(error@),
    }
}

impl Step {
    fn context(&self) -> (result: String)
        ensures
            result@ == task_context(self@),
    {
        match self {
            Step::InstallModule { module: _, file: _, context } => context.clone(),
            Step::AddRule { path, executable: _, label: _ } => text2(
                "Could not add file-context rule for ",
                path.as_str(),
            ),
            Step::Label { path: _, recursive: _, context } => context.clone(),
            Step::RemoveModule { module } => text2(
                "Could not remove policy module ",
                module.as_str(),
            ),
            Step::DeleteRule { path, executable: _ } => text2(
                "Could not delete file-context rule for ",
                path.as_str(),
            ),
            Step::Restore { path: _, recursive: _, context } => context.clone(),
            _ => String::new(),
        }
    }

    /// What the step asks first.
    pub fn begin(&self) -> (result: Result<Question, Error>)
        ensures
            viewed(result) == opening(self@),
    {
        match self {
            Step::InstallModule { module: _, file, context: _ } => Ok(
                Question::Run(command2("semodule", "-i", file.as_str())),
            ),
            Step::AddRule { path, executable, label } => match expression(
                path.as_str(),
                *executable,
            ) {
                Err(error) => Err(error),
                Ok(regex) => Ok(
                    Question::Run(adding(regex.as_str(), *executable, label.as_str())),
                ),
            },
            Step::Label { path, recursive, context: _ } => Ok(
                Question::Run(labelling(path.as_str(), *recursive)),
            ),
            Step::RemoveModule { module: _ } => Ok(Question::Run(list_modules())),
            Step::DeleteRule { path, executable } => match expression(path.as_str(), *executable) {
                Err(error) => Err(error),
                Ok(_) => Ok(Question::Run(list_rules())),
            },
            Step::Restore { path, recursive: _, context: _ } => Ok(Question::Exists(path.clone())),
            Step::RequireNoModule { module: _ } => Ok(Question::Run(list_modules())),
            Step::RequireNoRule { path, executable } => match expression(
                path.as_str(),
                *executable,
            ) {
                Err(error) => Err(error),
                Ok(_) => Ok(Question::Run(list_rules())),
            },
        }
    }

    /// Decides over the command that the step ran last.
    pub fn finish(&self, ran: Result<Output, Error>) -> (result: Result<(), Error>)
        ensures
            outcome(result) == closing(self@, outcome(ran)),
    {
        match checked(ran) {
            Ok(_) => Ok(()),
            Err(error) => {
                let context = self.context();
                Err(error.context(context.as_str()))
            },
        }
    }

    /// Decides over the first answer: whether a further command is to be run.
    pub fn proceed(&self, answer: Answer) -> (result: Result<Option<Invocation>, Error>)
        requires
            fits(self@, answer),
        ensures
            optional_call(result) == reaction(self@, answer),
    {
        match answer {
            Answer::Missing(error) => Err(error),
            Answer::Exists(exists) => match self {
                Step::Restore { path, recursive, context: _ } => if exists {
                    Ok(Some(labelling(path.as_str(), *recursive)))
                } else {
                    Ok(None)
                },
                _ => Ok(None),
            },
            Answer::Ran(ran) => match self {
                Step::RemoveModule { module } => match find_module(ran, module.as_str()) {
                    Err(error) => Err(error),
                    Ok(true) => Ok(Some(command2("semodule", "-r", module.as_str()))),
                    Ok(false) => Ok(None),
                },
                Step::DeleteRule { path, executable } => match expression(
                    path.as_str(),
                    *executable,
                ) {
                    Err(error) => Err(error),
                    Ok(regex) => match find_rule(ran, regex.as_str()) {
                        Err(error) => Err(error),
                        Ok(true) => Ok(Some(deleting(regex.as_str(), *executable))),
                        Ok(false) => Ok(None),
                    },
                },
                Step::RequireNoModule { module } => match ensure_module_absent(
                    ran,
                    module.as_str(),
                ) {
                    Err(error) => Err(error),
                    Ok(()) => Ok(None),
                },
                Step::RequireNoRule { path, executable } => match expression(
                    path.as_str(),
                    *executable,
                ) {
                    Err(error) => Err(error),
                    Ok(regex) => match ensure_fcontext_absent(ran, regex.as_str()) {
                        Err(error) => Err(error),
                        Ok(()) => Ok(None),
                    },
                },
                _ => match self.finish(ran) {
                    Err(error) => Err(error),
                    Ok(()) => Ok(None),
                },
            },
        }
    }
}

/// The steps that label one protected directory.
pub open spec fn directory_install(names: Names, directory: Seq<char>) -> Seq<Task> {
    seq![
        Task::AddRule { path: directory, executable: false, label: names.data_type },
        Task::Label {
            path: directory,
            recursive: true,
            context: "Could not label "@ + directory,
        },
    ]
}

/// The steps that label the first `count` protected directories.
pub open spec fn directories_install(names: Names, directories: Seq<Seq<char>>, count: nat) -> Seq<
    Task,
>
    decreases count,
{
    if count == 0 {
        Seq::empty()
    } else {
        directories_install(names, directories, (count - 1) as nat) + directory_install(
            names,
            directories[count - 1],
        )
    }
}

/// The steps before the protected directories: the base module, then the executable.
pub open spec fn base_install(profile: Profile, work: Seq<char>) -> Seq<Task> {
    let names = names_of(profile.id);
    seq![
        Task::InstallModule {
            module: names.module,
            file: inside(work, names.module + ".pp"@),
            context: "Could not install the SELinux type-enforcement module"@,
        },
        Task::AddRule { path: profile.executable, executable: true, label: names.exec_type },
        Task::Label {
            path: profile.executable,
            recursive: false,
            context: "Could not label the application executable"@,
        },
    ]
}

/// The last step: the deny module.
pub open spec fn deny_install(profile: Profile, work: Seq<char>) -> Task {
    let names = names_of(profile.id);
    Task::InstallModule {
        module: names.deny_module,
        file: inside(work, names.deny_module + ".cil"@),
        context:
            "Could not install the SELinux deny module. SELinux userspace 3.6 or newer is required"@,
    }
}

/// The steps of installing a profile that was built in a directory. The types exist before they
/// are assigned to files, and the deny module comes only after everything was labelled.
pub open spec fn installation(profile: Profile, work: Seq<char>) -> Seq<Task> {
    (base_install(profile, work) + directories_install(
        names_of(profile.id),
        profile.data_directories,
        profile.data_directories.len(),
    )).push(deny_install(profile, work))
}

/// The steps that take the label from one protected directory.
pub open spec fn directory_removal(directory: Seq<char>) -> Seq<Task> {
    seq![
        Task::DeleteRule { path: directory, executable: false },
        Task::Restore {
            path: directory,
            recursive: true,
            context: "Could not restore labels below "@ + directory,
        },
    ]
}

/// The steps that take the label from the first `count` protected directories.
pub open spec fn directories_removal(directories: Seq<Seq<char>>, count: nat) -> Seq<Task>
    decreases count,
{
    if count == 0 {
        Seq::empty()
    } else {
        directories_removal(directories, (count - 1) as nat) + directory_removal(
            directories[count - 1],
        )
    }
}

/// The steps before the protected directories: the deny module, then the executable.
pub open spec fn deny_removal(profile: Profile) -> Seq<Task> {
    seq![
        Task::RemoveModule { module: names_of(profile.id).deny_module },
        Task::DeleteRule { path: profile.executable, executable: true },
        Task::Restore {
            path: profile.executable,
            recursive: false,
            context: "Could not restore the executable label"@,
        },
    ]
}

/// The steps of taking a profile out again. The deny module goes first, so that it does not stand
/// in the way, and the base module last, when no file carries its types any more.
pub open spec fn removal(profile: Profile) -> Seq<Task> {
    (deny_removal(profile) + directories_removal(
        profile.data_directories,
        profile.data_directories.len(),
    )).push(Task::RemoveModule { module: names_of(profile.id).module })
}

/// The steps of installing a profile that was built in a directory.
pub fn install_steps(profile: &ProtectionProfile, work: &str) -> (result: Vec<Step>)
    ensures
        tasks(result@) == installation(profile@, work@),
{
    let ids = profile.identifiers();
    let package = text2(ids.module.as_str(), ".pp");
    let source = text2(ids.deny_module.as_str(), ".cil");
    let mut steps: Vec<Step> = Vec::new();
    steps.push(
        Step::InstallModule {
            module: ids.module.clone(),
            file: join(work, package.as_str()),
            context: "Could not install the SELinux type-enforcement module".to_owned(),
        },
    );
    steps.push(
        Step::AddRule {
            path: profile.executable.clone(),
            executable: true,
            label: ids.exec_type.clone(),
        },
    );
    steps.push(
        Step::Label {
            path: profile.executable.clone(),
            recursive: false,
            context: "Could not label the application executable".to_owned(),
        },
    );
    let ghost head = base_install(profile@, work@);
    let ghost names = ids@;
    let ghost all = strings(profile.data_directories@);
    assert(tasks(steps@) =~= head);
    assert(tasks(steps@) =~= head + directories_install(names, all, 0));
    let mut index: usize = 0;
    while index < profile.data_directories.len()
        invariant
            index <= profile.data_directories@.len(),
            all == strings(profile.data_directories@),
            names == ids@,
            tasks(steps@) == head + directories_install(names, all, index as nat),
        decreases profile.data_directories.len() - index,
    {
        let ghost before = steps@;
        let directory = &profile.data_directories[index];
        assert(all[index as int] == directory@);
        steps.push(
            Step::AddRule {
                path: directory.clone(),
                executable: false,
                label: ids.data_type.clone(),
            },
        );
        steps.push(
            Step::Label {
                path: directory.clone(),
                recursive: true,
                context: text2("Could not label ", directory.as_str()),
            },
        );
        assert(tasks(steps@) =~= tasks(before) + directory_install(names, directory@));
        assert(tasks(steps@) =~= head + directories_install(names, all, (index + 1) as nat));
        index += 1;
    }
    let ghost before = steps@;
    steps.push(
        Step::InstallModule {
            module: ids.deny_module.clone(),
            file: join(work, source.as_str()),
            context:
                "Could not install the SELinux deny module. SELinux userspace 3.6 or newer is required".to_owned(),
        },
    );
    assert(tasks(steps@) =~= tasks(before).push(deny_install(profile@, work@)));
    steps
}

/// The steps of taking a profile out again.
pub fn teardown_steps(profile: &ProtectionProfile) -> (result: Vec<Step>)
    ensures
        tasks(result@) == removal(profile@),
{
    let ids = profile.identifiers();
    let mut steps: Vec<Step> = Vec::new();
    steps.push(Step::RemoveModule { module: ids.deny_module.clone() });
    steps.push(Step::DeleteRule { path: profile.executable.clone(), executable: true });
    steps.push(
        Step::Restore {
            path: profile.executable.clone(),
            recursive: false,
            context: "Could not restore the executable label".to_owned(),
        },
    );
    let ghost head = deny_removal(profile@);
    let ghost all = strings(profile.data_directories@);
    assert(tasks(steps@) =~= head);
    assert(tasks(steps@) =~= head + directories_removal(all, 0));
    let mut index: usize = 0;
    while index < profile.data_directories.len()
        invariant
            index <= profile.data_directories@.len(),
            all == strings(profile.data_directories@),
            tasks(steps@) == head + directories_removal(all, index as nat),
        decreases profile.data_directories.len() - index,
    {
        let ghost before = steps@;
        let directory = &profile.data_directories[index];
        assert(all[index as int] == directory@);
        steps.push(Step::DeleteRule { path: directory.clone(), executable: false });
        steps.push(
            Step::Restore {
                path: directory.clone(),
                recursive: true,
                context: text2("Could not restore labels below ", directory.as_str()),
            },
        );
        assert(tasks(steps@) =~= tasks(before) + directory_removal(directory@));
        assert(tasks(steps@) =~= head + directories_removal(all, (index + 1) as nat));
        index += 1;
    }
    let ghost before = steps@;
    steps.push(Step::RemoveModule { module: ids.module.clone() });
    assert(tasks(steps@) =~= tasks(before).push(
        Task::RemoveModule { module: names_of(profile@.id).module },
    ));
    steps
}

/// Whether a directory had a rule already in the previous version of a profile.
pub open spec fn is_owned(directory: Seq<char>, previous: Option<Profile>) -> bool {
    previous matches Some(item) && exists|i: int|
        0 <= i < item.data_directories.len() && directory_regex(directory) is Ok
            && directory_regex(#[trigger] item.data_directories[i]) == directory_regex(directory)
}

/// The steps that look for foreign modules. A previous version of the profile owns its modules.
pub open spec fn module_checks(profile: Profile, previous: Option<Profile>) -> Seq<Task> {
    if previous is None {
        seq![
            Task::RequireNoModule { module: names_of(profile.id).module },
            Task::RequireNoModule { module: names_of(profile.id).deny_module },
        ]
    } else {
        Seq::empty()
    }
}

/// The step that looks for a foreign rule of the executable, or why there is none to be.
pub open spec fn executable_check(profile: Profile, previous: Option<Profile>) -> Result<
    Seq<Task>,
    Seq<char>,
> {
    let check = seq![Task::RequireNoRule { path: profile.executable, executable: true }];
    match previous {
        None => Ok(check),
        Some(item) => match path_regex(profile.executable) {
            Err(message) => Err(message),
            Ok(regex) => match path_regex(item.executable) {
                Err(message) => Err(message),
                Ok(old) => if old == regex {
                    Ok(Seq::empty())
                } else {
                    Ok(check)
                },
            },
        },
    }
}

/// The steps that look for foreign rules of the first `count` directories.
pub open spec fn directory_checks(
    directories: Seq<Seq<char>>,
    previous: Option<Profile>,
    count: nat,
) -> Seq<Task>
    decreases count,
{
    if count == 0 {
        Seq::empty()
    } else {
        let before = directory_checks(directories, previous, (count - 1) as nat);
        if is_owned(directories[count - 1], previous) {
            before
        } else {
            before.push(Task::RequireNoRule { path: directories[count - 1], executable: false })
        }
    }
}

/// The steps that make sure that nothing foreign is in the way of a profile.
pub open spec fn preflight(profile: Profile, previous: Option<Profile>) -> Result<
    Seq<Task>,
    Seq<char>,
> {
    match executable_check(profile, previous) {
        Err(message) => Err(message),
        Ok(check) => Ok(
            module_checks(profile, previous) + check + directory_checks(
                profile.data_directories,
                previous,
                profile.data_directories.len(),
            ),
        ),
    }
}

fn owned_directory(directory: &str, previous: Option<&ProtectionProfile>) -> (result: bool)
    ensures
        result == is_owned(directory@, known(previous)),
{
    let item = match previous {
        None => {
            return false;
        },
        Some(item) => item,
    };
    let regex = match recursive_directory_regex(directory) {
        Err(_) => {
            return false;
        },
        Ok(regex) => regex,
    };
    let ghost all = strings(item.data_directories@);
    let mut index: usize = 0;
    while index < item.data_directories.len()
        invariant
            index <= item.data_directories@.len(),
            all == strings(item.data_directories@),
            known(previous) == Some(item@),
            directory_regex(directory@) == Ok::<Seq<char>, Seq<char>>(regex@),
            forall|i: int|
                0 <= i < index ==> directory_regex(#[trigger] all[i]) != directory_regex(directory@),
        decreases item.data_directories.len() - index,
    {
        assert(all[index as int] == item.data_directories@[index as int]@);
        if let Ok(old) = recursive_directory_regex(item.data_directories[index].as_str()) {
            if same_text(old.as_str(), regex.as_str()) {
                assert(directory_regex(all[index as int]) == directory_regex(directory@));
                return true;
            }
        }
        index += 1;
    }
    false
}

/// What a result with a list of steps says.
pub open spec fn planned(result: Result<Vec<Step>, Error>) -> Result<Seq<Task>, Seq<char>> {
    match result {
        Ok(steps) => Ok(tasks(steps@)),
        Err(error) => Err(error@),
    }
}

fn check_executable_rule(
    profile: &ProtectionProfile,
    previous: Option<&ProtectionProfile>,
) -> (result: Result<bool, Error>)
    ensures
        match executable_check(profile@, known(previous)) {
            Err(message) => outcome(result) == Err::<bool, Seq<char>>(message),
            Ok(check) => outcome(result) == Ok::<bool, Seq<char>>(check.len() > 0) && check == if check.len() > 0 {
                seq![Task::RequireNoRule { path: profile@.executable, executable: true }]
            } else {
                Seq::empty()
            },
        },
{
    match previous {
        None => Ok(true),
        Some(item) => match selinux_path_regex(profile.executable.as_str()) {
            Err(error) => Err(error),
            Ok(regex) => match selinux_path_regex(item.executable.as_str()) {
                Err(error) => Err(error),
                Ok(old) => Ok(!same_text(old.as_str(), regex.as_str())),
            },
        },
    }
}

/// The steps that make sure that nothing foreign is in the way of a profile.
pub fn preflight_steps(
    profile: &ProtectionProfile,
    previous: Option<&ProtectionProfile>,
) -> (result: Result<Vec<Step>, Error>)
    ensures
        planned(result) == preflight(profile@, known(previous)),
{
    let checking = match check_executable_rule(profile, previous) {
        Err(error) => {
            return Err(error);
        },
        Ok(checking) => checking,
    };
    let ids = profile.identifiers();
    let mut steps: Vec<Step> = Vec::new();
    if previous.is_none() {
        steps.push(Step::RequireNoModule { module: ids.module.clone() });
        steps.push(Step::RequireNoModule { module: ids.deny_module.clone() });
    }
    let ghost earlier = known(previous);
    assert(tasks(steps@) =~= module_checks(profile@, earlier));
    if checking {
        steps.push(Step::RequireNoRule { path: profile.executable.clone(), executable: true });
    }
    let ghost head = module_checks(profile@, earlier) + executable_check(profile@, earlier)->Ok_0;
    let ghost all = strings(profile.data_directories@);
    assert(tasks(steps@) =~= head);
    assert(tasks(steps@) =~= head + directory_checks(all, earlier, 0));
    let mut index: usize = 0;
    while index < profile.data_directories.len()
        invariant
            index <= profile.data_directories@.len(),
            all == strings(profile.data_directories@),
            earlier == known(previous),
            tasks(steps@) == head + directory_checks(all, earlier, index as nat),
        decreases profile.data_directories.len() - index,
    {
        let ghost before = steps@;
        let directory = &profile.data_directories[index];
        assert(all[index as int] == directory@);
        if !owned_directory(directory.as_str(), previous) {
            steps.push(Step::RequireNoRule { path: directory.clone(), executable: false });
            assert(tasks(steps@) =~= tasks(before).push(
                Task::RequireNoRule { path: directory@, executable: false },
            ));
        }
        assert(tasks(steps@) =~= head + directory_checks(all, earlier, (index + 1) as nat));
        index += 1;
    }
    Ok(steps)
}

} // verus!
