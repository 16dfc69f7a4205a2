//! Building the base module of a profile. The stages of the reference-policy compiler are run one by
//! one, with explicit arguments and private files, without Make and without a shell.

use crate::build_config::{definitions, is_multilevel, PolicyBuildConfig, Settings};
use crate::bytes::{decoded, utf8_complaint};
use crate::command::{Call, Invocation};
use crate::error::{in_context, outcome, viewed, Error};
use crate::model::{names_of, Profile, ProtectionProfile};
use crate::policy::{
    base_module, deny_module, profile_fault, render_deny_cil, render_type_enforcement,
};
use crate::sources::{inside, join, PolicySources, Sources};
use crate::text::{characters, replace, replaced, strings, text2, text3, to_text};
use vstd::prelude::*;
use vstd::utf8::{decode_utf8, valid_utf8};

verus! {

/// The largest file that a stage may produce.
pub const MAX_GENERATED_POLICY_SIZE: u64 = 67108864;

/// One stage of a build.
#[derive(Debug)]
pub enum BuildStep {
    /// Writes a new file.
    Write { path: String, contents: String },
    /// Writes the output of a command to a new file.
    Expand { command: Invocation, output: String, context: String },
    /// Turns expanded interfaces into a file that defines them and prints nothing.
    Wrap { input: String, output: String },
    /// Runs a command.
    Run { command: Invocation, context: String },
}

/// One stage of a build, as a value.
pub enum Stage {
    Write { path: Seq<char>, contents: Seq<char> },
    Expand { command: Call, output: Seq<char>, context: Seq<char> },
    Wrap { input: Seq<char>, output: Seq<char> },
    Run { command: Call, context: Seq<char> },
}

impl View for BuildStep {
    type V = Stage;

    open spec fn view(&self) -> Stage {
        match self {
            BuildStep::Write { path, contents } => Stage::Write {
                path: path@,
                contents: contents@,
            },
            BuildStep::Expand { command, output, context } => Stage::Expand {
                command: command@,
                output: output@,
                context: context@,
            },
            BuildStep::Wrap { input, output } => Stage::Wrap { input: input@, output: output@ },
            BuildStep::Run { command, context } => Stage::Run {
                command: command@,
                context: context@,
            },
        }
    }
}

pub open spec fn stages(list: Seq<BuildStep>) -> Seq<Stage> {
    list.map_values(|item: BuildStep| item@)
}

/// The two files that a profile is built from, in a directory.
pub open spec fn module_files(profile: Profile, work: Seq<char>) -> Result<Seq<Stage>, Seq<char>> {
    let names = names_of(profile.id);
    match profile_fault(profile) {
        Some(message) => Err(message),
        None => Ok(
            seq![
                Stage::Write {
                    path: inside(work, names.module + ".te"@),
                    contents: base_module(profile),
                },
                Stage::Write {
                    path: inside(work, names.deny_module + ".cil"@),
                    contents: deny_module(profile),
                },
            ],
        ),
    }
}

/// What a result with a list of stages says.
pub open spec fn staged(result: Result<Vec<BuildStep>, Error>) -> Result<Seq<Stage>, Seq<char>> {
    match result {
        Ok(list) => Ok(stages(list@)),
        Err(error) => Err(error@),
    }
}

/// The stages that write the two files of a profile.
pub fn source_steps(profile: &ProtectionProfile, work: &str) -> (result: Result<
    Vec<BuildStep>,
    Error,
>)
    ensures
        staged(result) == module_files(profile@, work@),
{
    let te = match render_type_enforcement(profile) {
        Err(error) => {
            return Err(error);
        },
        Ok(text) => text,
    };
    let cil = match render_deny_cil(profile) {
        Err(error) => {
            return Err(error);
        },
        Ok(text) => text,
    };
    let ids = profile.identifiers();
    let te_name = text2(ids.module.as_str(), ".te");
    let cil_name = text2(ids.deny_module.as_str(), ".cil");
    let mut result: Vec<BuildStep> = Vec::new();
    result.push(BuildStep::Write { path: join(work, te_name.as_str()), contents: te });
    result.push(BuildStep::Write { path: join(work, cil_name.as_str()), contents: cil });
    assert(stages(result@) =~= module_files(profile@, work@)->Ok_0);
    Ok(result)
}

/// The command that expands the interfaces of the reference policy.
pub open spec fn interface_call(sources: Sources, work: Seq<char>) -> Call {
    Call {
        program: "m4"@,
        arguments: (sources.support + sources.interfaces).push(inside(work, "iferror.m4"@)),
    }
}

/// The command that expands the base module.
pub open spec fn module_call(
    sources: Sources,
    settings: Settings,
    work: Seq<char>,
    module: Seq<char>,
) -> Call {
    Call {
        program: "m4"@,
        arguments: (definitions(settings).push("-s"@) + sources.support).push(
            inside(work, "all_interfaces.conf"@),
        ).push(inside(work, module + ".te"@)),
    }
}

/// The options of the module compiler.
pub open spec fn compiler_options(settings: Settings) -> Seq<Seq<char>> {
    if is_multilevel(settings) {
        seq!["-m"@, "-M"@]
    } else {
        seq!["-m"@]
    }
}

/// The command that compiles the expanded base module.
pub open spec fn compiler_call(settings: Settings, work: Seq<char>, module: Seq<char>) -> Call {
    Call {
        program: "checkmodule"@,
        arguments: compiler_options(settings) + seq![
            inside(work, module + ".expanded"@),
            "-o"@,
            inside(work, module + ".mod"@),
        ],
    }
}

/// The command that packages the compiled base module.
pub open spec fn package_call(work: Seq<char>, module: Seq<char>) -> Call {
    Call {
        program: "semodule_package"@,
        arguments: seq![
            "-o"@,
            inside(work, module + ".pp"@),
            "-m"@,
            inside(work, module + ".mod"@),
        ],
    }
}

/// The stages that turn the written base module into a package.
pub open spec fn compilation(
    sources: Sources,
    settings: Settings,
    work: Seq<char>,
    module: Seq<char>,
) -> Seq<Stage> {
    seq![
        Stage::Write {
            path: inside(work, "iferror.m4"@),
            contents: "ifdef(`__if_error',`m4exit(1)')\n"@,
        },
        Stage::Expand {
            command: interface_call(sources, work),
            output: inside(work, "all_interfaces.raw"@),
            context: "Could not expand SELinux reference-policy interfaces"@,
        },
        Stage::Wrap {
            input: inside(work, "all_interfaces.raw"@),
            output: inside(work, "all_interfaces.conf"@),
        },
        Stage::Expand {
            command: module_call(sources, settings, work, module),
            output: inside(work, module + ".expanded"@),
            context: "Could not expand the SELinux type-enforcement module"@,
        },
        Stage::Run {
            command: compiler_call(settings, work, module),
            context: "Could not compile the SELinux type-enforcement module"@,
        },
        Stage::Run {
            command: package_call(work, module),
            context: "Could not package the SELinux type-enforcement module"@,
        },
    ]
}

fn append_copies(list: &mut Vec<String>, more: &Vec<String>)
    ensures
        strings(final(list)@) == strings(old(list)@) + strings(more@),
{
    let ghost before = list@;
    let mut index: usize = 0;
    assert(strings(more@).take(0) =~= Seq::<Seq<char>>::empty());
    assert(strings(list@) =~= strings(before) + strings(more@).take(0));
    while index < more.len()
        invariant
            index <= more@.len(),
            strings(list@) == strings(before) + strings(more@).take(index as int),
        decreases more.len() - index,
    {
        let ghost earlier = list@;
        let item = more[index].clone();
        list.push(item);
        assert(strings(list@) =~= strings(earlier).push(item@));
        assert(strings(more@)[index as int] == more@[index as int]@);
        assert(strings(list@) =~= strings(before) + strings(more@).take(index + 1));
        index += 1;
    }
    assert(strings(more@).take(more@.len() as int) =~= strings(more@));
}

fn push_text(list: &mut Vec<String>, text: String)
    ensures
        strings(final(list)@) == strings(old(list)@).push(text@),
{
    let ghost before = list@;
    list.push(text);
    assert(strings(list@) =~= strings(before).push(text@));
}

fn interface_command(sources: &PolicySources, work: &str) -> (result: Invocation)
    ensures
        result@ == interface_call(sources@, work@),
{
    let mut arguments: Vec<String> = Vec::new();
    append_copies(&mut arguments, &sources.support);
    append_copies(&mut arguments, &sources.interfaces);
    push_text(&mut arguments, join(work, "iferror.m4"));
    assert(strings(arguments@) =~= interface_call(sources@, work@).arguments);
    Invocation { program: "m4".to_owned(), arguments }
}

fn module_command(
    sources: &PolicySources,
    config: &PolicyBuildConfig,
    work: &str,
    module: &str,
) -> (result: Invocation)
    ensures
        result@ == module_call(sources@, config@, work@, module@),
{
    let name = text2(module, ".te");
    let mut arguments = config.m4_arguments();
    push_text(&mut arguments, "-s".to_owned());
    append_copies(&mut arguments, &sources.support);
    push_text(&mut arguments, join(work, "all_interfaces.conf"));
    push_text(&mut arguments, join(work, name.as_str()));
    assert(strings(arguments@) =~= module_call(sources@, config@, work@, module@).arguments);
    Invocation { program: "m4".to_owned(), arguments }
}

fn compiler_command(config: &PolicyBuildConfig, work: &str, module: &str) -> (result: Invocation)
    ensures
        result@ == compiler_call(config@, work@, module@),
{
    let expanded = text2(module, ".expanded");
    let compiled = text2(module, ".mod");
    let mut arguments: Vec<String> = Vec::new();
    push_text(&mut arguments, "-m".to_owned());
    if config.uses_mls_symbols() {
        push_text(&mut arguments, "-M".to_owned());
    }
    push_text(&mut arguments, join(work, expanded.as_str()));
    push_text(&mut arguments, "-o".to_owned());
    push_text(&mut arguments, join(work, compiled.as_str()));
    assert(strings(arguments@) =~= compiler_call(config@, work@, module@).arguments);
    Invocation { program: "checkmodule".to_owned(), arguments }
}

fn package_command(work: &str, module: &str) -> (result: Invocation)
    ensures
        result@ == package_call(work@, module@),
{
    let package = text2(module, ".pp");
    let compiled = text2(module, ".mod");
    let mut arguments: Vec<String> = Vec::new();
    push_text(&mut arguments, "-o".to_owned());
    push_text(&mut arguments, join(work, package.as_str()));
    push_text(&mut arguments, "-m".to_owned());
    push_text(&mut arguments, join(work, compiled.as_str()));
    assert(strings(arguments@) =~= package_call(work@, module@).arguments);
    Invocation { program: "semodule_package".to_owned(), arguments }
}

/// The stages that turn the written base module into a package.
pub fn compile_type_enforcement(
    sources: &PolicySources,
    config: &PolicyBuildConfig,
    work: &str,
    module: &str,
) -> (result: Vec<BuildStep>)
    ensures
        stages(result@) == compilation(sources@, config@, work@, module@),
{
    let expanded = text2(module, ".expanded");
    let mut result: Vec<BuildStep> = Vec::new();
    result.push(
        BuildStep::Write {
            path: join(work, "iferror.m4"),
            contents: "ifdef(`__if_error',`m4exit(1)')\n".to_owned(),
        },
    );
    result.push(
        BuildStep::Expand {
            command: interface_command(sources, work),
            output: join(work, "all_interfaces.raw"),
            context: "Could not expand SELinux reference-policy interfaces".to_owned(),
        },
    );
    result.push(
        BuildStep::Wrap {
            input: join(work, "all_interfaces.raw"),
            output: join(work, "all_interfaces.conf"),
        },
    );
    result.push(
        BuildStep::Expand {
            command: module_command(sources, config, work, module),
            output: join(work, expanded.as_str()),
            context: "Could not expand the SELinux type-enforcement module".to_owned(),
        },
    );
    result.push(
        BuildStep::Run {
            command: compiler_command(config, work, module),
            context: "Could not compile the SELinux type-enforcement module".to_owned(),
        },
    );
    result.push(
        BuildStep::Run {
            command: package_command(work, module),
            context: "Could not package the SELinux type-enforcement module".to_owned(),
        },
    );
    assert(stages(result@) =~= compilation(sources@, config@, work@, module@));
    result
}

/// Whether a stage runs nothing but the policy compilers.
pub open spec fn runs_only_compilers(stage: Stage) -> bool {
    match stage {
        Stage::Expand { command, output, context } => command.program == "m4"@,
        Stage::Run { command, context } => command.program == "checkmodule"@ || command.program
            == "semodule_package"@,
        _ => true,
    }
}

/// A build runs nothing but the macro processor and the policy compilers, whatever the profile, the
/// sources and the settings are.
pub proof fn builds_run_only_compilers(
    sources: Sources,
    settings: Settings,
    work: Seq<char>,
    module: Seq<char>,
    index: int,
)
    requires
        0 <= index < compilation(sources, settings, work, module).len(),
    ensures
        runs_only_compilers(compilation(sources, settings, work, module)[index]),
{
}

/// What an output file of a stage comes to, given its size or why there is none.
pub open spec fn expanded_size(size: Result<u64, Seq<char>>, context: Seq<char>) -> Result<
    (),
    Seq<char>,
> {
    match size {
        Err(message) => Err(in_context(message, context)),
        Ok(length) => if length > MAX_GENERATED_POLICY_SIZE {
            Err(
                in_context(
                    "Generated SELinux policy exceeds the 64 MiB safety limit"@,
                    context,
                ),
            )
        } else {
            Ok(())
        },
    }
}

/// Decides over the output file of a stage.
pub fn check_expansion(size: Result<u64, Error>, context: &str) -> (result: Result<(), Error>)
    ensures
        outcome(result) == expanded_size(outcome(size), context@),
{
    match size {
        Err(error) => Err(error.context(context)),
        Ok(length) => if length > MAX_GENERATED_POLICY_SIZE {
            let error = Error::new("Generated SELinux policy exceeds the 64 MiB safety limit");
            Err(error.context(context))
        } else {
            Ok(())
        },
    }
}

/// The text of a file that defines interfaces and prints nothing.
pub open spec fn interface_text(expanded: Seq<char>) -> Seq<char> {
    "divert(-1)\n"@ + replaced(expanded, "dollarsstar"@, "$*"@) + "\ndivert\n"@
}

/// The file that defines interfaces, made of their expansion, or why there is none.
pub open spec fn interface_file(bytes: Seq<u8>) -> Result<Seq<char>, Seq<char>> {
    if bytes.len() > MAX_GENERATED_POLICY_SIZE {
        Err("Generated SELinux policy exceeds the 64 MiB safety limit"@)
    } else if !valid_utf8(bytes) {
        Err(
            in_context(
                utf8_complaint(bytes),
                "SELinux reference-policy interfaces are not valid UTF-8"@,
            ),
        )
    } else {
        Ok(interface_text(decode_utf8(bytes)))
    }
}

/// Makes the text of a file that defines interfaces and prints nothing.
pub fn define_interfaces(expanded: &str) -> (result: String)
    ensures
        result@ == interface_text(expanded@),
{
    let chars = characters(expanded);
    let mark = characters("dollarsstar");
    let sign = characters("$*");
    proof {
        reveal_strlit("dollarsstar");
    }
    let text = to_text(replace(chars.as_slice(), mark.as_slice(), sign.as_slice()).as_slice());
    text3("divert(-1)\n", text.as_str(), "\ndivert\n")
}

/// Makes the file that defines interfaces of their expansion.
pub fn wrap_interfaces(bytes: &Vec<u8>) -> (result: Result<String, Error>)
    ensures
        viewed(result) == interface_file(bytes@),
{
    if bytes.len() as u64 > MAX_GENERATED_POLICY_SIZE {
        return Err(Error::new("Generated SELinux policy exceeds the 64 MiB safety limit"));
    }
    match decoded(bytes.as_slice()) {
        Ok(text) => Ok(define_interfaces(text.as_str())),
        Err(complaint) => {
            let error = Error { message: complaint };
            Err(error.context("SELinux reference-policy interfaces are not valid UTF-8"))
        },
    }
}

} // verus!
