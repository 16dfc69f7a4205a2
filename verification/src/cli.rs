//! The command line: what is asked for, and what is printed.

use crate::config::DEFAULT_CONFIG_FILE;
use crate::engine::overlap::{find_profile, with_id};
use crate::engine::reconcile::{ProfileStatus, StatusRow};
use crate::environment::require_root;
use crate::error::{viewed, Error};
use crate::id::{id_complaint, invalid_id, parse_id, parsed_id, shown, shown_text};
use crate::model::{profiles, Profile, ProtectionProfile};
use crate::policy::{preview, render_preview, rendered};
use crate::text::{decimal, decimal_text, optional, same_text, strings, text2, text3, text5};
use vstd::prelude::*;

verus! {

/// The exit status of a command that failed.
pub const EXIT_ERROR: i32 = 1;

/// The exit status that says that the system is not as it is asked for.
pub const EXIT_DRIFT: i32 = 2;

/// What is asked for.
#[derive(Debug)]
pub enum Command {
    Help,
    Version,
    Generate(Option<String>),
    Validate,
    Render(u128),
    Apply,
    Status,
    Supervise,
    Remove(u128),
}

/// What is asked for, as a value.
pub enum Order {
    Help,
    Version,
    Generate(Option<Seq<char>>),
    Validate,
    Render(u128),
    Apply,
    Status,
    Supervise,
    Remove(u128),
}

impl View for Command {
    type V = Order;

    open spec fn view(&self) -> Order {
        match self {
            Command::Help => Order::Help,
            Command::Version => Order::Version,
            Command::Generate(path) => Order::Generate(optional(*path)),
            Command::Validate => Order::Validate,
            Command::Render(id) => Order::Render(*id),
            Command::Apply => Order::Apply,
            Command::Status => Order::Status,
            Command::Supervise => Order::Supervise,
            Command::Remove(id) => Order::Remove(*id),
        }
    }
}

pub open spec fn is_help(word: Seq<char>) -> bool {
    word == "help"@ || word == "--help"@ || word == "-h"@
}

pub open spec fn is_version(word: Seq<char>) -> bool {
    word == "version"@ || word == "--version"@ || word == "-V"@
}

/// What a command that anyone may give asks for, where the arguments are one.
pub open spec fn open_order(arguments: Seq<Seq<char>>) -> Option<Result<Order, Seq<char>>> {
    if arguments.len() == 0 {
        Some(Ok(Order::Help))
    } else if arguments.len() == 1 && is_help(arguments[0]) {
        Some(Ok(Order::Help))
    } else if arguments.len() == 1 && is_version(arguments[0]) {
        Some(Ok(Order::Version))
    } else if arguments[0] == "generate"@ {
        if arguments.len() == 1 {
            Some(Ok(Order::Generate(None)))
        } else if arguments.len() == 2 {
            Some(Ok(Order::Generate(Some(arguments[1]))))
        } else {
            Some(Err("Usage: microvisor generate [output.yml]"@))
        }
    } else {
        None
    }
}

/// The identifier that an argument states, or why it states none.
pub open spec fn stated_id(text: Seq<char>) -> Result<u128, Seq<char>> {
    match parsed_id(text) {
        Some(id) => Ok(id),
        None => Err(invalid_id(text, id_complaint(text))),
    }
}

/// What a command that only root may give asks for, or why it is none.
pub open spec fn root_order(arguments: Seq<Seq<char>>) -> Result<Order, Seq<char>> {
    if arguments.len() == 1 && arguments[0] == "validate"@ {
        Ok(Order::Validate)
    } else if arguments.len() == 2 && arguments[0] == "render"@ {
        match stated_id(arguments[1]) {
            Ok(id) => Ok(Order::Render(id)),
            Err(message) => Err(message),
        }
    } else if arguments.len() == 1 && arguments[0] == "apply"@ {
        Ok(Order::Apply)
    } else if arguments.len() == 1 && arguments[0] == "status"@ {
        Ok(Order::Status)
    } else if arguments.len() == 1 && arguments[0] == "supervise"@ {
        Ok(Order::Supervise)
    } else if arguments.len() == 2 && arguments[0] == "remove"@ {
        match stated_id(arguments[1]) {
            Ok(id) => Ok(Order::Remove(id)),
            Err(message) => Err(message),
        }
    } else {
        Err("Invalid command. Run 'microvisor help' for usage"@)
    }
}

/// What a user asks for, or why it is refused. Nothing but help, the version and a template is to
/// be had without root privileges.
pub open spec fn ordered(arguments: Seq<Seq<char>>, effective_user: u32) -> Result<
    Order,
    Seq<char>,
> {
    match open_order(arguments) {
        Some(result) => result,
        None => if effective_user != 0 {
            Err("Microvisor must run as root"@)
        } else {
            root_order(arguments)
        },
    }
}

fn is(word: &String, expected: &str) -> (result: bool)
    ensures
        result == (word@ == expected@),
{
    same_text(word.as_str(), expected)
}

fn parse_open(arguments: &Vec<String>) -> (result: Option<Result<Command, Error>>)
    ensures
        match result {
            Some(order) => open_order(strings(arguments@)) == Some(viewed(order)),
            None => open_order(strings(arguments@)) is None,
        },
{
    let ghost all = strings(arguments@);
    if arguments.len() == 0 {
        return Some(Ok(Command::Help));
    }
    assert(all[0] == arguments@[0]@);
    let first = &arguments[0];
    if arguments.len() == 1 && (is(first, "help") || is(first, "--help") || is(first, "-h")) {
        return Some(Ok(Command::Help));
    }
    if arguments.len() == 1 && (is(first, "version") || is(first, "--version") || is(first, "-V")) {
        return Some(Ok(Command::Version));
    }
    if is(first, "generate") {
        if arguments.len() == 1 {
            return Some(Ok(Command::Generate(None)));
        }
        if arguments.len() == 2 {
            assert(all[1] == arguments@[1]@);
            return Some(Ok(Command::Generate(Some(arguments[1].clone()))));
        }
        return Some(Err(Error::new("Usage: microvisor generate [output.yml]")));
    }
    None
}

fn parse_root(arguments: &Vec<String>) -> (result: Result<Command, Error>)
    requires
        arguments@.len() > 0,
    ensures
        viewed(result) == root_order(strings(arguments@)),
{
    let ghost all = strings(arguments@);
    assert(all[0] == arguments@[0]@);
    let first = &arguments[0];
    if arguments.len() == 1 {
        if is(first, "validate") {
            return Ok(Command::Validate);
        }
        if is(first, "apply") {
            return Ok(Command::Apply);
        }
        if is(first, "status") {
            return Ok(Command::Status);
        }
        if is(first, "supervise") {
            return Ok(Command::Supervise);
        }
    }
    if arguments.len() == 2 {
        assert(all[1] == arguments@[1]@);
        if is(first, "render") {
            return match parse_id(arguments[1].as_str()) {
                Ok(id) => Ok(Command::Render(id)),
                Err(error) => Err(error),
            };
        }
        if is(first, "remove") {
            return match parse_id(arguments[1].as_str()) {
                Ok(id) => Ok(Command::Remove(id)),
                Err(error) => Err(error),
            };
        }
    }
    Err(Error::new("Invalid command. Run 'microvisor help' for usage"))
}

/// What a user asks for.
pub fn parse_command(arguments: &Vec<String>, effective_user: u32) -> (result: Result<
    Command,
    Error,
>)
    ensures
        viewed(result) == ordered(strings(arguments@), effective_user),
{
    assert(strings(arguments@).len() == arguments@.len());
    if let Some(result) = parse_open(arguments) {
        return result;
    }
    if let Err(error) = require_root(effective_user) {
        return Err(error);
    }
    parse_root(arguments)
}

/// Without root privileges nothing is done but to show help or the version, or to make a template.
pub proof fn other_commands_need_root(arguments: Seq<Seq<char>>, effective_user: u32)
    requires
        effective_user != 0,
        ordered(arguments, effective_user) is Ok,
    ensures
        ({
            let order = ordered(arguments, effective_user)->Ok_0;
            order is Help || order is Version || order is Generate
        }),
{
}

/// Help, the version and a template are to be had by every user alike.
pub proof fn open_commands_need_no_root(arguments: Seq<Seq<char>>, left: u32, right: u32)
    requires
        ordered(arguments, left) matches Ok(order) && (order is Help || order is Version
            || order is Generate),
    ensures
        ordered(arguments, right) == ordered(arguments, left),
{
}

/// What is printed for help.
pub open spec fn help(version: Seq<char>) -> Seq<char> {
    "Microvisor "@ + version + "\nHeadless SELinux protection profile manager\n\n"@
        + "Usage:\nmicrovisor validate\nmicrovisor render <profile-id>\nmicrovisor apply\n"@
        + "microvisor status\nmicrovisor supervise\nmicrovisor remove <profile-id>\n"@
        + "microvisor generate [output.yml]\nmicrovisor help\nmicrovisor version\n\n"@
        + "Configuration: "@ + DEFAULT_CONFIG_FILE@
        + "\nGenerate, help, and version do not require root. All other commands do."@
}

/// What is printed for help.
pub fn help_text(version: &str) -> (result: String)
    ensures
        result@ == help(version@),
{
    let mut text = text3(
        "Microvisor ",
        version,
        "\nHeadless SELinux protection profile manager\n\n",
    );
    text.append("Usage:\nmicrovisor validate\nmicrovisor render <profile-id>\nmicrovisor apply\n");
    text.append("microvisor status\nmicrovisor supervise\nmicrovisor remove <profile-id>\n");
    text.append("microvisor generate [output.yml]\nmicrovisor help\nmicrovisor version\n\n");
    text.append("Configuration: ");
    text.append(DEFAULT_CONFIG_FILE);
    text.append("\nGenerate, help, and version do not require root. All other commands do.");
    text
}

/// What is printed for the version.
pub fn version_text(version: &str) -> (result: String)
    ensures
        result@ == "microvisor "@ + version@,
{
    text2("microvisor ", version)
}

/// What is printed for a validated configuration.
pub fn validated_text(count: usize) -> (result: String)
    ensures
        result@ == "Validated "@ + decimal(count as nat) + " profile(s)."@,
{
    let number = decimal_text(count as u64);
    text3("Validated ", number.as_str(), " profile(s).")
}

/// What is printed for applied profiles.
pub fn applied_text(count: usize) -> (result: String)
    ensures
        result@ == "Applied "@ + decimal(count as nat) + " changed profile(s)."@,
{
    let number = decimal_text(count as u64);
    text3("Applied ", number.as_str(), " changed profile(s).")
}

/// What is printed for a removal, given whether there was anything to remove.
pub open spec fn removal_report(id: u128, removed: bool) -> Seq<char> {
    if removed {
        "Removed profile "@ + shown(id) + "."@
    } else {
        "Profile "@ + shown(id) + " is not applied."@
    }
}

/// What is printed for a removal, given whether there was anything to remove.
pub fn removal_text(id: u128, removed: bool) -> (result: String)
    ensures
        result@ == removal_report(id, removed),
{
    let name = shown_text(id);
    if removed {
        text3("Removed profile ", name.as_str(), ".")
    } else {
        text3("Profile ", name.as_str(), " is not applied.")
    }
}

/// What is printed for a template that was written.
pub fn generated_text(path: &str, id: u128) -> (result: String)
    ensures
        result@ == "Generated "@ + path@ + " with profile ID "@ + shown(id) + "."@,
{
    let name = shown_text(id);
    text5("Generated ", path, " with profile ID ", name.as_str(), ".")
}

/// The line that is printed for how a profile stands.
pub open spec fn status_line(row: StatusRow) -> Seq<char> {
    shown(row.id) + "\t"@ + row.state + "\t"@ + row.name
}

/// The lines that are printed for how profiles stand.
pub open spec fn status_lines(list: Seq<StatusRow>) -> Seq<Seq<char>> {
    if list.len() == 0 {
        seq!["No configured or applied profiles."@]
    } else {
        list.map_values(|row: StatusRow| status_line(row))
    }
}

/// The lines that are printed for how profiles stand.
pub fn status_text(list: &Vec<ProfileStatus>) -> (result: Vec<String>)
    ensures
        strings(result@) == status_lines(crate::engine::reconcile::rows(list@)),
{
    let ghost all = crate::engine::reconcile::rows(list@);
    let mut result: Vec<String> = Vec::new();
    if list.len() == 0 {
        result.push("No configured or applied profiles.".to_owned());
        assert(strings(result@) =~= status_lines(all));
        return result;
    }
    let mut index: usize = 0;
    while index < list.len()
        invariant
            index <= list@.len(),
            all == crate::engine::reconcile::rows(list@),
            result@.len() == index,
            forall|i: int| 0 <= i < index ==> (#[trigger] result@[i])@ == status_line(all[i]),
        decreases list.len() - index,
    {
        assert(all[index as int] == list@[index as int]@);
        let row = &list[index];
        let name = shown_text(row.id);
        result.push(text5(name.as_str(), "\t", row.state, "\t", row.name.as_str()));
        index += 1;
    }
    assert(strings(result@) =~= status_lines(all));
    result
}

/// The exit status of a report.
pub fn status_code(converged: bool) -> (result: i32)
    ensures
        result == if converged {
            0i32
        } else {
            EXIT_DRIFT
        },
{
    if converged {
        0
    } else {
        EXIT_DRIFT
    }
}

/// The preview of the profile with an identifier, or why there is none.
pub open spec fn selected_preview(list: Seq<Profile>, id: u128) -> Result<Seq<char>, Seq<char>> {
    match with_id(list, id) {
        None => Err("No configured profile exists for "@ + shown(id)),
        Some(profile) => rendered(profile, preview(profile)),
    }
}

/// Renders the profile with an identifier.
pub fn render_selected(list: &Vec<ProtectionProfile>, id: u128) -> (result: Result<String, Error>)
    ensures
        viewed(result) == selected_preview(profiles(list@), id),
{
    match find_profile(list, id) {
        None => {
            let name = shown_text(id);
            Err(Error { message: text2("No configured profile exists for ", name.as_str()) })
        },
        Some(profile) => render_preview(profile),
    }
}

} // verus!
