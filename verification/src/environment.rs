//! What the system has to offer before anything is changed.

use crate::bytes::{lossy, lossy_text};
use crate::command::{checked, successful, Call, Invocation, Output};
use crate::error::{in_context, outcome, Error};
use crate::search::{first_of, lemma_first_of};
use crate::text::{
    characters, decimal, decimal_text, find_char, is_digit, lemma_position, parse_number,
    parsed_number, position, reads, slices, strings, text3, text4, trim, trimmed, words, words_of,
};
use vstd::prelude::*;
use vstd::slice::slice_subrange;

verus! {

/// Refuses to go on without root privileges.
pub fn require_root(effective_user: u32) -> (result: Result<(), Error>)
    ensures
        outcome(result) == if effective_user == 0 {
            Ok::<(), Seq<char>>(())
        } else {
            Err("Microvisor must run as root"@)
        },
{
    if effective_user != 0 {
        return Err(Error::new("Microvisor must run as root"));
    }
    Ok(())
}

/// What an operation is about to do.
#[derive(Clone, Copy, Debug)]
pub enum Purpose {
    /// Install policy.
    Apply,
    /// Look at what is installed.
    Inspect,
    /// Take policy out again.
    Recover,
}

/// One thing that the system has to offer.
#[derive(Clone, Copy, Debug, PartialEq, Eq)]
pub enum Requirement {
    Command(&'static str),
    PolicySources,
    UserspaceVersion,
    Enforcement,
    StateDirectory,
}

/// One thing that the system has to offer, as a value.
pub enum Need {
    Command(Seq<char>),
    PolicySources,
    UserspaceVersion,
    Enforcement,
    StateDirectory,
}

impl View for Requirement {
    type V = Need;

    open spec fn view(&self) -> Need {
        match self {
            Requirement::Command(name) => Need::Command(name@),
            Requirement::PolicySources => Need::PolicySources,
            Requirement::UserspaceVersion => Need::UserspaceVersion,
            Requirement::Enforcement => Need::Enforcement,
            Requirement::StateDirectory => Need::StateDirectory,
        }
    }
}

pub open spec fn needs(list: Seq<Requirement>) -> Seq<Need> {
    list.map_values(|item: Requirement| item@)
}

/// What has to be there for a purpose, in the order in which it is looked at.
pub open spec fn required(purpose: Purpose) -> Seq<Need> {
    match purpose {
        Purpose::Apply => seq![
            Need::Command("checkmodule"@),
            Need::Command("getenforce"@),
            Need::Command("m4"@),
            Need::Command("restorecon"@),
            Need::Command("rpm"@),
            Need::Command("semanage"@),
            Need::Command("semodule"@),
            Need::Command("semodule_package"@),
            Need::PolicySources,
            Need::UserspaceVersion,
            Need::Enforcement,
            Need::StateDirectory,
        ],
        Purpose::Inspect => seq![Need::Command("semanage"@), Need::Command("semodule"@)],
        Purpose::Recover => seq![
            Need::Command("getenforce"@),
            Need::Command("restorecon"@),
            Need::Command("semanage"@),
            Need::Command("semodule"@),
            Need::Enforcement,
            Need::StateDirectory,
        ],
    }
}

/// What has to be there for a purpose, in the order in which it is looked at.
pub fn requirements(purpose: Purpose) -> (result: Vec<Requirement>)
    ensures
        needs(result@) == required(purpose),
{
    let result = match purpose {
        Purpose::Apply => vec![
            Requirement::Command("checkmodule"),
            Requirement::Command("getenforce"),
            Requirement::Command("m4"),
            Requirement::Command("restorecon"),
            Requirement::Command("rpm"),
            Requirement::Command("semanage"),
            Requirement::Command("semodule"),
            Requirement::Command("semodule_package"),
            Requirement::PolicySources,
            Requirement::UserspaceVersion,
            Requirement::Enforcement,
            Requirement::StateDirectory,
        ],
        Purpose::Inspect => vec![
            Requirement::Command("semanage"),
            Requirement::Command("semodule"),
        ],
        Purpose::Recover => vec![
            Requirement::Command("getenforce"),
            Requirement::Command("restorecon"),
            Requirement::Command("semanage"),
            Requirement::Command("semodule"),
            Requirement::Enforcement,
            Requirement::StateDirectory,
        ],
    };
    assert(needs(result@) =~= required(purpose));
    result
}

/// What is said where a command is missing.
pub open spec fn missing_command(purpose: Purpose, name: Seq<char>) -> Seq<char> {
    if purpose is Recover {
        "Required recovery command '"@ + name + "' is not installed"@
    } else {
        "Required command '"@ + name + "' is not installed"@
    }
}

/// Decides over the search for a command.
pub fn require_command(purpose: Purpose, name: &str, found: Result<String, Error>) -> (result: Result<
    (),
    Error,
>)
    ensures
        outcome(result) == match found {
            Ok(_) => Ok::<(), Seq<char>>(()),
            Err(error) => Err(in_context(error@, missing_command(purpose, name@))),
        },
{
    match found {
        Ok(_) => Ok(()),
        Err(error) => {
            let context = match purpose {
                Purpose::Recover => text3(
                    "Required recovery command '",
                    name,
                    "' is not installed",
                ),
                _ => text3("Required command '", name, "' is not installed"),
            };
            Err(error.context(context.as_str()))
        },
    }
}

/// The characters of a version number.
pub open spec fn is_version_character(character: char) -> bool {
    is_digit(character) || character == '.'
}

/// The text from the first character of a version on.
pub open spec fn from_version(text: Seq<char>) -> Seq<char>
    decreases text.len(),
{
    if text.len() > 0 && !is_version_character(text[0]) {
        from_version(text.skip(1))
    } else {
        text
    }
}

/// The text up to the last character of a version.
pub open spec fn to_version(text: Seq<char>) -> Seq<char>
    decreases text.len(),
{
    if text.len() > 0 && !is_version_character(text.last()) {
        to_version(text.drop_last())
    } else {
        text
    }
}

/// The first two numbers of a version, whatever stands around it.
pub open spec fn parsed_version(token: Seq<char>) -> Option<(u32, u32)> {
    let cleaned = to_version(from_version(token));
    let dot = position(cleaned, '.');
    if dot < cleaned.len() {
        let rest = cleaned.skip((dot + 1) as int);
        match (
            parsed_number(cleaned.take(dot as int)),
            parsed_number(rest.take(position(rest, '.') as int)),
        ) {
            (Some(major), Some(minor)) => Some((major, minor)),
            _ => None,
        }
    } else {
        None
    }
}

fn version_character(character: char) -> (result: bool)
    ensures
        result == is_version_character(character),
{
    let code: u32 = character as u32;
    (48 <= code && code <= 57) || character == '.'
}

fn clean_version(token: &[char]) -> (result: &[char])
    ensures
        result@ == to_version(from_version(token@)),
{
    let mut start: usize = 0;
    assert(token@.skip(0) == token@);
    while start < token.len() && !version_character(token[start])
        invariant
            start <= token@.len(),
            from_version(token@) == from_version(token@.skip(start as int)),
        decreases token.len() - start,
    {
        assert(token@.skip(start as int).skip(1) == token@.skip(start + 1));
        start += 1;
    }
    let mut end: usize = token.len();
    assert(token@.subrange(start as int, end as int) == token@.skip(start as int));
    while end > start && !version_character(token[end - 1])
        invariant
            start <= end <= token@.len(),
            to_version(from_version(token@)) == to_version(
                token@.subrange(start as int, end as int),
            ),
        decreases end,
    {
        assert(token@.subrange(start as int, end as int).drop_last() == token@.subrange(
            start as int,
            end - 1,
        ));
        end -= 1;
    }
    slice_subrange(token, start, end)
}

/// The first two numbers of a version, whatever stands around it.
fn version_of(token: &[char]) -> (result: Option<(u32, u32)>)
    ensures
        result == parsed_version(token@),
{
    let cleaned = clean_version(token);
    proof {
        assert(cleaned@.skip(0) == cleaned@);
        lemma_position(cleaned@, '.');
    }
    let dot = find_char(cleaned, 0, '.');
    if dot == cleaned.len() {
        return None;
    }
    let rest = slice_subrange(cleaned, dot + 1, cleaned.len());
    assert(rest@ == cleaned@.skip(dot + 1));
    assert(rest@.skip(0) == rest@);
    let end = find_char(rest, 0, '.');
    let major = parse_number(slice_subrange(cleaned, 0, dot));
    let minor = parse_number(slice_subrange(rest, 0, end));
    match (major, minor) {
        (Some(major), Some(minor)) => Some((major, minor)),
        _ => None,
    }
}

/// Reads the first two numbers of a version.
pub fn parse_major_minor(token: &str) -> (result: Option<(u32, u32)>)
    ensures
        result == parsed_version(token@),
{
    let chars = characters(token);
    version_of(chars.as_slice())
}

/// The command that prints the version of the SELinux userspace: that of the library that reads
/// deny rules.
pub open spec fn version_call() -> Call {
    Call { program: "rpm"@, arguments: seq!["-q"@, "--qf"@, "%{VERSION}\n"@, "libsepol"@] }
}

/// The command that prints the version of the SELinux userspace.
pub fn version_query() -> (result: Invocation)
    ensures
        result@ == version_call(),
{
    let arguments = vec![
        "-q".to_owned(),
        "--qf".to_owned(),
        "%{VERSION}\n".to_owned(),
        "libsepol".to_owned(),
    ];
    assert(strings(arguments@) =~= version_call().arguments);
    Invocation { program: "rpm".to_owned(), arguments }
}

/// The command that prints the enforcement state.
pub fn enforcement_query() -> (result: Invocation)
    ensures
        result@ == (Call { program: "getenforce"@, arguments: Seq::empty() }),
{
    let arguments: Vec<String> = Vec::new();
    assert(strings(arguments@) =~= Seq::empty());
    Invocation { program: "getenforce".to_owned(), arguments }
}

/// The first version among words.
pub open spec fn version_at(words: Seq<Seq<char>>) -> spec_fn(int) -> Option<(u32, u32)> {
    |index: int| parsed_version(words[index])
}

/// The first version that a text states.
pub open spec fn stated_version(text: Seq<char>) -> Option<(u32, u32)> {
    first_of(words_of(text).len(), version_at(words_of(text)))
}

/// What the version of the SELinux userspace comes to. It is new enough from 3.6 on.
pub open spec fn judged_version(version: Option<(u32, u32)>) -> Result<(u32, u32), Seq<char>> {
    match version {
        None => Err("Could not determine the SELinux userspace version"@),
        Some((major, minor)) => if major < 3 || (major == 3 && minor < 6) {
            Err(
                "SELinux userspace "@ + decimal(major as nat) + "."@ + decimal(minor as nat)
                    + " is too old; Microvisor requires 3.6 or newer"@,
            )
        } else {
            Ok((major, minor))
        },
    }
}

/// What a query for the version of the SELinux userspace comes to.
pub open spec fn userspace_version(ran: Result<Output, Seq<char>>) -> Result<
    (u32, u32),
    Seq<char>,
> {
    match successful(ran) {
        Err(message) => Err(message),
        Ok(output) => judged_version(
            stated_version(lossy(output.stdout@) + " "@ + lossy(output.stderr@)),
        ),
    }
}

fn find_version(text: &str) -> (result: Option<(u32, u32)>)
    ensures
        result == stated_version(text@),
{
    let chars = characters(text);
    let list = words(chars.as_slice());
    let ghost all = words_of(text@);
    let ghost probe = version_at(all);
    let mut index: usize = 0;
    while index < list.len()
        invariant
            index <= list@.len(),
            slices(list@) == all,
            all == words_of(text@),
            probe == version_at(all),
            first_of(index as nat, probe) is None,
        decreases list.len() - index,
    {
        assert(slices(list@)[index as int] == list@[index as int]@);
        let found = version_of(list[index]);
        if found.is_some() {
            proof {
                assert(probe(index as int) == found);
                lemma_first_of((index + 1) as nat, all.len(), probe);
            }
            return found;
        }
        assert(probe(index as int) is None);
        index += 1;
    }
    None
}

/// Decides over a version of the SELinux userspace.
pub fn judge_version(version: Option<(u32, u32)>) -> (result: Result<(u32, u32), Error>)
    ensures
        outcome(result) == judged_version(version),
{
    match version {
        None => Err(Error::new("Could not determine the SELinux userspace version")),
        Some((major, minor)) => if major < 3 || (major == 3 && minor < 6) {
            let first = decimal_text(major as u64);
            let second = decimal_text(minor as u64);
            let mut message = text4("SELinux userspace ", first.as_str(), ".", second.as_str());
            message.append(" is too old; Microvisor requires 3.6 or newer");
            Err(Error { message })
        } else {
            Ok((major, minor))
        },
    }
}

/// Decides over a query for the version of the SELinux userspace.
pub fn ensure_selinux_userspace_version(ran: Result<Output, Error>) -> (result: Result<
    (u32, u32),
    Error,
>)
    ensures
        outcome(result) == userspace_version(outcome(ran)),
{
    match checked(ran) {
        Err(error) => Err(error),
        Ok(output) => {
            let first = lossy_text(output.stdout.as_slice());
            let second = lossy_text(output.stderr.as_slice());
            let text = text3(first.as_str(), " ", second.as_str());
            judge_version(find_version(text.as_str()))
        },
    }
}

/// What the enforcement state comes to.
pub open spec fn enforcement_fault(state: Seq<char>) -> Option<Seq<char>> {
    if trimmed(state) == "Disabled"@ {
        Some("SELinux is disabled"@)
    } else {
        None
    }
}

/// What a query for the enforcement state comes to.
pub open spec fn enforcement(ran: Result<Output, Seq<char>>) -> Result<(), Seq<char>> {
    match successful(ran) {
        Err(message) => Err(message),
        Ok(output) => crate::policy::verdict(enforcement_fault(lossy(output.stdout@))),
    }
}

/// Refuses a system on which SELinux is disabled.
pub fn check_enforcement(state: &str) -> (result: Result<(), Error>)
    ensures
        outcome(result) == crate::policy::verdict(enforcement_fault(state@)),
{
    let chars = characters(state);
    if reads(trim(chars.as_slice()), "Disabled") {
        return Err(Error::new("SELinux is disabled"));
    }
    Ok(())
}

/// Decides over a query for the enforcement state.
pub fn ensure_enforcement(ran: Result<Output, Error>) -> (result: Result<(), Error>)
    ensures
        outcome(result) == enforcement(outcome(ran)),
{
    match checked(ran) {
        Err(error) => Err(error),
        Ok(output) => {
            let state = lossy_text(output.stdout.as_slice());
            check_enforcement(state.as_str())
        },
    }
}

} // verus!
