//! What the system reports: installed modules and local file-context rules.

use crate::bytes::{lossy, lossy_text};
use crate::command::{checked, successful, Call, Invocation, Output};
use crate::error::{outcome, Error};
use crate::text::{
    begins, characters, is_space, is_whitespace, lines, lines_of, same, slices, starts_with,
    strings, text3, trim_start, trimmed_start, words, words_of,
};
use vstd::prelude::*;

verus! {

/// The command that lists the installed modules.
pub open spec fn module_listing() -> Call {
    Call { program: "semodule"@, arguments: seq!["-l"@] }
}

/// The command that lists the local file-context rules.
pub open spec fn rule_listing() -> Call {
    Call { program: "semanage"@, arguments: seq!["fcontext"@, "-l"@, "-C"@] }
}

/// The command that lists the installed modules.
pub fn list_modules() -> (result: Invocation)
    ensures
        result@ == module_listing(),
{
    let arguments = vec!["-l".to_owned()];
    assert(strings(arguments@) =~= seq!["-l"@]);
    Invocation { program: "semodule".to_owned(), arguments }
}

/// The command that lists the local file-context rules.
pub fn list_rules() -> (result: Invocation)
    ensures
        result@ == rule_listing(),
{
    let arguments = vec!["fcontext".to_owned(), "-l".to_owned(), "-C".to_owned()];
    assert(strings(arguments@) =~= seq!["fcontext"@, "-l"@, "-C"@]);
    Invocation { program: "semanage".to_owned(), arguments }
}

/// Whether a line of the module list names a module: it is the first word.
pub open spec fn names_module(line: Seq<char>, module: Seq<char>) -> bool {
    words_of(line).len() > 0 && words_of(line)[0] == module
}

/// Whether a module is among those listed.
pub open spec fn module_listed(listing: Seq<char>, module: Seq<char>) -> bool {
    exists|i: int|
        0 <= i < lines_of(listing).len() && names_module(#[trigger] lines_of(listing)[i], module)
}

/// Whether a line of the rule list is for an expression: it begins with it, and whitespace follows.
pub open spec fn states_rule(line: Seq<char>, regex: Seq<char>) -> bool {
    let content = trimmed_start(line);
    begins(content, regex) && content.len() > regex.len() && is_space(content[regex.len() as int])
}

/// Whether a rule for an expression is among those listed.
pub open spec fn rule_listed(listing: Seq<char>, regex: Seq<char>) -> bool {
    exists|i: int|
        0 <= i < lines_of(listing).len() && states_rule(#[trigger] lines_of(listing)[i], regex)
}

/// Whether a module is among those listed.
pub fn module_exists(listing: &str, module: &str) -> (result: bool)
    ensures
        result == module_listed(listing@, module@),
{
    let chars = characters(listing);
    let name = characters(module);
    let list = lines(chars.as_slice());
    let ghost all = lines_of(listing@);
    let mut index: usize = 0;
    while index < list.len()
        invariant
            index <= list@.len(),
            slices(list@) == all,
            all == lines_of(listing@),
            name@ == module@,
            forall|i: int| 0 <= i < index ==> !names_module(#[trigger] all[i], module@),
        decreases list.len() - index,
    {
        assert(slices(list@)[index as int] == list@[index as int]@);
        let found = words(list[index]);
        assert(slices(found@).len() == found@.len());
        if found.len() > 0 {
            assert(slices(found@)[0] == found@[0]@);
            if same(found[0], name.as_slice()) {
                assert(names_module(all[index as int], module@));
                return true;
            }
        }
        index += 1;
    }
    false
}

/// Whether a rule for an expression is among those listed.
pub fn fcontext_rule_exists(listing: &str, regex: &str) -> (result: bool)
    ensures
        result == rule_listed(listing@, regex@),
{
    let chars = characters(listing);
    let pattern = characters(regex);
    let list = lines(chars.as_slice());
    let ghost all = lines_of(listing@);
    let mut index: usize = 0;
    while index < list.len()
        invariant
            index <= list@.len(),
            slices(list@) == all,
            all == lines_of(listing@),
            pattern@ == regex@,
            forall|i: int| 0 <= i < index ==> !states_rule(#[trigger] all[i], regex@),
        decreases list.len() - index,
    {
        assert(slices(list@)[index as int] == list@[index as int]@);
        let content = trim_start(list[index]);
        if starts_with(content, pattern.as_slice()) && content.len() > pattern.len()
            && is_whitespace(content[pattern.len()]) {
            assert(states_rule(all[index as int], regex@));
            return true;
        }
        index += 1;
    }
    false
}

/// What a query for a module comes to.
pub open spec fn module_present(ran: Result<Output, Seq<char>>, module: Seq<char>) -> Result<
    bool,
    Seq<char>,
> {
    match successful(ran) {
        Err(message) => Err(message),
        Ok(output) => Ok(module_listed(lossy(output.stdout@), module)),
    }
}

/// What a query for a rule comes to.
pub open spec fn rule_present(ran: Result<Output, Seq<char>>, regex: Seq<char>) -> Result<
    bool,
    Seq<char>,
> {
    match successful(ran) {
        Err(message) => Err(message),
        Ok(output) => Ok(rule_listed(lossy(output.stdout@), regex)),
    }
}

/// Decides over a query for a module.
pub fn find_module(ran: Result<Output, Error>, module: &str) -> (result: Result<bool, Error>)
    ensures
        outcome(result) == module_present(outcome(ran), module@),
{
    match checked(ran) {
        Err(error) => Err(error),
        Ok(output) => {
            let listing = lossy_text(output.stdout.as_slice());
            Ok(module_exists(listing.as_str(), module))
        },
    }
}

/// Decides over a query for a rule.
pub fn find_rule(ran: Result<Output, Error>, regex: &str) -> (result: Result<bool, Error>)
    ensures
        outcome(result) == rule_present(outcome(ran), regex@),
{
    match checked(ran) {
        Err(error) => Err(error),
        Ok(output) => {
            let listing = lossy_text(output.stdout.as_slice());
            Ok(fcontext_rule_exists(listing.as_str(), regex))
        },
    }
}

pub open spec fn foreign_module(module: Seq<char>) -> Seq<char> {
    "SELinux module '"@ + module
        + "' already exists but is not owned by the active Microvisor transaction"@
}

pub open spec fn foreign_rule(regex: Seq<char>) -> Seq<char> {
    "A local SELinux file-context rule already exists for '"@ + regex
        + "'. Microvisor will not overwrite it"@
}

/// What comes of requiring that something is absent.
pub open spec fn absent(present: Result<bool, Seq<char>>, complaint: Seq<char>) -> Result<
    (),
    Seq<char>,
> {
    match present {
        Err(message) => Err(message),
        Ok(true) => Err(complaint),
        Ok(false) => Ok(()),
    }
}

/// Refuses to go on where a module is installed.
pub fn ensure_module_absent(ran: Result<Output, Error>, module: &str) -> (result: Result<(), Error>)
    ensures
        outcome(result) == absent(module_present(outcome(ran), module@), foreign_module(module@)),
{
    match find_module(ran, module) {
        Err(error) => Err(error),
        Ok(true) => {
            let message = text3(
                "SELinux module '",
                module,
                "' already exists but is not owned by the active Microvisor transaction",
            );
            Err(Error { message })
        },
        Ok(false) => Ok(()),
    }
}

/// Refuses to go on where a rule is set.
pub fn ensure_fcontext_absent(ran: Result<Output, Error>, regex: &str) -> (result: Result<
    (),
    Error,
>)
    ensures
        outcome(result) == absent(rule_present(outcome(ran), regex@), foreign_rule(regex@)),
{
    match find_rule(ran, regex) {
        Err(error) => Err(error),
        Ok(true) => {
            let message = text3(
                "A local SELinux file-context rule already exists for '",
                regex,
                "'. Microvisor will not overwrite it",
            );
            Err(Error { message })
        },
        Ok(false) => Ok(()),
    }
}

} // verus!
