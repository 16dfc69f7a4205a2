//! Commands: where they are looked for, what they are run with, and what their output says.

use crate::bytes::{lossy, lossy_text};
use crate::error::Error;
use crate::files::{executable, writable_by_others, FileFacts};
use crate::search::{first_of, lemma_first_of, lemma_first_of_some};
use crate::sources::{inside, join};
use crate::text::{characters, contains_char, strings, trim_text, trimmed};
use vstd::prelude::*;

verus! {

/// A program and its arguments. Arguments are handed over one by one, never through a shell.
#[derive(Debug)]
pub struct Invocation {
    pub program: String,
    pub arguments: Vec<String>,
}

/// A program and its arguments, as values.
pub struct Call {
    pub program: Seq<char>,
    pub arguments: Seq<Seq<char>>,
}

impl View for Invocation {
    type V = Call;

    open spec fn view(&self) -> Call {
        Call { program: self.program@, arguments: strings(self.arguments@) }
    }
}

/// The directories that commands are looked for in, in order.
pub open spec fn trusted_directories() -> Seq<Seq<char>> {
    seq!["/usr/sbin"@, "/usr/bin"@, "/sbin"@, "/bin"@]
}

/// A program that only root can change and that can be executed.
pub open spec fn is_trusted_program(facts: FileFacts) -> bool {
    facts.file && facts.uid == 0 && executable(facts.mode) && !writable_by_others(facts.mode)
}

/// Where a command can stand: its name in each of the trusted directories.
pub open spec fn candidates(command: Seq<char>) -> Seq<Seq<char>> {
    trusted_directories().map_values(|directory: Seq<char>| inside(directory, command))
}

/// The candidate at an index, where what was found there can be trusted.
pub open spec fn trusted_at(command: Seq<char>, found: Seq<Option<FileFacts>>) -> spec_fn(
    int,
) -> Option<Seq<char>> {
    |index: int|
        match found[index] {
            Some(facts) => if is_trusted_program(facts) {
                Some(candidates(command)[index])
            } else {
                None
            },
            None => None,
        }
}

/// The program that a command stands for, given what was found at each candidate.
pub open spec fn located(command: Seq<char>, found: Seq<Option<FileFacts>>) -> Result<
    Seq<char>,
    Seq<char>,
> {
    if command.contains('/') {
        Err("Command names must not contain '/'"@)
    } else {
        match first_of(4, trusted_at(command, found)) {
            Some(path) => Ok(path),
            None => Err("Command not found"@),
        }
    }
}

/// Where a command can stand.
pub fn command_candidates(command: &str) -> (result: Vec<String>)
    ensures
        strings(result@) == candidates(command@),
{
    let mut result: Vec<String> = Vec::new();
    result.push(join("/usr/sbin", command));
    result.push(join("/usr/bin", command));
    result.push(join("/sbin", command));
    result.push(join("/bin", command));
    assert(strings(result@) =~= candidates(command@));
    result
}

fn trusted_program(facts: &FileFacts) -> (result: bool)
    ensures
        result == is_trusted_program(*facts),
{
    facts.file && facts.uid == 0 && facts.mode & 0o111 != 0 && facts.mode & 0o022 == 0
}

/// Finds a command, given what was found at each of its candidates.
pub fn find_command(command: &str, found: &[Option<FileFacts>; 4]) -> (result: Result<
    String,
    Error,
>)
    ensures
        crate::error::viewed(result) == located(command@, found@),
{
    let chars = characters(command);
    if contains_char(chars.as_slice(), '/') {
        return Err(Error::new("Command names must not contain '/'"));
    }
    let mut paths = command_candidates(command);
    let ghost probe = trusted_at(command@, found@);
    let mut index: usize = 0;
    while index < 4
        invariant
            index <= 4,
            found@.len() == 4,
            strings(paths@) == candidates(command@),
            probe == trusted_at(command@, found@),
            !command@.contains('/'),
            first_of(index as nat, probe) is None,
        decreases 4 - index,
    {
        if let Some(facts) = &found[index] {
            if trusted_program(facts) {
                assert(strings(paths@).len() == 4);
                let path = paths[index].clone();
                proof {
                    assert(path@ == strings(paths@)[index as int]);
                    assert(probe(index as int) == Some(path@));
                    lemma_first_of((index + 1) as nat, 4, probe);
                }
                return Ok(path);
            }
        }
        assert(probe(index as int) is None);
        index += 1;
    }
    Err(Error::new("Command not found"))
}

/// A command is never taken from anywhere but the trusted directories, and never where anyone but
/// root could have changed it.
pub proof fn located_commands_are_trusted(command: Seq<char>, found: Seq<Option<FileFacts>>)
    requires
        found.len() == 4,
        located(command, found) is Ok,
    ensures
        exists|i: int|
            {
                &&& 0 <= i < 4
                &&& located(command, found) == Ok::<Seq<char>, Seq<char>>(
                    inside(#[trigger] trusted_directories()[i], command),
                )
                &&& found[i] matches Some(facts) && is_trusted_program(facts)
            },
{
    let probe = trusted_at(command, found);
    let index = lemma_first_of_some(4, probe);
    assert(candidates(command)[index] == inside(trusted_directories()[index], command));
}

/// The environment that commands run in. Nothing of the caller's environment is kept.
pub open spec fn command_variables() -> Seq<(Seq<char>, Seq<char>)> {
    seq![
        ("HOME"@, "/root"@),
        ("LANG"@, "C"@),
        ("LC_ALL"@, "C"@),
        ("PATH"@, "/usr/sbin:/usr/bin:/sbin:/bin"@),
    ]
}

/// What a list of pairs of strings holds.
pub open spec fn pairs(list: Seq<(String, String)>) -> Seq<(Seq<char>, Seq<char>)> {
    list.map_values(|item: (String, String)| (item.0@, item.1@))
}

/// The environment that commands run in.
pub fn command_environment() -> (result: Vec<(String, String)>)
    ensures
        pairs(result@) == command_variables(),
{
    let mut result: Vec<(String, String)> = Vec::new();
    result.push(("HOME".to_owned(), "/root".to_owned()));
    result.push(("LANG".to_owned(), "C".to_owned()));
    result.push(("LC_ALL".to_owned(), "C".to_owned()));
    result.push(("PATH".to_owned(), "/usr/sbin:/usr/bin:/sbin:/bin".to_owned()));
    assert(pairs(result@) =~= command_variables());
    result
}

/// What a command left behind.
#[derive(Debug)]
pub struct Output {
    pub success: bool,
    pub stdout: Vec<u8>,
    pub stderr: Vec<u8>,
}

/// What a failed command says: its errors, or where there are none its output.
pub open spec fn failure_text(output: Output) -> Seq<char> {
    let errors = trimmed(lossy(output.stderr@));
    if errors.len() == 0 {
        trimmed(lossy(output.stdout@))
    } else {
        errors
    }
}

/// What running a command comes to: its output where it succeeded, else what it says.
pub open spec fn successful(ran: Result<Output, Seq<char>>) -> Result<Output, Seq<char>> {
    match ran {
        Ok(output) => if output.success {
            Ok(output)
        } else {
            Err(failure_text(output))
        },
        Err(message) => Err(message),
    }
}

/// Takes a failed command for an error.
pub fn checked(ran: Result<Output, Error>) -> (result: Result<Output, Error>)
    ensures
        crate::error::outcome(result) == successful(crate::error::outcome(ran)),
{
    let output = match ran {
        Err(error) => {
            return Err(error);
        },
        Ok(output) => output,
    };
    if output.success {
        return Ok(output);
    }
    let errors = trim_text(lossy_text(output.stderr.as_slice()).as_str());
    let chars = characters(errors.as_str());
    if chars.len() == 0 {
        let message = trim_text(lossy_text(output.stdout.as_slice()).as_str());
        Err(Error { message })
    } else {
        Err(Error { message: errors })
    }
}

} // verus!
