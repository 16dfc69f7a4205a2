//! Diagnostic lines: one line per event, for standard error.

use crate::text::{decimal, decimal_text, text5};
use vstd::prelude::*;

verus! {

/// A diagnostic line of a process: its level, the component that speaks, and the message.
pub open spec fn line(
    process: u32,
    level: Seq<char>,
    target: Seq<char>,
    message: Seq<char>,
) -> Seq<char> {
    "microvisor["@ + decimal(process as nat) + "] "@ + level + " "@ + target + ": "@ + message
}

/// The line for an event that helps to follow the program.
pub fn debug(process: u32, target: &str, message: &str) -> (result: String)
    ensures
        result@ == line(process, "DEBUG"@, target@, message@),
{
    write(process, "DEBUG", target, message)
}

/// The line for a step that was taken.
pub fn info(process: u32, target: &str, message: &str) -> (result: String)
    ensures
        result@ == line(process, "INFO"@, target@, message@),
{
    write(process, "INFO", target, message)
}

/// The line for an event that needs attention.
pub fn warn(process: u32, target: &str, message: &str) -> (result: String)
    ensures
        result@ == line(process, "WARN"@, target@, message@),
{
    write(process, "WARN", target, message)
}

/// The line for a failure.
pub fn error(process: u32, target: &str, message: &str) -> (result: String)
    ensures
        result@ == line(process, "ERROR"@, target@, message@),
{
    write(process, "ERROR", target, message)
}

fn write(process: u32, level: &str, target: &str, message: &str) -> (result: String)
    ensures
        result@ == line(process, level@, target@, message@),
{
    let number = decimal_text(process as u64);
    let mut result = text5("microvisor[", number.as_str(), "] ", level, " ");
    result.append(target);
    result.append(": ");
    result.append(message);
    result
}

} // verus!
