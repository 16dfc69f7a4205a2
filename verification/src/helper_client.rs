//! Talking to the privileged helper: which program it is, and what its answer comes to.

use crate::bytes::{lossy, lossy_text};
use crate::error::Error;
use crate::files::{executable, is_executable, FileFacts};
use crate::helper::{HelperRequest, HelperResponse};
use crate::text::{characters, optional, trim_text, trimmed};
use vstd::prelude::*;

verus! {

pub const INSTALLED_HELPER_PATH: &'static str = "/usr/libexec/microvisor-helper";

/// A program next to the current one, and what was found there.
#[derive(Debug)]
pub struct Sibling {
    pub path: String,
    pub found: Option<FileFacts>,
}

/// Whether an executable file was found.
pub open spec fn is_program(found: Option<FileFacts>) -> bool {
    found matches Some(facts) && facts.file && executable(facts.mode)
}

/// The helper that is run: the one that was asked for, in builds for development an executable one
/// next to the current program, else the installed one.
pub open spec fn selected_helper(
    explicit: Option<Seq<char>>,
    sibling: Option<Sibling>,
    development: bool,
) -> Seq<char> {
    match explicit {
        Some(path) => path,
        None => match sibling {
            Some(candidate) => if development && is_program(candidate.found) {
                candidate.path@
            } else {
                INSTALLED_HELPER_PATH@
            },
            None => INSTALLED_HELPER_PATH@,
        },
    }
}

/// Whether an executable file was found.
pub fn is_executable_file(found: &Option<FileFacts>) -> (result: bool)
    ensures
        result == is_program(*found),
{
    match found {
        Some(facts) => facts.file && is_executable(facts.mode),
        None => false,
    }
}

/// The helper that is run. Outside development only the installed one is taken, unless another one
/// is asked for.
pub fn select_helper_path(
    explicit: Option<String>,
    sibling: Option<Sibling>,
    development: bool,
) -> (result: String)
    ensures
        result@ == selected_helper(optional(explicit), sibling, development),
{
    if let Some(path) = explicit {
        return path;
    }
    if let Some(candidate) = sibling {
        if development && is_executable_file(&candidate.found) {
            return candidate.path;
        }
    }
    INSTALLED_HELPER_PATH.to_owned()
}

/// What a request asks for, and for which profile.
pub fn request_summary(request: &HelperRequest) -> (result: (&'static str, u128))
    ensures
        match request {
            HelperRequest::Apply { profile } => result.0@ == "apply"@ && result.1 == profile.id,
            HelperRequest::Remove { id } => result.0@ == "remove"@ && result.1 == *id,
        },
{
    match request {
        HelperRequest::Apply { profile } => ("apply", profile.id),
        HelperRequest::Remove { id } => ("remove", *id),
    }
}

/// What is said where the helper gave no answer that can be read.
pub open spec fn unanswered(success: bool, errors: Seq<u8>) -> Seq<char> {
    let told = trimmed(lossy(errors));
    if success {
        "The helper returned an invalid response"@
    } else if told.len() == 0 {
        "The privileged operation was cancelled or failed"@
    } else {
        told
    }
}

/// What a run of the helper comes to, given its answer where one could be read.
pub fn interpret_reply(
    answer: Option<HelperResponse>,
    success: bool,
    errors: &Vec<u8>,
) -> (result: Result<HelperResponse, Error>)
    ensures
        match answer {
            Some(response) => result == Ok::<HelperResponse, Error>(response),
            None => result matches Err(error) && error@ == unanswered(success, errors@),
        },
{
    if let Some(response) = answer {
        return Ok(response);
    }
    if !success {
        let told = trim_text(lossy_text(errors.as_slice()).as_str());
        let chars = characters(told.as_str());
        if chars.len() == 0 {
            return Err(Error::new("The privileged operation was cancelled or failed"));
        }
        return Err(Error { message: told });
    }
    Err(Error::new("The helper returned an invalid response"))
}

} // verus!
