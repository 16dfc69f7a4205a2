//! What is required of the files and directories that a root process relies on.

use crate::error::{in_context, outcome, Error};
use crate::policy::verdict;
use crate::text::{text2, text3};
use vstd::prelude::*;

verus! {

/// What the file system says of an entry.
#[derive(Clone, Copy, Debug)]
pub struct FileFacts {
    pub symlink: bool,
    pub directory: bool,
    pub file: bool,
    pub uid: u32,
    pub links: u64,
    pub mode: u32,
    pub len: u64,
}

/// Whether a mode lets the group or others write.
pub open spec fn writable_by_others(mode: u32) -> bool {
    mode & 0o022 != 0
}

/// Whether a mode lets the group or others do anything.
pub open spec fn open_to_others(mode: u32) -> bool {
    mode & 0o077 != 0
}

/// Whether a mode lets anyone execute.
pub open spec fn executable(mode: u32) -> bool {
    mode & 0o111 != 0
}

pub fn is_executable(mode: u32) -> (result: bool)
    ensures
        result == executable(mode),
{
    mode & 0o111 != 0
}

/// A directory that only root can change, reached without a symbolic link.
pub open spec fn is_private_directory(facts: FileFacts) -> bool {
    !facts.symlink && facts.directory && facts.uid == 0 && !writable_by_others(facts.mode)
}

fn private_directory(facts: &FileFacts) -> (result: bool)
    ensures
        result == is_private_directory(*facts),
{
    !facts.symlink && facts.directory && facts.uid == 0 && facts.mode & 0o022 == 0
}

/// Checks the directory that holds the transaction lock.
pub fn check_runtime_directory(facts: &FileFacts) -> (result: Result<(), Error>)
    ensures
        outcome(result) == if is_private_directory(*facts) {
            Ok::<(), Seq<char>>(())
        } else {
            Err("The Microvisor runtime directory must be a root-owned directory, not a symlink"@)
        },
{
    if private_directory(facts) {
        Ok(())
    } else {
        Err(
            Error::new(
                "The Microvisor runtime directory must be a root-owned directory, not a symlink",
            ),
        )
    }
}

/// A regular file that only root can change, under one name.
pub open spec fn is_private_lock(facts: FileFacts) -> bool {
    facts.file && facts.uid == 0 && facts.links == 1 && !writable_by_others(facts.mode)
}

/// Checks the opened transaction lock.
pub fn check_lock_file(facts: &FileFacts) -> (result: Result<(), Error>)
    ensures
        outcome(result) == if is_private_lock(*facts) {
            Ok::<(), Seq<char>>(())
        } else {
            Err("The Microvisor transaction lock has unsafe ownership or permissions"@)
        },
{
    if facts.file && facts.uid == 0 && facts.links == 1 && facts.mode & 0o022 == 0 {
        Ok(())
    } else {
        Err(Error::new("The Microvisor transaction lock has unsafe ownership or permissions"))
    }
}

pub open spec fn state_directory_message(directory: Seq<char>) -> Seq<char> {
    "The Microvisor state path "@ + directory + " must be a root-owned directory, not a symlink"@
}

/// Checks a directory that holds snapshots.
pub fn check_state_directory(directory: &str, facts: &FileFacts) -> (result: Result<(), Error>)
    ensures
        outcome(result) == if is_private_directory(*facts) {
            Ok::<(), Seq<char>>(())
        } else {
            Err(state_directory_message(directory@))
        },
{
    if private_directory(facts) {
        Ok(())
    } else {
        let message = text3(
            "The Microvisor state path ",
            directory,
            " must be a root-owned directory, not a symlink",
        );
        Err(Error { message })
    }
}

/// The largest policy source that is read.
pub const MAX_POLICY_SOURCE_SIZE: u64 = 4194304;

/// What is wrong with a directory of policy sources, or with looking at it.
pub open spec fn policy_directory_fault(
    path: Seq<char>,
    inspected: Result<FileFacts, Seq<char>>,
) -> Option<Seq<char>> {
    match inspected {
        Err(message) => Some(
            in_context(message, "Could not inspect SELinux policy directory "@ + path),
        ),
        Ok(facts) => if is_private_directory(facts) {
            None
        } else {
            Some(
                "SELinux policy directory "@ + path
                    + " must be root-owned and not writable by group or other users"@,
            )
        },
    }
}

/// Checks a directory of policy sources.
pub fn validate_policy_directory(path: &str, inspected: &Result<FileFacts, Error>) -> (result: Result<
    (),
    Error,
>)
    ensures
        outcome(result) == verdict(policy_directory_fault(path@, outcome(*inspected))),
{
    match inspected {
        Err(error) => {
            let context = text2("Could not inspect SELinux policy directory ", path);
            Err(error.context(context.as_str()))
        },
        Ok(facts) => if private_directory(facts) {
            Ok(())
        } else {
            let message = text3(
                "SELinux policy directory ",
                path,
                " must be root-owned and not writable by group or other users",
            );
            Err(Error { message })
        },
    }
}

/// A regular policy source that only root can change, of bounded size.
pub open spec fn is_policy_file(facts: FileFacts) -> bool {
    !facts.symlink && facts.file && facts.uid == 0 && !writable_by_others(facts.mode) && facts.len
        <= MAX_POLICY_SOURCE_SIZE
}

/// What is wrong with a policy source, or with looking at it.
pub open spec fn policy_file_fault(
    path: Seq<char>,
    inspected: Result<FileFacts, Seq<char>>,
) -> Option<Seq<char>> {
    match inspected {
        Err(message) => Some(in_context(message, "Could not inspect SELinux policy source "@ + path)),
        Ok(facts) => if is_policy_file(facts) {
            None
        } else {
            Some(
                "SELinux policy source "@ + path + " has unsafe ownership, mode, type, or size"@,
            )
        },
    }
}

/// Checks a policy source.
pub fn validate_policy_file(path: &str, inspected: &Result<FileFacts, Error>) -> (result: Result<
    (),
    Error,
>)
    ensures
        outcome(result) == verdict(policy_file_fault(path@, outcome(*inspected))),
{
    match inspected {
        Err(error) => {
            let context = text2("Could not inspect SELinux policy source ", path);
            Err(error.context(context.as_str()))
        },
        Ok(facts) => if !facts.symlink && facts.file && facts.uid == 0 && facts.mode & 0o022 == 0
            && facts.len <= MAX_POLICY_SOURCE_SIZE {
            Ok(())
        } else {
            let message = text3(
                "SELinux policy source ",
                path,
                " has unsafe ownership, mode, type, or size",
            );
            Err(Error { message })
        },
    }
}

/// A regular file that only root can read or change, under one name.
pub open spec fn is_private_snapshot(facts: FileFacts) -> bool {
    facts.file && facts.uid == 0 && facts.links == 1 && !open_to_others(facts.mode)
}

/// Checks an opened snapshot.
pub fn check_state_file(path: &str, facts: &FileFacts) -> (result: Result<(), Error>)
    ensures
        outcome(result) == if is_private_snapshot(*facts) {
            Ok::<(), Seq<char>>(())
        } else {
            Err("Stored profile "@ + path@ + " has unsafe type, ownership, links, or permissions"@)
        },
{
    if facts.file && facts.uid == 0 && facts.links == 1 && facts.mode & 0o077 == 0 {
        Ok(())
    } else {
        let message = text3(
            "Stored profile ",
            path,
            " has unsafe type, ownership, links, or permissions",
        );
        Err(Error { message })
    }
}

/// What is wrong with a configuration file, or with looking at it.
pub open spec fn config_file_fault(
    path: Seq<char>,
    inspected: Result<FileFacts, Seq<char>>,
) -> Option<Seq<char>> {
    match inspected {
        Err(message) => Some(in_context(message, "Could not inspect "@ + path)),
        Ok(facts) => if !facts.file {
            Some("Configuration file "@ + path + " must be a regular file"@)
        } else if facts.links != 1 {
            Some("Configuration file "@ + path + " must not have hard links"@)
        } else if facts.uid != 0 {
            Some("Configuration file "@ + path + " must be owned by root"@)
        } else if writable_by_others(facts.mode) {
            Some(
                "Configuration file "@ + path
                    + " must not be writable by group or other users"@,
            )
        } else {
            None
        },
    }
}

fn config_file_error(path: &str, flaw: &str) -> (result: Error)
    ensures
        result@ == "Configuration file "@ + path@ + flaw@,
{
    Error { message: text3("Configuration file ", path, flaw) }
}

/// Checks the opened configuration file.
pub fn validate_config_file(path: &str, inspected: &Result<FileFacts, Error>) -> (result: Result<
    (),
    Error,
>)
    ensures
        outcome(result) == verdict(config_file_fault(path@, outcome(*inspected))),
{
    match inspected {
        Err(error) => {
            let context = text2("Could not inspect ", path);
            Err(error.context(context.as_str()))
        },
        Ok(facts) => if !facts.file {
            Err(config_file_error(path, " must be a regular file"))
        } else if facts.links != 1 {
            Err(config_file_error(path, " must not have hard links"))
        } else if facts.uid != 0 {
            Err(config_file_error(path, " must be owned by root"))
        } else if facts.mode & 0o022 != 0 {
            Err(config_file_error(path, " must not be writable by group or other users"))
        } else {
            Ok(())
        },
    }
}

/// An accepted file of any kind is root's and cannot be changed by anyone else.
pub proof fn accepted_files_belong_to_root(path: Seq<char>, facts: FileFacts)
    requires
        is_private_directory(facts) || is_private_lock(facts) || is_private_snapshot(facts)
            || is_policy_file(facts) || config_file_fault(path, Ok(facts)) is None,
    ensures
        facts.uid == 0,
        !writable_by_others(facts.mode),
{
    let mode = facts.mode;
    assert(mode & 0o077 == 0 ==> mode & 0o022 == 0) by (bit_vector);
}

} // verus!
