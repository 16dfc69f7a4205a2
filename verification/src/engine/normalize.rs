//! Profiles against the file system: paths are resolved before they are compared and before policy
//! is generated from them.

use crate::error::{in_context, outcome, viewed, Error};
use crate::files::{executable, is_executable, FileFacts};
use crate::model::{known, Profile, ProtectionProfile};
use crate::order::{
    arranged, arranging_keeps_order, arranging_keeps_the_items, arranging_puts_in_order, in_order,
};
use crate::path::{
    by_path, lemma_by_path, lemma_container_first, normal_component_count, parts, path_equal,
    path_starts_with, path_under, same_path,
};
use crate::policy::{
    broad_directory, broad_message, profile_fault, validate_profile, MIN_DIRECTORY_NAMES,
};
use crate::search::{first_of, lemma_first_of, lemma_first_of_none, lemma_first_of_some};
use crate::sources::{sort_paths, string_list};
use crate::text::{strings, text2, text3, text4};
use vstd::prelude::*;

verus! {

/// What the file system says of a path: where it leads, and what is there.
#[derive(Debug)]
pub struct Resolution {
    /// The path without symbolic links.
    pub resolved: Result<String, Error>,
    /// Whether a regular file is there.
    pub is_file: bool,
    /// What is there.
    pub facts: Result<FileFacts, Error>,
}

/// What the file system says of the paths of a profile.
#[derive(Debug)]
pub struct Findings {
    pub executable: Resolution,
    pub directories: Vec<Resolution>,
}

/// The executable of the applied profile, where it is the one that is asked for.
pub open spec fn kept_executable(executable: Seq<char>, applied: Option<Profile>) -> Option<
    Seq<char>,
> {
    match applied {
        Some(item) => if path_equal(item.executable, executable) {
            Some(item.executable)
        } else {
            None
        },
        None => None,
    }
}

/// The directory at an index, where it is the one that is asked for.
pub open spec fn matching_at(directories: Seq<Seq<char>>, directory: Seq<char>) -> spec_fn(
    int,
) -> Option<Seq<char>> {
    |index: int|
        if path_equal(directories[index], directory) {
            Some(directories[index])
        } else {
            None
        }
}

/// The directory of the applied profile that is the one that is asked for.
pub open spec fn kept_directory(directory: Seq<char>, applied: Option<Profile>) -> Option<
    Seq<char>,
> {
    match applied {
        Some(item) => first_of(
            item.data_directories.len(),
            matching_at(item.data_directories, directory),
        ),
        None => None,
    }
}

/// The executable of the applied profile, where it is the one that is asked for. It need not be
/// resolved again.
pub fn reused_executable(executable: &str, applied: Option<&ProtectionProfile>) -> (result: Option<
    String,
>)
    ensures
        crate::text::optional(result) == kept_executable(executable@, known(applied)),
{
    match applied {
        Some(item) => if same_path(item.executable.as_str(), executable) {
            Some(item.executable.clone())
        } else {
            None
        },
        None => None,
    }
}

/// The directory of the applied profile that is the one that is asked for. Its protection may hide
/// it from the process, so it is taken as it was.
pub fn reused_directory(directory: &str, applied: Option<&ProtectionProfile>) -> (result: Option<
    String,
>)
    ensures
        crate::text::optional(result) == kept_directory(directory@, known(applied)),
{
    match applied {
        None => None,
        Some(item) => {
            let ghost all = strings(item.data_directories@);
            let ghost probe = matching_at(all, directory@);
            let mut index: usize = 0;
            while index < item.data_directories.len()
                invariant
                    index <= item.data_directories@.len(),
                    all == strings(item.data_directories@),
                    probe == matching_at(all, directory@),
                    first_of(index as nat, probe) is None,
                    kept_directory(directory@, known(applied)) == first_of(all.len(), probe),
                decreases item.data_directories.len() - index,
            {
                assert(all[index as int] == item.data_directories@[index as int]@);
                if same_path(item.data_directories[index].as_str(), directory) {
                    proof {
                        assert(probe(index as int) == Some(all[index as int]));
                        lemma_first_of((index + 1) as nat, all.len(), probe);
                    }
                    return Some(item.data_directories[index].clone());
                }
                assert(probe(index as int) is None);
                index += 1;
            }
            None
        },
    }
}

pub open spec fn unresolved(path: Seq<char>, message: Seq<char>) -> Seq<char> {
    in_context(message, "Could not resolve "@ + path)
}

/// The executable of a profile where it really is, or why it is not accepted.
pub open spec fn found_executable(
    executable_path: Seq<char>,
    applied: Option<Profile>,
    finding: Resolution,
) -> Result<Seq<char>, Seq<char>> {
    let located = match kept_executable(executable_path, applied) {
        Some(path) => Ok(path),
        None => match finding.resolved {
            Ok(path) => Ok(path@),
            Err(error) => Err(unresolved(executable_path, error@)),
        },
    };
    match located {
        Err(message) => Err(message),
        Ok(path) => if !finding.is_file {
            Err(path + " is not a regular file"@)
        } else {
            match finding.facts {
                Err(error) => Err(error@),
                Ok(facts) => if !executable(facts.mode) {
                    Err(path + " is not executable"@)
                } else {
                    Ok(path)
                },
            }
        },
    }
}

/// A protected directory where it really is, or why it is not accepted.
pub open spec fn found_directory(
    directory: Seq<char>,
    applied: Option<Profile>,
    finding: Resolution,
) -> Result<Seq<char>, Seq<char>> {
    match kept_directory(directory, applied) {
        Some(path) => Ok(path),
        None => match finding.resolved {
            Err(error) => Err(unresolved(directory, error@)),
            Ok(path) => match finding.facts {
                Err(error) => Err(in_context(error@, "Could not inspect "@ + path@)),
                Ok(facts) => if !facts.directory {
                    Err(path@ + " is not a directory"@)
                } else if crate::path::names(parts(path@)) < MIN_DIRECTORY_NAMES {
                    Err(broad_message(path@))
                } else {
                    Ok(path@)
                },
            },
        },
    }
}

/// The first `count` protected directories where they really are, or the first error.
pub open spec fn found_directories(
    directories: Seq<Seq<char>>,
    applied: Option<Profile>,
    findings: Seq<Resolution>,
    count: nat,
) -> Result<Seq<Seq<char>>, Seq<char>>
    decreases count,
{
    if count == 0 {
        Ok(Seq::empty())
    } else {
        match found_directories(directories, applied, findings, (count - 1) as nat) {
            Err(message) => Err(message),
            Ok(before) => match found_directory(
                directories[count - 1],
                applied,
                findings[count - 1],
            ) {
                Err(message) => Err(message),
                Ok(path) => Ok(before.push(path)),
            },
        }
    }
}

/// Whether two neighbours in a list are the same path.
pub open spec fn neighbours_agree(paths: Seq<Seq<char>>) -> bool {
    exists|i: int| 0 <= i < paths.len() - 1 && path_equal(#[trigger] paths[i], paths[i + 1])
}

/// The directory a number of places behind an index, where it lies inside the directory there.
pub open spec fn contained_behind(paths: Seq<Seq<char>>, index: int) -> spec_fn(int) -> Option<
    Seq<char>,
> {
    |offset: int|
        if path_under(paths[index + 1 + offset], paths[index]) {
            Some(
                "Protected directories must not overlap: "@ + paths[index] + " contains "@
                    + paths[index + 1 + offset],
            )
        } else {
            None
        }
}

/// What is wrong with the directory at an index of a sorted list.
pub open spec fn containment_at(executable: Seq<char>, paths: Seq<Seq<char>>) -> spec_fn(
    int,
) -> Option<Seq<char>> {
    |index: int|
        if path_under(executable, paths[index]) {
            Some(
                "The protected directory "@ + paths[index]
                    + " contains the selected executable"@,
            )
        } else {
            first_of((paths.len() - index - 1) as nat, contained_behind(paths, index))
        }
}

/// What is wrong with sorted directories: two are the same, one holds the executable, or one holds
/// another.
pub open spec fn containment_fault(executable: Seq<char>, paths: Seq<Seq<char>>) -> Option<
    Seq<char>,
> {
    if neighbours_agree(paths) {
        Some("Protected directories resolve to the same canonical path"@)
    } else {
        first_of(paths.len(), containment_at(executable, paths))
    }
}

/// A profile with its paths replaced.
pub open spec fn with_paths(
    profile: Profile,
    executable: Seq<char>,
    directories: Seq<Seq<char>>,
) -> Profile {
    Profile { executable, data_directories: directories, ..profile }
}

/// The profile with its paths where they really are, or why it is not accepted.
pub open spec fn normalized(
    profile: Profile,
    applied: Option<Profile>,
    findings: Findings,
) -> Result<Profile, Seq<char>> {
    let directories = profile.data_directories;
    match profile_fault(profile) {
        Some(message) => Err(message),
        None => match found_executable(profile.executable, applied, findings.executable) {
            Err(message) => Err(message),
            Ok(executable) => match found_directories(
                directories,
                applied,
                findings.directories@,
                directories.len(),
            ) {
                Err(message) => Err(message),
                Ok(found) => {
                    let paths = arranged(found, by_path());
                    let result = with_paths(profile, executable, paths);
                    match containment_fault(executable, paths) {
                        Some(message) => Err(message),
                        None => match profile_fault(result) {
                            Some(message) => Err(message),
                            None => Ok(result),
                        },
                    }
                },
            },
        },
    }
}

pub(crate) fn locate_executable(
    executable_path: &str,
    applied: Option<&ProtectionProfile>,
    finding: &Resolution,
) -> (result: Result<String, Error>)
    ensures
        viewed(result) == found_executable(executable_path@, known(applied), *finding),
{
    let path = match reused_executable(executable_path, applied) {
        Some(path) => path,
        None => match &finding.resolved {
            Ok(path) => path.clone(),
            Err(error) => {
                let context = text2("Could not resolve ", executable_path);
                return Err(error.context(context.as_str()));
            },
        },
    };
    if !finding.is_file {
        return Err(Error { message: text2(path.as_str(), " is not a regular file") });
    }
    match &finding.facts {
        Err(error) => Err(Error { message: error.message.clone() }),
        Ok(facts) => if !is_executable(facts.mode) {
            Err(Error { message: text2(path.as_str(), " is not executable") })
        } else {
            Ok(path)
        },
    }
}

fn locate_directory(
    directory: &str,
    applied: Option<&ProtectionProfile>,
    finding: &Resolution,
) -> (result: Result<String, Error>)
    ensures
        viewed(result) == found_directory(directory@, known(applied), *finding),
{
    if let Some(path) = reused_directory(directory, applied) {
        return Ok(path);
    }
    match &finding.resolved {
        Err(error) => {
            let context = text2("Could not resolve ", directory);
            Err(error.context(context.as_str()))
        },
        Ok(path) => match &finding.facts {
            Err(error) => {
                let context = text2("Could not inspect ", path.as_str());
                Err(error.context(context.as_str()))
            },
            Ok(facts) => if !facts.directory {
                Err(Error { message: text2(path.as_str(), " is not a directory") })
            } else if normal_component_count(path.as_str()) < MIN_DIRECTORY_NAMES {
                Err(broad_directory(path.as_str()))
            } else {
                Ok(path.clone())
            },
        },
    }
}

pub proof fn lemma_found_error(
    directories: Seq<Seq<char>>,
    applied: Option<Profile>,
    findings: Seq<Resolution>,
    hit: nat,
    count: nat,
)
    requires
        hit <= count,
        found_directories(directories, applied, findings, hit) is Err,
    ensures
        found_directories(directories, applied, findings, count) == found_directories(
            directories,
            applied,
            findings,
            hit,
        ),
    decreases count,
{
    if hit < count {
        lemma_found_error(directories, applied, findings, hit, (count - 1) as nat);
    }
}

fn locate_directories(
    directories: &Vec<String>,
    applied: Option<&ProtectionProfile>,
    findings: &Vec<Resolution>,
) -> (result: Result<Vec<String>, Error>)
    requires
        findings@.len() == directories@.len(),
    ensures
        string_list(result) == found_directories(
            strings(directories@),
            known(applied),
            findings@,
            directories@.len(),
        ),
{
    let ghost all = strings(directories@);
    let mut found: Vec<String> = Vec::new();
    assert(strings(found@) =~= Seq::<Seq<char>>::empty());
    let mut index: usize = 0;
    while index < directories.len()
        invariant
            index <= directories@.len() == findings@.len(),
            all == strings(directories@),
            found_directories(all, known(applied), findings@, index as nat) == Ok::<
                Seq<Seq<char>>,
                Seq<char>,
            >(strings(found@)),
        decreases directories.len() - index,
    {
        assert(all[index as int] == directories@[index as int]@);
        match locate_directory(directories[index].as_str(), applied, &findings[index]) {
            Err(error) => {
                proof {
                    lemma_found_error(
                        all,
                        known(applied),
                        findings@,
                        (index + 1) as nat,
                        all.len(),
                    );
                }
                return Err(error);
            },
            Ok(path) => {
                let ghost before = found@;
                found.push(path);
                assert(strings(found@) =~= strings(before).push(path@));
            },
        }
        index += 1;
    }
    Ok(found)
}

fn agreeing_neighbours(paths: &Vec<String>) -> (result: bool)
    ensures
        result == neighbours_agree(strings(paths@)),
{
    let ghost all = strings(paths@);
    let mut index: usize = 1;
    while index < paths.len()
        invariant
            1 <= index,
            index <= paths@.len() || paths@.len() == 0,
            all == strings(paths@),
            forall|i: int| 0 <= i < index - 1 ==> !path_equal(#[trigger] all[i], all[i + 1]),
        decreases paths.len() - index,
    {
        assert(all[index - 1] == paths@[index - 1]@ && all[index as int] == paths@[index as int]@);
        if same_path(paths[index - 1].as_str(), paths[index].as_str()) {
            assert(path_equal(all[index - 1], all[index - 1 + 1]));
            return true;
        }
        index += 1;
    }
    false
}

fn contained_directory(paths: &Vec<String>, index: usize) -> (result: Option<Error>)
    requires
        index < paths@.len(),
    ensures
        crate::error::fault(result) == first_of(
            (paths@.len() - index - 1) as nat,
            contained_behind(strings(paths@), index as int),
        ),
{
    let ghost all = strings(paths@);
    let ghost probe = contained_behind(all, index as int);
    let ghost size = (paths@.len() - index - 1) as nat;
    assert(paths.len() == paths@.len());
    let mut other: usize = index + 1;
    while other < paths.len()
        invariant
            index < other <= paths@.len(),
            all == strings(paths@),
            probe == contained_behind(all, index as int),
            size == paths@.len() - index - 1,
            first_of((other - index - 1) as nat, probe) is None,
        decreases paths.len() - other,
    {
        let ghost offset = other - index - 1;
        assert(all[other as int] == paths@[other as int]@ && all[index as int]
            == paths@[index as int]@);
        if path_starts_with(paths[other].as_str(), paths[index].as_str()) {
            let message = text4(
                "Protected directories must not overlap: ",
                paths[index].as_str(),
                " contains ",
                paths[other].as_str(),
            );
            proof {
                assert(index + 1 + offset == other);
                assert(probe(offset) == Some(message@));
                lemma_first_of((offset + 1) as nat, size, probe);
            }
            return Some(Error { message });
        }
        proof {
            assert(index + 1 + offset == other);
            assert(probe(offset) is None);
        }
        other += 1;
    }
    None
}

/// Refuses sorted directories of which one holds the executable or another one.
pub(crate) fn check_overlaps(executable_path: &str, paths: &Vec<String>) -> (result: Result<
    (),
    Error,
>)
    ensures
        outcome(result) == crate::policy::verdict(
            first_of(paths@.len(), containment_at(executable_path@, strings(paths@))),
        ),
{
    let ghost all = strings(paths@);
    let ghost probe = containment_at(executable_path@, all);
    let mut index: usize = 0;
    while index < paths.len()
        invariant
            index <= paths@.len(),
            all == strings(paths@),
            probe == containment_at(executable_path@, all),
            first_of(index as nat, probe) is None,
        decreases paths.len() - index,
    {
        assert(all[index as int] == paths@[index as int]@);
        let mut found: Option<Error> = None;
        if path_starts_with(executable_path, paths[index].as_str()) {
            let message = text3(
                "The protected directory ",
                paths[index].as_str(),
                " contains the selected executable",
            );
            found = Some(Error { message });
        } else {
            found = contained_directory(paths, index);
        }
        if let Some(error) = found {
            proof {
                assert(probe(index as int) == Some(error@));
                lemma_first_of((index + 1) as nat, all.len(), probe);
            }
            return Err(error);
        }
        assert(probe(index as int) is None);
        index += 1;
    }
    Ok(())
}

fn check_containment(executable_path: &str, paths: &Vec<String>) -> (result: Result<(), Error>)
    ensures
        outcome(result) == crate::policy::verdict(
            containment_fault(executable_path@, strings(paths@)),
        ),
{
    if agreeing_neighbours(paths) {
        return Err(Error::new("Protected directories resolve to the same canonical path"));
    }
    check_overlaps(executable_path, paths)
}

/// Puts the paths of a profile where they really are, given what the file system says of them.
/// What the applied profile already holds is taken as it was.
pub fn normalize_profile_with_applied(
    profile: ProtectionProfile,
    applied: Option<&ProtectionProfile>,
    findings: &Findings,
) -> (result: Result<ProtectionProfile, Error>)
    requires
        findings.directories@.len() == profile.data_directories@.len(),
    ensures
        viewed(result) == normalized(profile@, known(applied), *findings),
{
    if let Err(error) = validate_profile(&profile) {
        return Err(error);
    }
    let executable_path = match locate_executable(
        profile.executable.as_str(),
        applied,
        &findings.executable,
    ) {
        Err(error) => {
            return Err(error);
        },
        Ok(path) => path,
    };
    let found = match locate_directories(
        &profile.data_directories,
        applied,
        &findings.directories,
    ) {
        Err(error) => {
            return Err(error);
        },
        Ok(found) => found,
    };
    let directories = sort_paths(found);
    if let Err(error) = check_containment(executable_path.as_str(), &directories) {
        return Err(error);
    }
    let mut profile = profile;
    profile.executable = executable_path;
    profile.data_directories = directories;
    match validate_profile(&profile) {
        Err(error) => Err(error),
        Ok(()) => Ok(profile),
    }
}

/// Puts the paths of a profile where they really are, given what the file system says of them.
pub fn normalize_profile(profile: ProtectionProfile, findings: &Findings) -> (result: Result<
    ProtectionProfile,
    Error,
>)
    requires
        findings.directories@.len() == profile.data_directories@.len(),
    ensures
        viewed(result) == normalized(profile@, None, *findings),
{
    normalize_profile_with_applied(profile, None, findings)
}

/// Whether the directories are in order, none holds another, and none holds the executable.
pub open spec fn is_separated(executable: Seq<char>, paths: Seq<Seq<char>>) -> bool {
    &&& in_order(paths, by_path())
    &&& forall|i: int, j: int|
        0 <= i < paths.len() && 0 <= j < paths.len() && i != j ==> !path_under(
            #[trigger] paths[i],
            #[trigger] paths[j],
        )
    &&& forall|i: int| 0 <= i < paths.len() ==> !path_under(executable, #[trigger] paths[i])
}

pub proof fn lemma_separated(executable: Seq<char>, paths: Seq<Seq<char>>)
    requires
        in_order(paths, by_path()),
        containment_fault(executable, paths) is None,
    ensures
        is_separated(executable, paths),
{
    let probe = containment_at(executable, paths);
    lemma_first_of_none(paths.len(), probe);
    assert forall|i: int| 0 <= i < paths.len() implies !path_under(executable, #[trigger] paths[i]) by {
        assert(probe(i) is None);
    }
    assert forall|i: int, j: int| 0 <= i < j < paths.len() implies !path_under(
        #[trigger] paths[j],
        #[trigger] paths[i],
    ) by {
        assert(probe(i) is None);
        let inner = contained_behind(paths, i);
        lemma_first_of_none((paths.len() - i - 1) as nat, inner);
        assert(i + 1 + (j - i - 1) == j);
        assert(inner(j - i - 1) is None);
    }
    assert forall|i: int, j: int|
        0 <= i < paths.len() && 0 <= j < paths.len() && i != j implies !path_under(
        #[trigger] paths[i],
        #[trigger] paths[j],
    ) by {
        if i < j && path_under(paths[i], paths[j]) {
            if path_equal(paths[i], paths[j]) {
                assert(parts(paths[j]).is_prefix_of(parts(paths[j])));
                assert(path_under(paths[j], paths[i]));
            } else {
                lemma_container_first(paths[j], paths[i]);
                assert(by_path()(paths[j], paths[i]));
            }
        }
    }
}

/// A normalized profile is valid, says the same as before but for where its paths lead, and its
/// directories are in order and apart from each other and from the executable.
pub proof fn normalized_profiles_are_sound(
    profile: Profile,
    applied: Option<Profile>,
    findings: Findings,
)
    requires
        normalized(profile, applied, findings) is Ok,
    ensures
        ({
            let result = normalized(profile, applied, findings)->Ok_0;
            &&& profile_fault(result) is None
            &&& result == with_paths(profile, result.executable, result.data_directories)
            &&& is_separated(result.executable, result.data_directories)
            &&& result.data_directories.len() == profile.data_directories.len()
        }),
{
    let result = normalized(profile, applied, findings)->Ok_0;
    let count = profile.data_directories.len();
    let found = found_directories(
        profile.data_directories,
        applied,
        findings.directories@,
        count,
    )->Ok_0;
    lemma_by_path();
    arranging_puts_in_order(found, by_path());
    arranging_keeps_the_items(found, by_path());
    lemma_found_length(profile.data_directories, applied, findings.directories@, count);
    lemma_separated(result.executable, result.data_directories);
}

proof fn lemma_found_length(
    directories: Seq<Seq<char>>,
    applied: Option<Profile>,
    findings: Seq<Resolution>,
    count: nat,
)
    ensures
        found_directories(directories, applied, findings, count) matches Ok(found) ==> found.len()
            == count,
    decreases count,
{
    if count > 0 {
        lemma_found_length(directories, applied, findings, (count - 1) as nat);
    }
}

proof fn lemma_kept_itself(profile: Profile, index: int)
    requires
        is_separated(profile.executable, profile.data_directories),
        0 <= index < profile.data_directories.len(),
    ensures
        kept_directory(profile.data_directories[index], Some(profile)) == Some(
            profile.data_directories[index],
        ),
{
    let paths = profile.data_directories;
    let probe = matching_at(paths, paths[index]);
    assert forall|i: int| 0 <= i < index implies (#[trigger] probe(i)) is None by {
        if path_equal(paths[i], paths[index]) {
            assert(parts(paths[i]).is_prefix_of(parts(paths[i])));
            assert(path_under(paths[i], paths[index]));
        }
    }
    lemma_first_of_none(index as nat, probe);
    assert(probe(index) == Some(paths[index]));
    lemma_first_of((index + 1) as nat, paths.len(), probe);
}

proof fn lemma_found_itself(profile: Profile, findings: Seq<Resolution>, count: nat)
    requires
        is_separated(profile.executable, profile.data_directories),
        count <= profile.data_directories.len(),
    ensures
        found_directories(profile.data_directories, Some(profile), findings, count) == Ok::<
            Seq<Seq<char>>,
            Seq<char>,
        >(profile.data_directories.take(count as int)),
    decreases count,
{
    let paths = profile.data_directories;
    if count > 0 {
        lemma_found_itself(profile, findings, (count - 1) as nat);
        lemma_kept_itself(profile, count - 1);
        assert(paths.take(count - 1).push(paths[count - 1]) =~= paths.take(count as int));
    } else {
        assert(paths.take(0) =~= Seq::<Seq<char>>::empty());
    }
}

pub proof fn lemma_separated_is_faultless(executable: Seq<char>, paths: Seq<Seq<char>>)
    requires
        is_separated(executable, paths),
    ensures
        containment_fault(executable, paths) is None,
{
    if neighbours_agree(paths) {
        let i = choose|i: int|
            0 <= i < paths.len() - 1 && path_equal(#[trigger] paths[i], paths[i + 1]);
        assert(parts(paths[i]).is_prefix_of(parts(paths[i])));
        assert(path_under(paths[i], paths[i + 1]));
    }
    let probe = containment_at(executable, paths);
    assert forall|i: int| 0 <= i < paths.len() implies (#[trigger] probe(i)) is None by {
        assert(!path_under(executable, paths[i]));
        let inner = contained_behind(paths, i);
        let size = (paths.len() - i - 1) as nat;
        assert forall|k: int| 0 <= k < size implies (#[trigger] inner(k)) is None by {
            assert(!path_under(paths[i + 1 + k], paths[i]));
        }
        lemma_first_of_none(size, inner);
    }
    lemma_first_of_none(paths.len(), probe);
}

/// Normalizing is idempotent: a profile that was normalized and applied is found as it is again,
/// whatever the file system now says of its directories, as long as its executable is there.
pub proof fn applied_profiles_stay_as_they_are(
    profile: Profile,
    applied: Option<Profile>,
    findings: Findings,
    later: Findings,
)
    requires
        normalized(profile, applied, findings) is Ok,
        later.executable.is_file,
        later.executable.facts matches Ok(facts) && executable(facts.mode),
    ensures
        ({
            let result = normalized(profile, applied, findings)->Ok_0;
            normalized(result, Some(result), later) == Ok::<Profile, Seq<char>>(result)
        }),
{
    let result = normalized(profile, applied, findings)->Ok_0;
    let paths = result.data_directories;
    normalized_profiles_are_sound(profile, applied, findings);
    lemma_found_itself(result, later.directories@, paths.len());
    assert(paths.take(paths.len() as int) =~= paths);
    arranging_keeps_order(paths, by_path());
    lemma_separated_is_faultless(result.executable, paths);
}

/// Whether every path of a profile that one of its directories leads to leads to itself, as paths
/// without symbolic links do.
pub open spec fn lead_to_themselves(directories: Seq<Seq<char>>, found: Seq<Seq<char>>) -> bool {
    forall|i: int, j: int|
        0 <= i < directories.len() && 0 <= j < found.len() && path_equal(
            #[trigger] found[j],
            #[trigger] directories[i],
        ) ==> path_equal(found[i], directories[i])
}

/// Whether the file system says the same of the paths of a profile, as far as it is asked: of
/// directories that are taken as they were it is not.
pub open spec fn says_the_same(
    profile: Profile,
    applied: Option<Profile>,
    findings: Findings,
    later: Findings,
) -> bool {
    &&& findings.executable == later.executable
    &&& forall|i: int|
        0 <= i < profile.data_directories.len() && kept_directory(
            #[trigger] profile.data_directories[i],
            applied,
        ) is None ==> findings.directories@[i] == later.directories@[i]
}

/// Whether the directories of a profile are found, and each path that one of them leads to leads to
/// itself.
pub open spec fn is_resolved(profile: Profile, applied: Option<Profile>, findings: Findings) -> bool {
    found_directories(
        profile.data_directories,
        applied,
        findings.directories@,
        profile.data_directories.len(),
    ) matches Ok(found) && lead_to_themselves(profile.data_directories, found)
}

pub proof fn lemma_found_each(
    directories: Seq<Seq<char>>,
    applied: Option<Profile>,
    findings: Seq<Resolution>,
    count: nat,
)
    ensures
        found_directories(directories, applied, findings, count) matches Ok(found) ==> found.len()
            == count && forall|i: int|
            0 <= i < count ==> found_directory(directories[i], applied, findings[i]) == Ok::<
                Seq<char>,
                Seq<char>,
            >(#[trigger] found[i]),
    decreases count,
{
    if count > 0 {
        lemma_found_each(directories, applied, findings, (count - 1) as nat);
    }
}

pub proof fn lemma_found_all(
    directories: Seq<Seq<char>>,
    applied: Option<Profile>,
    findings: Seq<Resolution>,
    found: Seq<Seq<char>>,
    count: nat,
)
    requires
        count <= found.len(),
        forall|i: int|
            0 <= i < count ==> found_directory(directories[i], applied, findings[i]) == Ok::<
                Seq<char>,
                Seq<char>,
            >(#[trigger] found[i]),
    ensures
        found_directories(directories, applied, findings, count) == Ok::<
            Seq<Seq<char>>,
            Seq<char>,
        >(found.take(count as int)),
    decreases count,
{
    if count > 0 {
        lemma_found_all(directories, applied, findings, found, (count - 1) as nat);
        assert(found_directory(directories[count - 1], applied, findings[count - 1]) == Ok::<
            Seq<char>,
            Seq<char>,
        >(found[count - 1]));
        assert(found.take(count - 1).push(found[count - 1]) =~= found.take(count as int));
    } else {
        assert(found.take(0) =~= Seq::<Seq<char>>::empty());
    }
}

/// Where a directory was found, it is found again next to the profile that it became part of.
proof fn lemma_found_again(
    profile: Profile,
    applied: Option<Profile>,
    findings: Findings,
    result: Profile,
    later: Findings,
    found: Seq<Seq<char>>,
    index: int,
)
    requires
        normalized(profile, applied, findings) == Ok::<Profile, Seq<char>>(result),
        found_directories(
            profile.data_directories,
            applied,
            findings.directories@,
            profile.data_directories.len(),
        ) == Ok::<Seq<Seq<char>>, Seq<char>>(found),
        lead_to_themselves(profile.data_directories, found),
        says_the_same(profile, Some(result), findings, later),
        0 <= index < profile.data_directories.len(),
    ensures
        found_directory(profile.data_directories[index], Some(result), later.directories@[index])
            == Ok::<Seq<char>, Seq<char>>(found[index]),
{
    let directory = profile.data_directories[index];
    let paths = result.data_directories;
    let probe = matching_at(paths, directory);
    lemma_found_each(
        profile.data_directories,
        applied,
        findings.directories@,
        profile.data_directories.len(),
    );
    assert(found_directory(directory, applied, findings.directories@[index]) == Ok::<
        Seq<char>,
        Seq<char>,
    >(found[index]));
    normalized_profiles_are_sound(profile, applied, findings);
    arranging_keeps_the_items(found, by_path());
    assert(found.contains(found[index]));
    assert(paths.contains(found[index]));
    let place = choose|k: int| 0 <= k < paths.len() && paths[k] == found[index];
    if path_equal(found[index], directory) {
        assert(probe(place) == Some(found[index]));
        assert forall|i: int| 0 <= i < place implies (#[trigger] probe(i)) is None by {
            if path_equal(paths[i], directory) {
                assert(parts(paths[i]).is_prefix_of(parts(paths[i])));
                assert(path_under(paths[i], paths[place]));
            }
        }
        lemma_first_of_none(place as nat, probe);
        lemma_first_of((place + 1) as nat, paths.len(), probe);
    } else {
        assert forall|i: int| 0 <= i < paths.len() implies (#[trigger] probe(i)) is None by {
            if path_equal(paths[i], directory) {
                assert(paths.contains(paths[i]));
                assert(found.contains(paths[i]));
                let j = choose|j: int| 0 <= j < found.len() && found[j] == paths[i];
                assert(path_equal(found[j], profile.data_directories[index]));
            }
        }
        lemma_first_of_none(paths.len(), probe);
        assert(findings.directories@[index] == later.directories@[index]);
        if kept_directory(directory, applied) is Some {
            let old = applied->Some_0.data_directories;
            let k = lemma_first_of_some(old.len(), matching_at(old, directory));
            assert(path_equal(old[k], directory));
        }
    }
}

/// Normalizing is repeatable: a desired profile that was accepted is accepted again with the same
/// result, whether the snapshot of it is still the one from before or is what it became, as long as
/// the file system says the same of what it is asked. Directories that are protected by now need not
/// be looked at again.
pub proof fn profiles_are_found_again(
    profile: Profile,
    applied: Option<Profile>,
    findings: Findings,
    now: Option<Profile>,
    later: Findings,
)
    requires
        normalized(profile, applied, findings) is Ok,
        now == applied || now == Some(normalized(profile, applied, findings)->Ok_0),
        is_resolved(profile, applied, findings),
        says_the_same(profile, now, findings, later),
    ensures
        normalized(profile, now, later) == normalized(profile, applied, findings),
{
    let result = normalized(profile, applied, findings)->Ok_0;
    let directories = profile.data_directories;
    let count = directories.len();
    let found = found_directories(directories, applied, findings.directories@, count)->Ok_0;
    lemma_found_each(directories, applied, findings.directories@, count);
    assert forall|i: int| 0 <= i < count implies found_directory(
        directories[i],
        now,
        later.directories@[i],
    ) == Ok::<Seq<char>, Seq<char>>(#[trigger] found[i]) by {
        assert(found_directory(directories[i], applied, findings.directories@[i]) == Ok::<
            Seq<char>,
            Seq<char>,
        >(found[i]));
        if now == Some(result) {
            lemma_found_again(profile, applied, findings, result, later, found, i);
        } else if kept_directory(directories[i], applied) is None {
            assert(findings.directories@[i] == later.directories@[i]);
        }
    }
    lemma_found_all(directories, now, later.directories@, found, count);
    assert(found.take(count as int) =~= found);
    assert(found_executable(profile.executable, now, later.executable) == found_executable(
        profile.executable,
        applied,
        findings.executable,
    ));
}

} // verus!
