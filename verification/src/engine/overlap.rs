//! Profiles against each other: no two may manage the same executable or the same data.

use crate::config::listed;
use crate::engine::normalize::{
    is_resolved, is_separated, normalize_profile_with_applied, normalized,
    normalized_profiles_are_sound, profiles_are_found_again, says_the_same, Findings,
};
use crate::error::{fault, outcome, Error};
use crate::model::{known, profiles, Profile, ProtectionProfile};
use crate::order::{
    all_ranked, arrange, arranged, arranging_forgets_places, arranging_keeps_the_items,
    arranging_puts_in_order, lemma_arranged_map, lemma_arranged_once, lemma_same_items, orders,
};
use crate::path::{
    overlapping, path_equal, path_starts_with, path_under, paths_overlap, same_path,
};
use crate::policy::{profile_fault, verdict};
use crate::search::{first_of, lemma_first_of, lemma_first_of_none};
use crate::text::{text2, text5};
use vstd::prelude::*;

verus! {

/// How two profiles get in each other's way.
#[derive(Clone, Copy, Debug)]
pub enum Clash {
    /// They manage one executable.
    SameExecutable,
    /// A directory of the first and one of the second overlap.
    Directories(usize, usize),
    /// A directory of the first holds the executable of the second.
    HoldsExecutable(usize),
    /// A directory of the second holds the executable of the first.
    InsideDirectory(usize),
}

/// The overlap of a directory of the first profile with the one at an index of the second.
pub open spec fn overlap_at(first: Profile, second: Profile, index: int) -> spec_fn(int) -> Option<
    Clash,
> {
    |other: int|
        if overlapping(first.data_directories[index], second.data_directories[other]) {
            Some(Clash::Directories(index as usize, other as usize))
        } else {
            None
        }
}

/// How the directory at an index of the first profile gets in the way of the second.
pub open spec fn directory_clash_at(first: Profile, second: Profile) -> spec_fn(int) -> Option<
    Clash,
> {
    |index: int|
        match first_of(second.data_directories.len(), overlap_at(first, second, index)) {
            Some(clash) => Some(clash),
            None => if path_under(second.executable, first.data_directories[index]) {
                Some(Clash::HoldsExecutable(index as usize))
            } else {
                None
            },
        }
}

/// How the directory at an index of the second profile gets in the way of the first's executable.
pub open spec fn inside_at(first: Profile, second: Profile) -> spec_fn(int) -> Option<Clash> {
    |index: int|
        if path_under(first.executable, second.data_directories[index]) {
            Some(Clash::InsideDirectory(index as usize))
        } else {
            None
        }
}

/// The first way in which two profiles get in each other's way.
pub open spec fn clash_of(first: Profile, second: Profile) -> Option<Clash> {
    if path_equal(first.executable, second.executable) {
        Some(Clash::SameExecutable)
    } else {
        match first_of(first.data_directories.len(), directory_clash_at(first, second)) {
            Some(clash) => Some(clash),
            None => first_of(second.data_directories.len(), inside_at(first, second)),
        }
    }
}

fn find_overlap(first: &ProtectionProfile, second: &ProtectionProfile, index: usize) -> (result:
    Option<Clash>)
    requires
        index < first.data_directories@.len(),
    ensures
        result == first_of(
            second.data_directories@.len(),
            overlap_at(first@, second@, index as int),
        ),
{
    let ghost probe = overlap_at(first@, second@, index as int);
    let mut other: usize = 0;
    while other < second.data_directories.len()
        invariant
            index < first.data_directories@.len(),
            other <= second.data_directories@.len(),
            probe == overlap_at(first@, second@, index as int),
            first_of(other as nat, probe) is None,
        decreases second.data_directories.len() - other,
    {
        assert(first@.data_directories[index as int] == first.data_directories@[index as int]@);
        assert(second@.data_directories[other as int] == second.data_directories@[other as int]@);
        if paths_overlap(
            first.data_directories[index].as_str(),
            second.data_directories[other].as_str(),
        ) {
            proof {
                assert(probe(other as int) == Some(Clash::Directories(index, other)));
                lemma_first_of((other + 1) as nat, second.data_directories@.len(), probe);
            }
            return Some(Clash::Directories(index, other));
        }
        assert(probe(other as int) is None);
        other += 1;
    }
    None
}

/// Finds the first way in which two profiles get in each other's way.
pub fn find_clash(first: &ProtectionProfile, second: &ProtectionProfile) -> (result: Option<Clash>)
    ensures
        result == clash_of(first@, second@),
{
    if same_path(first.executable.as_str(), second.executable.as_str()) {
        return Some(Clash::SameExecutable);
    }
    let ghost probe = directory_clash_at(first@, second@);
    let mut index: usize = 0;
    while index < first.data_directories.len()
        invariant
            index <= first.data_directories@.len(),
            probe == directory_clash_at(first@, second@),
            !path_equal(first@.executable, second@.executable),
            first_of(index as nat, probe) is None,
        decreases first.data_directories.len() - index,
    {
        assert(first@.data_directories[index as int] == first.data_directories@[index as int]@);
        let mut found = find_overlap(first, second, index);
        if found.is_none() && path_starts_with(
            second.executable.as_str(),
            first.data_directories[index].as_str(),
        ) {
            found = Some(Clash::HoldsExecutable(index));
        }
        assert(probe(index as int) == found);
        if found.is_some() {
            proof {
                lemma_first_of((index + 1) as nat, first.data_directories@.len(), probe);
            }
            return found;
        }
        index += 1;
    }
    let ghost inner = inside_at(first@, second@);
    let mut other: usize = 0;
    while other < second.data_directories.len()
        invariant
            other <= second.data_directories@.len(),
            inner == inside_at(first@, second@),
            !path_equal(first@.executable, second@.executable),
            first_of(first@.data_directories.len(), directory_clash_at(first@, second@)) is None,
            first_of(other as nat, inner) is None,
        decreases second.data_directories.len() - other,
    {
        assert(second@.data_directories[other as int] == second.data_directories@[other as int]@);
        if path_starts_with(first.executable.as_str(), second.data_directories[other].as_str()) {
            proof {
                assert(inner(other as int) == Some(Clash::InsideDirectory(other)));
                lemma_first_of((other + 1) as nat, second.data_directories@.len(), inner);
            }
            return Some(Clash::InsideDirectory(other));
        }
        assert(inner(other as int) is None);
        other += 1;
    }
    None
}

pub proof fn lemma_clash_in_bounds(first: Profile, second: Profile)
    requires
        first.data_directories.len() <= usize::MAX,
        second.data_directories.len() <= usize::MAX,
    ensures
        match clash_of(first, second) {
            Some(Clash::Directories(index, other)) => index < first.data_directories.len() && other
                < second.data_directories.len(),
            Some(Clash::HoldsExecutable(index)) => index < first.data_directories.len(),
            Some(Clash::InsideDirectory(other)) => other < second.data_directories.len(),
            _ => true,
        },
{
    let outer = directory_clash_at(first, second);
    if first_of(first.data_directories.len(), outer) is Some {
        let index = crate::search::lemma_first_of_some(first.data_directories.len(), outer);
        let inner = overlap_at(first, second, index);
        if first_of(second.data_directories.len(), inner) is Some {
            let other = crate::search::lemma_first_of_some(second.data_directories.len(), inner);
        }
    } else if first_of(second.data_directories.len(), inside_at(first, second)) is Some {
        let other = crate::search::lemma_first_of_some(
            second.data_directories.len(),
            inside_at(first, second),
        );
    }
}

/// What is said of two desired profiles that get in each other's way.
pub open spec fn overlap_message(first: Profile, second: Profile, clash: Clash) -> Seq<char> {
    match clash {
        Clash::SameExecutable => "Profiles '"@ + first.name + "' and '"@ + second.name
            + "' use the same executable "@ + first.executable,
        Clash::Directories(index, other) => "Profiles '"@ + first.name + "' and '"@ + second.name
            + "' have overlapping data paths "@ + first.data_directories[index as int] + " and "@
            + second.data_directories[other as int],
        Clash::HoldsExecutable(_) => "Profile '"@ + first.name
            + "' contains the executable managed by '"@ + second.name + "'"@,
        Clash::InsideDirectory(_) => "Profile '"@ + second.name
            + "' contains the executable managed by '"@ + first.name + "'"@,
    }
}

/// What is wrong with two desired profiles next to each other.
pub open spec fn overlap_fault(first: Profile, second: Profile) -> Option<Seq<char>> {
    match clash_of(first, second) {
        Some(clash) => Some(overlap_message(first, second, clash)),
        None => None,
    }
}

/// Refuses two desired profiles that get in each other's way.
pub fn ensure_profiles_do_not_overlap(
    profile: &ProtectionProfile,
    other: &ProtectionProfile,
) -> (result: Result<(), Error>)
    ensures
        outcome(result) == verdict(overlap_fault(profile@, other@)),
{
    proof {
        assert(profile.data_directories.len() == profile@.data_directories.len());
        assert(other.data_directories.len() == other@.data_directories.len());
        lemma_clash_in_bounds(profile@, other@);
    }
    match find_clash(profile, other) {
        None => Ok(()),
        Some(clash) => {
            let message = match clash {
                Clash::SameExecutable => {
                    let mut message = text5(
                        "Profiles '",
                        profile.name.as_str(),
                        "' and '",
                        other.name.as_str(),
                        "' use the same executable ",
                    );
                    message.append(profile.executable.as_str());
                    message
                },
                Clash::Directories(index, second) => {
                    let mut message = text5(
                        "Profiles '",
                        profile.name.as_str(),
                        "' and '",
                        other.name.as_str(),
                        "' have overlapping data paths ",
                    );
                    message.append(profile.data_directories[index].as_str());
                    message.append(" and ");
                    message.append(other.data_directories[second].as_str());
                    message
                },
                Clash::HoldsExecutable(_) => text5(
                    "Profile '",
                    profile.name.as_str(),
                    "' contains the executable managed by '",
                    other.name.as_str(),
                    "'",
                ),
                Clash::InsideDirectory(_) => text5(
                    "Profile '",
                    other.name.as_str(),
                    "' contains the executable managed by '",
                    profile.name.as_str(),
                    "'",
                ),
            };
            Err(Error { message })
        },
    }
}

/// What is said of a profile that gets in the way of an installed one.
pub open spec fn conflict_message(profile: Profile, existing: Profile, clash: Clash) -> Seq<char> {
    let subject = match clash {
        Clash::SameExecutable => profile.executable + " is already managed by the Microvisor profile '"@,
        Clash::Directories(index, _) => profile.data_directories[index as int]
            + " overlaps a directory managed by the Microvisor profile '"@,
        Clash::HoldsExecutable(index) => profile.data_directories[index as int]
            + " contains an executable managed by the Microvisor profile '"@,
        Clash::InsideDirectory(_) => profile.executable
            + " is inside a directory managed by the Microvisor profile '"@,
    };
    subject + existing.name + "'"@
}

/// What is wrong with a profile next to an installed one. A profile does not conflict with its own
/// earlier version.
pub open spec fn conflict_fault(profile: Profile, existing: Profile) -> Option<Seq<char>> {
    if existing.id == profile.id {
        None
    } else {
        match clash_of(profile, existing) {
            Some(clash) => Some(conflict_message(profile, existing, clash)),
            None => None,
        }
    }
}

/// What is wrong with a profile next to what is stored at an index, or with reading that.
pub open spec fn stored_conflict_at(
    profile: Profile,
    stored: Seq<Result<ProtectionProfile, Error>>,
) -> spec_fn(int) -> Option<Seq<char>> {
    |index: int|
        match stored[index] {
            Err(error) => Some(error@),
            Ok(existing) => conflict_fault(profile, existing@),
        }
}

/// What is wrong with a profile next to everything that is stored.
pub open spec fn stored_conflict(
    profile: Profile,
    stored: Seq<Result<ProtectionProfile, Error>>,
) -> Option<Seq<char>> {
    first_of(stored.len(), stored_conflict_at(profile, stored))
}

fn find_conflict(profile: &ProtectionProfile, existing: &ProtectionProfile) -> (result: Option<
    Error,
>)
    ensures
        fault(result) == conflict_fault(profile@, existing@),
{
    if existing.id == profile.id {
        return None;
    }
    proof {
        assert(profile.data_directories.len() == profile@.data_directories.len());
        assert(existing.data_directories.len() == existing@.data_directories.len());
        lemma_clash_in_bounds(profile@, existing@);
    }
    match find_clash(profile, existing) {
        None => None,
        Some(clash) => {
            let mut message = match clash {
                Clash::SameExecutable => text2(
                    profile.executable.as_str(),
                    " is already managed by the Microvisor profile '",
                ),
                Clash::Directories(index, _) => text2(
                    profile.data_directories[index].as_str(),
                    " overlaps a directory managed by the Microvisor profile '",
                ),
                Clash::HoldsExecutable(index) => text2(
                    profile.data_directories[index].as_str(),
                    " contains an executable managed by the Microvisor profile '",
                ),
                Clash::InsideDirectory(_) => text2(
                    profile.executable.as_str(),
                    " is inside a directory managed by the Microvisor profile '",
                ),
            };
            message.append(existing.name.as_str());
            message.append("'");
            Some(Error { message })
        },
    }
}

/// Refuses a profile that gets in the way of an installed one. What is stored is given in the order
/// in which it was read.
pub fn ensure_no_profile_conflicts(
    profile: &ProtectionProfile,
    stored: &Vec<Result<ProtectionProfile, Error>>,
) -> (result: Result<(), Error>)
    ensures
        outcome(result) == verdict(stored_conflict(profile@, stored@)),
{
    let ghost probe = stored_conflict_at(profile@, stored@);
    let mut index: usize = 0;
    while index < stored.len()
        invariant
            index <= stored@.len(),
            probe == stored_conflict_at(profile@, stored@),
            first_of(index as nat, probe) is None,
        decreases stored.len() - index,
    {
        let found = match &stored[index] {
            Err(error) => Some(Error { message: error.message.clone() }),
            Ok(existing) => find_conflict(profile, existing),
        };
        assert(probe(index as int) == fault(found));
        if let Some(error) = found {
            proof {
                lemma_first_of((index + 1) as nat, stored@.len(), probe);
            }
            return Err(error);
        }
        index += 1;
    }
    Ok(())
}

/// The order of profiles: by their identifiers.
pub open spec fn by_id() -> spec_fn(Profile, Profile) -> bool {
    |left: Profile, right: Profile| left.id < right.id
}

pub proof fn lemma_by_id()
    ensures
        orders(by_id()),
{
}

/// Puts profiles in the order of their identifiers.
pub fn sort_profiles(list: Vec<ProtectionProfile>) -> (result: Vec<ProtectionProfile>)
    ensures
        profiles(result@) == arranged(profiles(list@), by_id()),
{
    let ghost before = |left: ProtectionProfile, right: ProtectionProfile| left.id < right.id;
    let precedes = |left: &ProtectionProfile, right: &ProtectionProfile| -> (answer: bool)
        ensures
            answer == (left.id < right.id),
        { left.id < right.id };
    let result = arrange(list, precedes, Ghost(before));
    proof {
        lemma_arranged_map(list@, before, |item: ProtectionProfile| item@, by_id());
    }
    result
}

/// The profile of a list with an identifier, at an index.
pub open spec fn with_id_at(list: Seq<Profile>, id: u128) -> spec_fn(int) -> Option<Profile> {
    |index: int|
        if list[index].id == id {
            Some(list[index])
        } else {
            None
        }
}

/// The first profile of a list with an identifier.
pub open spec fn with_id(list: Seq<Profile>, id: u128) -> Option<Profile> {
    first_of(list.len(), with_id_at(list, id))
}

/// Finds the profile with an identifier.
pub fn find_profile(list: &Vec<ProtectionProfile>, id: u128) -> (result: Option<&ProtectionProfile>)
    ensures
        known(result) == with_id(profiles(list@), id),
{
    let ghost all = profiles(list@);
    let ghost probe = with_id_at(all, id);
    let mut index: usize = 0;
    while index < list.len()
        invariant
            index <= list@.len(),
            all == profiles(list@),
            probe == with_id_at(all, id),
            first_of(index as nat, probe) is None,
        decreases list.len() - index,
    {
        assert(all[index as int] == list@[index as int]@);
        if list[index].id == id {
            proof {
                assert(probe(index as int) == Some(all[index as int]));
                lemma_first_of((index + 1) as nat, all.len(), probe);
            }
            return Some(&list[index]);
        }
        assert(probe(index as int) is None);
        index += 1;
    }
    None
}

/// The first `count` profiles with their paths where they really are, or the first error.
pub open spec fn all_normalized(
    list: Seq<Profile>,
    applied: Seq<Profile>,
    findings: Seq<Findings>,
    count: nat,
) -> Result<Seq<Profile>, Seq<char>>
    decreases count,
{
    if count == 0 {
        Ok(Seq::empty())
    } else {
        match all_normalized(list, applied, findings, (count - 1) as nat) {
            Err(message) => Err(message),
            Ok(before) => match normalized(
                list[count - 1],
                with_id(applied, list[count - 1].id),
                findings[count - 1],
            ) {
                Err(message) => Err(message),
                Ok(profile) => Ok(before.push(profile)),
            },
        }
    }
}

/// What is wrong with the profile at an index next to one behind it.
pub open spec fn overlap_behind(list: Seq<Profile>, index: int) -> spec_fn(int) -> Option<
    Seq<char>,
> {
    |offset: int| overlap_fault(list[index], list[index + 1 + offset])
}

/// What is wrong with the profile at an index next to those behind it.
pub open spec fn set_fault_at(list: Seq<Profile>) -> spec_fn(int) -> Option<Seq<char>> {
    |index: int| first_of((list.len() - index - 1) as nat, overlap_behind(list, index))
}

/// What is wrong with profiles next to each other.
pub open spec fn set_fault(list: Seq<Profile>) -> Option<Seq<char>> {
    first_of(list.len(), set_fault_at(list))
}

/// A set of desired profiles with their paths where they really are, in the order of their
/// identifiers, or why it is not accepted.
pub open spec fn validated(
    list: Seq<Profile>,
    applied: Seq<Profile>,
    findings: Seq<Findings>,
) -> Result<Seq<Profile>, Seq<char>> {
    match all_normalized(list, applied, findings, list.len()) {
        Err(message) => Err(message),
        Ok(found) => {
            let result = arranged(found, by_id());
            match set_fault(result) {
                Some(message) => Err(message),
                None => Ok(result),
            }
        },
    }
}

proof fn lemma_normalized_error(
    list: Seq<Profile>,
    applied: Seq<Profile>,
    findings: Seq<Findings>,
    hit: nat,
    count: nat,
)
    requires
        hit <= count,
        all_normalized(list, applied, findings, hit) is Err,
    ensures
        all_normalized(list, applied, findings, count) == all_normalized(
            list,
            applied,
            findings,
            hit,
        ),
    decreases count,
{
    if hit < count {
        lemma_normalized_error(list, applied, findings, hit, (count - 1) as nat);
    }
}

/// Whether every profile comes with what the file system says of its paths.
pub open spec fn findings_fit(list: Seq<ProtectionProfile>, findings: Seq<Findings>) -> bool {
    findings.len() == list.len() && forall|i: int|
        0 <= i < list.len() ==> (#[trigger] findings[i]).directories@.len()
            == list[i].data_directories@.len()
}

fn normalize_all(
    list: &Vec<ProtectionProfile>,
    applied: &Vec<ProtectionProfile>,
    findings: &Vec<Findings>,
) -> (result: Result<Vec<ProtectionProfile>, Error>)
    requires
        findings_fit(list@, findings@),
    ensures
        listed(result) == all_normalized(
            profiles(list@),
            profiles(applied@),
            findings@,
            list@.len(),
        ),
{
    let ghost all = profiles(list@);
    let mut found: Vec<ProtectionProfile> = Vec::new();
    assert(profiles(found@) =~= Seq::<Profile>::empty());
    let mut index: usize = 0;
    while index < list.len()
        invariant
            index <= list@.len(),
            findings_fit(list@, findings@),
            all == profiles(list@),
            all_normalized(all, profiles(applied@), findings@, index as nat) == Ok::<
                Seq<Profile>,
                Seq<char>,
            >(profiles(found@)),
        decreases list.len() - index,
    {
        assert(all[index as int] == list@[index as int]@);
        let profile = list[index].clone();
        let previous = find_profile(applied, profile.id);
        assert(findings@[index as int].directories@.len() == list@[index as int]@.data_directories.len());
        assert(profile.data_directories@.len() == profile@.data_directories.len());
        match normalize_profile_with_applied(profile, previous, &findings[index]) {
            Err(error) => {
                proof {
                    lemma_normalized_error(
                        all,
                        profiles(applied@),
                        findings@,
                        (index + 1) as nat,
                        all.len(),
                    );
                }
                return Err(error);
            },
            Ok(profile) => {
                let ghost before = found@;
                found.push(profile);
                assert(profiles(found@) =~= profiles(before).push(profile@));
            },
        }
        index += 1;
    }
    Ok(found)
}

fn check_behind(list: &Vec<ProtectionProfile>, index: usize) -> (result: Option<Error>)
    requires
        index < list@.len(),
    ensures
        fault(result) == set_fault_at(profiles(list@))(index as int),
{
    let ghost all = profiles(list@);
    let ghost probe = overlap_behind(all, index as int);
    let ghost size = (list@.len() - index - 1) as nat;
    assert(list.len() == list@.len());
    let mut other: usize = index + 1;
    while other < list.len()
        invariant
            index < other <= list@.len(),
            all == profiles(list@),
            probe == overlap_behind(all, index as int),
            size == list@.len() - index - 1,
            first_of((other - index - 1) as nat, probe) is None,
        decreases list.len() - other,
    {
        let ghost offset = other - index - 1;
        assert(index + 1 + offset == other);
        assert(all[other as int] == list@[other as int]@ && all[index as int]
            == list@[index as int]@);
        if let Err(error) = ensure_profiles_do_not_overlap(&list[index], &list[other]) {
            proof {
                assert(probe(offset) == Some(error@));
                lemma_first_of((offset + 1) as nat, size, probe);
            }
            return Some(error);
        }
        assert(probe(offset) is None);
        other += 1;
    }
    None
}

fn check_set(list: &Vec<ProtectionProfile>) -> (result: Result<(), Error>)
    ensures
        outcome(result) == verdict(set_fault(profiles(list@))),
{
    let ghost probe = set_fault_at(profiles(list@));
    let mut index: usize = 0;
    while index < list.len()
        invariant
            index <= list@.len(),
            probe == set_fault_at(profiles(list@)),
            first_of(index as nat, probe) is None,
        decreases list.len() - index,
    {
        let found = check_behind(list, index);
        assert(probe(index as int) == fault(found));
        if let Some(error) = found {
            proof {
                lemma_first_of((index + 1) as nat, list@.len(), probe);
            }
            return Err(error);
        }
        index += 1;
    }
    Ok(())
}

/// Validates a complete set of desired profiles, given the applied ones and what the file system
/// says of each.
pub fn validate_profiles_with_applied(
    list: Vec<ProtectionProfile>,
    applied: &Vec<ProtectionProfile>,
    findings: &Vec<Findings>,
) -> (result: Result<Vec<ProtectionProfile>, Error>)
    requires
        findings_fit(list@, findings@),
    ensures
        listed(result) == validated(profiles(list@), profiles(applied@), findings@),
{
    match normalize_all(&list, applied, findings) {
        Err(error) => Err(error),
        Ok(found) => {
            let sorted = sort_profiles(found);
            match check_set(&sorted) {
                Err(error) => Err(error),
                Ok(()) => Ok(sorted),
            }
        },
    }
}

/// Validates a complete set of desired profiles where none is applied.
pub fn validate_profiles(list: Vec<ProtectionProfile>, findings: &Vec<Findings>) -> (result: Result<
    Vec<ProtectionProfile>,
    Error,
>)
    requires
        findings_fit(list@, findings@),
    ensures
        listed(result) == validated(profiles(list@), Seq::empty(), findings@),
{
    let none: Vec<ProtectionProfile> = Vec::new();
    assert(profiles(none@) =~= Seq::<Profile>::empty());
    validate_profiles_with_applied(list, &none, findings)
}

/// Whether two profiles leave each other alone.
pub open spec fn are_apart(first: Profile, second: Profile) -> bool {
    &&& !path_equal(first.executable, second.executable)
    &&& forall|i: int, j: int|
        0 <= i < first.data_directories.len() && 0 <= j < second.data_directories.len()
            ==> !overlapping(#[trigger] first.data_directories[i], #[trigger] second.data_directories[j])
    &&& forall|i: int|
        0 <= i < first.data_directories.len() ==> !path_under(
            second.executable,
            #[trigger] first.data_directories[i],
        )
    &&& forall|j: int|
        0 <= j < second.data_directories.len() ==> !path_under(
            first.executable,
            #[trigger] second.data_directories[j],
        )
}

/// Two profiles clash exactly where they do not leave each other alone, in whichever order they are
/// compared.
pub proof fn clashes_are_symmetric(first: Profile, second: Profile)
    ensures
        clash_of(first, second) is None <==> are_apart(first, second),
        clash_of(second, first) is None <==> are_apart(first, second),
{
    lemma_clash_means(first, second);
    lemma_clash_means(second, first);
    if are_apart(first, second) {
        assert forall|i: int, j: int|
            0 <= i < second.data_directories.len() && 0 <= j < first.data_directories.len()
                implies !overlapping(
            #[trigger] second.data_directories[i],
            #[trigger] first.data_directories[j],
        ) by {
            assert(!overlapping(first.data_directories[j], second.data_directories[i]));
        }
    }
    if are_apart(second, first) {
        assert forall|i: int, j: int|
            0 <= i < first.data_directories.len() && 0 <= j < second.data_directories.len()
                implies !overlapping(
            #[trigger] first.data_directories[i],
            #[trigger] second.data_directories[j],
        ) by {
            assert(!overlapping(second.data_directories[j], first.data_directories[i]));
        }
    }
}

pub proof fn lemma_clash_means(first: Profile, second: Profile)
    ensures
        clash_of(first, second) is None <==> are_apart(first, second),
{
    let size = first.data_directories.len();
    let count = second.data_directories.len();
    let outer = directory_clash_at(first, second);
    lemma_first_of_none(size, outer);
    lemma_first_of_none(count, inside_at(first, second));
    if clash_of(first, second) is None {
        assert forall|i: int, j: int| 0 <= i < size && 0 <= j < count implies !overlapping(
            #[trigger] first.data_directories[i],
            #[trigger] second.data_directories[j],
        ) by {
            assert(outer(i) is None);
            lemma_first_of_none(count, overlap_at(first, second, i));
            assert(overlap_at(first, second, i)(j) is None);
        }
        assert forall|i: int| 0 <= i < size implies !path_under(
            second.executable,
            #[trigger] first.data_directories[i],
        ) by {
            assert(outer(i) is None);
        }
        assert forall|j: int| 0 <= j < count implies !path_under(
            first.executable,
            #[trigger] second.data_directories[j],
        ) by {
            assert(inside_at(first, second)(j) is None);
        }
    }
    if are_apart(first, second) {
        assert forall|i: int| 0 <= i < size implies (#[trigger] outer(i)) is None by {
            let inner = overlap_at(first, second, i);
            assert forall|j: int| 0 <= j < count implies (#[trigger] inner(j)) is None by {
                assert(!overlapping(first.data_directories[i], second.data_directories[j]));
            }
            lemma_first_of_none(count, inner);
        }
        let inside = inside_at(first, second);
        assert forall|j: int| 0 <= j < count implies (#[trigger] inside(j)) is None by {
            assert(!path_under(first.executable, second.data_directories[j]));
        }
    }
}

proof fn lemma_all_normalized(
    list: Seq<Profile>,
    applied: Seq<Profile>,
    findings: Seq<Findings>,
    count: nat,
)
    requires
        count <= list.len(),
    ensures
        all_normalized(list, applied, findings, count) matches Ok(found) ==> {
            &&& found.len() == count
            &&& forall|i: int|
                0 <= i < count ==> profile_fault(#[trigger] found[i]) is None && is_separated(
                    found[i].executable,
                    found[i].data_directories,
                ) && found[i].id == list[i].id
        },
    decreases count,
{
    if count > 0 {
        lemma_all_normalized(list, applied, findings, (count - 1) as nat);
        if all_normalized(list, applied, findings, count) is Ok {
            let last = list[count - 1];
            normalized_profiles_are_sound(last, with_id(applied, last.id), findings[count - 1]);
        }
    }
}

/// In a validated set every profile is valid and in itself free of overlaps, the profiles stand in
/// the order of their identifiers, and any two of them leave each other alone.
pub proof fn validated_sets_are_sound(
    list: Seq<Profile>,
    applied: Seq<Profile>,
    findings: Seq<Findings>,
)
    requires
        validated(list, applied, findings) is Ok,
    ensures
        ({
            let result = validated(list, applied, findings)->Ok_0;
            &&& result.len() == list.len()
            &&& forall|i: int|
                0 <= i < result.len() ==> profile_fault(#[trigger] result[i]) is None
                    && is_separated(result[i].executable, result[i].data_directories)
            &&& forall|i: int, j: int|
                0 <= i < j < result.len() ==> (#[trigger] result[i]).id <= (
                #[trigger] result[j]).id && are_apart(result[i], result[j])
        }),
{
    let found = all_normalized(list, applied, findings, list.len())->Ok_0;
    let result = arranged(found, by_id());
    lemma_all_normalized(list, applied, findings, list.len());
    arranging_keeps_the_items(found, by_id());
    lemma_by_id();
    arranging_puts_in_order(found, by_id());
    assert forall|i: int| 0 <= i < result.len() implies profile_fault(#[trigger] result[i]) is None
        && is_separated(result[i].executable, result[i].data_directories) by {
        lemma_from(found, i);
    }
    lemma_first_of_none(result.len(), set_fault_at(result));
    assert forall|i: int, j: int| 0 <= i < j < result.len() implies (#[trigger] result[i]).id <= (
    #[trigger] result[j]).id && are_apart(result[i], result[j]) by {
        assert(!by_id()(result[j], result[i]));
        assert(set_fault_at(result)(i) is None);
        let inner = overlap_behind(result, i);
        lemma_first_of_none((result.len() - i - 1) as nat, inner);
        assert(i + 1 + (j - i - 1) == j);
        assert(inner(j - i - 1) is None);
        clashes_are_symmetric(result[i], result[j]);
    }
}

/// A desired profile, with what the file system says of its paths.
pub struct Submission {
    pub profile: Profile,
    pub findings: Findings,
}

pub open spec fn submitted(list: Seq<Submission>) -> Seq<Profile> {
    list.map_values(|item: Submission| item.profile)
}

pub open spec fn examined(list: Seq<Submission>) -> Seq<Findings> {
    list.map_values(|item: Submission| item.findings)
}

/// What one desired profile comes to.
pub open spec fn settled(item: Submission, applied: Seq<Profile>) -> Result<Profile, Seq<char>> {
    normalized(item.profile, with_id(applied, item.profile.id), item.findings)
}

/// Whether no two of them are for one identifier.
pub open spec fn are_distinct(list: Seq<Submission>) -> bool {
    forall|i: int, j: int|
        0 <= i < list.len() && 0 <= j < list.len() && i != j ==> (#[trigger] list[i]).profile.id
            != (#[trigger] list[j]).profile.id
}

proof fn lemma_all_settled(list: Seq<Submission>, applied: Seq<Profile>, count: nat)
    requires
        count <= list.len(),
    ensures
        match all_normalized(submitted(list), applied, examined(list), count) {
            Ok(found) => {
                &&& found.len() == count
                &&& forall|i: int|
                    0 <= i < count ==> settled(#[trigger] list[i], applied) == Ok::<
                        Profile,
                        Seq<char>,
                    >(found[i])
            },
            Err(_) => exists|i: int| 0 <= i < count && settled(#[trigger] list[i], applied) is Err,
        },
    decreases count,
{
    if count > 0 {
        lemma_all_settled(list, applied, (count - 1) as nat);
        assert(submitted(list)[count - 1] == list[count - 1].profile);
        assert(examined(list)[count - 1] == list[count - 1].findings);
        if all_normalized(submitted(list), applied, examined(list), (count - 1) as nat) is Ok {
            let last = settled(list[count - 1], applied);
        }
    }
}

/// What comes of some profiles, and of the same ones in other places.
proof fn lemma_settled_alike(left: Seq<Submission>, right: Seq<Submission>, applied: Seq<Profile>)
    requires
        left.to_multiset() == right.to_multiset(),
        are_distinct(left),
    ensures
        ({
            let first = all_normalized(submitted(left), applied, examined(left), left.len());
            let second = all_normalized(submitted(right), applied, examined(right), right.len());
            &&& first is Ok <==> second is Ok
            &&& first is Ok ==> {
                &&& first->Ok_0.len() == second->Ok_0.len()
                &&& first->Ok_0.no_duplicates()
                &&& second->Ok_0.no_duplicates()
                &&& all_ranked(first->Ok_0, by_id())
                &&& forall|item: Profile| #[trigger]
                    first->Ok_0.contains(item) <==> second->Ok_0.contains(item)
            }
        }),
{
    lemma_same_members(left, right);
    lemma_all_settled(left, applied, left.len());
    lemma_all_settled(right, applied, right.len());
    let first = all_normalized(submitted(left), applied, examined(left), left.len());
    let second = all_normalized(submitted(right), applied, examined(right), right.len());
    if first is Err {
        lemma_unsettled_member(left, right, applied);
    }
    if second is Err {
        lemma_unsettled_member(right, left, applied);
    }
    if first is Ok && second is Ok {
        lemma_settled_ids(left, applied, first->Ok_0);
        lemma_settled_ids(right, applied, second->Ok_0);
        assert forall|item: Profile| #[trigger] first->Ok_0.contains(item) implies second->Ok_0.contains(item) by {
            lemma_settled_member(left, right, applied, first->Ok_0, second->Ok_0, item);
        }
        assert forall|item: Profile| #[trigger] second->Ok_0.contains(item) implies first->Ok_0.contains(item) by {
            lemma_settled_member(right, left, applied, second->Ok_0, first->Ok_0, item);
        }
    }
}

proof fn lemma_unsettled_member(
    left: Seq<Submission>,
    right: Seq<Submission>,
    applied: Seq<Profile>,
)
    requires
        forall|item: Submission| #[trigger] left.contains(item) <==> right.contains(item),
        exists|i: int| 0 <= i < left.len() && settled(#[trigger] left[i], applied) is Err,
    ensures
        exists|i: int| 0 <= i < right.len() && settled(#[trigger] right[i], applied) is Err,
{
    let i = choose|i: int| 0 <= i < left.len() && settled(#[trigger] left[i], applied) is Err;
    assert(left.contains(left[i]));
    assert(right.contains(left[i]));
    let j = choose|j: int| 0 <= j < right.len() && right[j] == left[i];
    assert(settled(right[j], applied) is Err);
}

proof fn lemma_same_members(left: Seq<Submission>, right: Seq<Submission>)
    requires
        left.to_multiset() == right.to_multiset(),
        are_distinct(left),
    ensures
        left.len() == right.len(),
        forall|item: Submission| #[trigger] left.contains(item) <==> right.contains(item),
        are_distinct(right),
{
    assert forall|i: int, j: int|
        0 <= i < left.len() && 0 <= j < left.len() && i != j implies left[i] != left[j] by {
        assert(left[i].profile.id != left[j].profile.id);
    }
    lemma_same_items(left, right);
    assert forall|i: int, j: int|
        0 <= i < right.len() && 0 <= j < right.len() && i != j implies (
    #[trigger] right[i]).profile.id != (#[trigger] right[j]).profile.id by {
        assert(right.contains(right[i]) && right.contains(right[j]));
        assert(left.contains(right[i]) && left.contains(right[j]));
        let a = choose|a: int| 0 <= a < left.len() && left[a] == right[i];
        let b = choose|b: int| 0 <= b < left.len() && left[b] == right[j];
        assert(right[i] != right[j]);
    }
}

proof fn lemma_settled_ids(list: Seq<Submission>, applied: Seq<Profile>, found: Seq<Profile>)
    requires
        are_distinct(list),
        found.len() == list.len(),
        forall|i: int|
            0 <= i < list.len() ==> settled(#[trigger] list[i], applied) == Ok::<
                Profile,
                Seq<char>,
            >(found[i]),
    ensures
        found.no_duplicates(),
        all_ranked(found, by_id()),
{
    assert forall|i: int| 0 <= i < list.len() implies (#[trigger] found[i]).id
        == list[i].profile.id by {
        let item = list[i];
        assert(settled(item, applied) is Ok);
        normalized_profiles_are_sound(
            item.profile,
            with_id(applied, item.profile.id),
            item.findings,
        );
    }
    assert forall|i: int, j: int|
        0 <= i < found.len() && 0 <= j < found.len() && i != j implies found[i] != found[j] by {
        assert(list[i].profile.id != list[j].profile.id);
        assert(found[i].id != found[j].id);
    }
    assert forall|a: Profile, b: Profile|
        #[trigger] found.contains(a) && #[trigger] found.contains(b) && a != b implies by_id()(a, b)
        || by_id()(b, a) by {
        let i = choose|i: int| 0 <= i < found.len() && found[i] == a;
        let j = choose|j: int| 0 <= j < found.len() && found[j] == b;
        assert(list[i].profile.id != list[j].profile.id);
    }
}

proof fn lemma_settled_member(
    left: Seq<Submission>,
    right: Seq<Submission>,
    applied: Seq<Profile>,
    first: Seq<Profile>,
    second: Seq<Profile>,
    item: Profile,
)
    requires
        forall|item: Submission| #[trigger] left.contains(item) <==> right.contains(item),
        first.len() == left.len(),
        second.len() == right.len(),
        forall|i: int|
            0 <= i < left.len() ==> settled(#[trigger] left[i], applied) == Ok::<
                Profile,
                Seq<char>,
            >(first[i]),
        forall|i: int|
            0 <= i < right.len() ==> settled(#[trigger] right[i], applied) == Ok::<
                Profile,
                Seq<char>,
            >(second[i]),
        first.contains(item),
    ensures
        second.contains(item),
{
    let i = choose|i: int| 0 <= i < first.len() && first[i] == item;
    assert(left.contains(left[i]));
    assert(right.contains(left[i]));
    let j = choose|j: int| 0 <= j < right.len() && right[j] == left[i];
    assert(settled(right[j], applied) == Ok::<Profile, Seq<char>>(second[j]));
    assert(settled(left[i], applied) == Ok::<Profile, Seq<char>>(first[i]));
    assert(second[j] == item);
}

/// It does not matter in which order profiles are desired: the same ones in other places are accepted
/// with the same result, or refused as well. What is accepted is what each profile by itself comes
/// to.
pub proof fn validation_ignores_the_order(
    left: Seq<Submission>,
    right: Seq<Submission>,
    applied: Seq<Profile>,
)
    requires
        left.to_multiset() == right.to_multiset(),
        are_distinct(left),
    ensures
        ({
            let first = validated(submitted(left), applied, examined(left));
            let second = validated(submitted(right), applied, examined(right));
            &&& first is Ok <==> second is Ok
            &&& first is Ok ==> second == first
            &&& first matches Ok(result) ==> {
                &&& result.len() == left.len()
                &&& forall|i: int|
                    0 <= i < left.len() ==> settled(#[trigger] left[i], applied) is Ok
                        && result.contains(settled(left[i], applied)->Ok_0)
            }
        }),
{
    let first = all_normalized(submitted(left), applied, examined(left), left.len());
    let second = all_normalized(submitted(right), applied, examined(right), right.len());
    lemma_settled_alike(left, right, applied);
    lemma_all_settled(left, applied, left.len());
    assert(submitted(left).len() == left.len() && submitted(right).len() == right.len());
    if first is Ok {
        lemma_by_id();
        arranging_forgets_places(first->Ok_0, second->Ok_0, by_id());
        arranging_keeps_the_items(first->Ok_0, by_id());
        assert forall|i: int| 0 <= i < left.len() implies settled(#[trigger] left[i], applied) is Ok
            && arranged(first->Ok_0, by_id()).contains(settled(left[i], applied)->Ok_0) by {
            assert(first->Ok_0.contains(first->Ok_0[i]));
        }
    }
}

/// In a validated set no identifier stands twice where none is desired twice.
pub proof fn validated_ids_are_distinct(list: Seq<Submission>, applied: Seq<Profile>)
    requires
        are_distinct(list),
        validated(submitted(list), applied, examined(list)) is Ok,
    ensures
        ({
            let result = validated(submitted(list), applied, examined(list))->Ok_0;
            forall|i: int, j: int|
                0 <= i < result.len() && 0 <= j < result.len() && i != j ==> (
                #[trigger] result[i]).id != (#[trigger] result[j]).id
        }),
{
    let found = all_normalized(submitted(list), applied, examined(list), list.len())->Ok_0;
    let result = arranged(found, by_id());
    assert(submitted(list).len() == list.len());
    lemma_all_settled(list, applied, list.len());
    lemma_settled_ids(list, applied, found);
    lemma_arranged_once(found, by_id());
    arranging_keeps_the_items(found, by_id());
    assert forall|i: int, j: int|
        0 <= i < result.len() && 0 <= j < result.len() && i != j implies (#[trigger] result[i]).id
        != (#[trigger] result[j]).id by {
        assert(result.contains(result[i]) && result.contains(result[j]));
        assert(found.contains(result[i]) && found.contains(result[j]));
        assert(result[i] != result[j]);
    }
}

/// Whether a desired profile is to be found again as it was found: what is applied of it is what was
/// applied before or what it became, and the file system says the same of what it is asked.
pub open spec fn is_found_again(
    item: Submission,
    applied: Seq<Profile>,
    later: Submission,
    now: Seq<Profile>,
) -> bool {
    let id = item.profile.id;
    &&& later.profile == item.profile
    &&& is_resolved(item.profile, with_id(applied, id), item.findings)
    &&& says_the_same(item.profile, with_id(now, id), item.findings, later.findings)
    &&& settled(item, applied) matches Ok(result) ==> with_id(now, id) == with_id(applied, id)
        || with_id(now, id) == Some(result)
}

/// Validation is repeatable: desired profiles that were accepted are accepted again with the same
/// result, next to the snapshots that came of applying them.
pub proof fn validation_is_repeatable(
    list: Seq<Submission>,
    applied: Seq<Profile>,
    later: Seq<Submission>,
    now: Seq<Profile>,
)
    requires
        validated(submitted(list), applied, examined(list)) is Ok,
        later.len() == list.len(),
        forall|i: int|
            0 <= i < list.len() ==> is_found_again(
                #[trigger] list[i],
                applied,
                later[i],
                now,
            ),
    ensures
        validated(submitted(later), now, examined(later)) == validated(
            submitted(list),
            applied,
            examined(list),
        ),
{
    assert(submitted(list).len() == list.len() && submitted(later).len() == later.len());
    lemma_all_settled(list, applied, list.len());
    assert forall|i: int| 0 <= i < list.len() implies settled(#[trigger] list[i], applied) is Ok
        && settled(later[i], now) == settled(list[i], applied) by {
        let item = list[i];
        assert(is_found_again(item, applied, later[i], now));
        profiles_are_found_again(
            item.profile,
            with_id(applied, item.profile.id),
            item.findings,
            with_id(now, item.profile.id),
            later[i].findings,
        );
    }
    lemma_settled_again(list, applied, later, now, list.len());
}

proof fn lemma_settled_again(
    list: Seq<Submission>,
    applied: Seq<Profile>,
    later: Seq<Submission>,
    now: Seq<Profile>,
    count: nat,
)
    requires
        count <= list.len() == later.len(),
        forall|i: int|
            0 <= i < list.len() ==> settled(#[trigger] list[i], applied) is Ok && settled(
                later[i],
                now,
            ) == settled(list[i], applied),
    ensures
        all_normalized(submitted(later), now, examined(later), count) == all_normalized(
            submitted(list),
            applied,
            examined(list),
            count,
        ),
    decreases count,
{
    if count > 0 {
        lemma_settled_again(list, applied, later, now, (count - 1) as nat);
        assert(settled(later[count - 1], now) == settled(list[count - 1], applied));
        assert(submitted(list)[count - 1] == list[count - 1].profile);
        assert(examined(list)[count - 1] == list[count - 1].findings);
        assert(submitted(later)[count - 1] == later[count - 1].profile);
        assert(examined(later)[count - 1] == later[count - 1].findings);
    }
}

proof fn lemma_from(found: Seq<Profile>, index: int)
    requires
        0 <= index < found.len(),
    ensures
        arranged(found, by_id()).len() == found.len(),
        exists|k: int| 0 <= k < found.len() && #[trigger] found[k] == arranged(found, by_id())[index],
{
    arranging_keeps_the_items(found, by_id());
    let item = arranged(found, by_id())[index];
    assert(arranged(found, by_id()).contains(item));
    assert(found.contains(item));
}

} // verus!
