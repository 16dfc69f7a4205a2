//! Desired, applied and observed profiles next to each other.

use crate::config::listed;
use crate::engine::normalize::Findings;
use crate::engine::overlap::{
    find_profile, findings_fit, validate_profiles_with_applied, validated, with_id,
};
use crate::engine::state::{applied_profiles, load_all_states, StoredState};
use crate::error::{outcome, Error};
use crate::model::{profiles, same_profile, Profile, ProtectionProfile};
use crate::order::{arrange, arranged, arranging_keeps_the_items, lemma_arranged_map};
use crate::search::{first_of, lemma_first_of, lemma_first_of_some};
use vstd::prelude::*;

verus! {

/// How a profile stands.
#[derive(Debug)]
pub struct ProfileStatus {
    pub id: u128,
    pub name: String,
    pub state: &'static str,
}

/// How a profile stands, as a value.
pub struct StatusRow {
    pub id: u128,
    pub name: Seq<char>,
    pub state: Seq<char>,
}

impl View for ProfileStatus {
    type V = StatusRow;

    open spec fn view(&self) -> StatusRow {
        StatusRow { id: self.id, name: self.name@, state: self.state@ }
    }
}

pub open spec fn rows(list: Seq<ProfileStatus>) -> Seq<StatusRow> {
    list.map_values(|item: ProfileStatus| item@)
}

/// Whether a desired profile is applied as it is asked for.
pub open spec fn is_current(profile: Profile, applied: Seq<Profile>) -> bool {
    with_id(applied, profile.id) matches Some(snapshot) && same_profile(snapshot, profile)
}

/// How a desired profile stands, given whether it was found in force.
pub open spec fn state_of(
    profile: Profile,
    applied: Seq<Profile>,
    observed: Result<bool, Seq<char>>,
) -> Result<Seq<char>, Seq<char>> {
    if with_id(applied, profile.id) is None {
        Ok("not-applied"@)
    } else if !is_current(profile, applied) {
        Ok("configuration-drift"@)
    } else {
        match observed {
            Err(message) => Err(message),
            Ok(false) => Ok("system-drift"@),
            Ok(true) => Ok("applied"@),
        }
    }
}

/// How the first `count` desired profiles stand, or the first error.
pub open spec fn desired_rows(
    desired: Seq<Profile>,
    applied: Seq<Profile>,
    observed: Seq<Result<bool, Error>>,
    count: nat,
) -> Result<Seq<StatusRow>, Seq<char>>
    decreases count,
{
    if count == 0 {
        Ok(Seq::empty())
    } else {
        match desired_rows(desired, applied, observed, (count - 1) as nat) {
            Err(message) => Err(message),
            Ok(before) => {
                let profile = desired[count - 1];
                match state_of(profile, applied, outcome(observed[count - 1])) {
                    Err(message) => Err(message),
                    Ok(state) => Ok(
                        before.push(StatusRow { id: profile.id, name: profile.name, state }),
                    ),
                }
            },
        }
    }
}

/// The rows of those of the first `count` applied profiles that nobody asks for any more.
pub open spec fn leftover_rows(applied: Seq<Profile>, desired: Seq<Profile>, count: nat) -> Seq<
    StatusRow,
>
    decreases count,
{
    if count == 0 {
        Seq::empty()
    } else {
        let before = leftover_rows(applied, desired, (count - 1) as nat);
        let profile = applied[count - 1];
        if with_id(desired, profile.id) is Some {
            before
        } else {
            before.push(
                StatusRow {
                    id: profile.id,
                    name: profile.name,
                    state: "installed-without-config"@,
                },
            )
        }
    }
}

/// The order of rows: by the identifiers of their profiles.
pub open spec fn by_row() -> spec_fn(StatusRow, StatusRow) -> bool {
    |left: StatusRow, right: StatusRow| left.id < right.id
}

pub open spec fn all_applied(list: Seq<StatusRow>) -> bool {
    forall|i: int| 0 <= i < list.len() ==> (#[trigger] list[i]).state == "applied"@
}

/// How all profiles stand, in the order of their identifiers, and whether the system is as it is
/// asked for.
pub open spec fn reported(
    desired: Seq<Profile>,
    applied: Seq<Profile>,
    observed: Seq<Result<bool, Error>>,
) -> Result<(Seq<StatusRow>, bool), Seq<char>> {
    match desired_rows(desired, applied, observed, desired.len()) {
        Err(message) => Err(message),
        Ok(first) => {
            let second = leftover_rows(applied, desired, applied.len());
            Ok((arranged(first + second, by_row()), all_applied(first) && second.len() == 0))
        },
    }
}

/// What a result with a report says.
pub open spec fn told(result: Result<(Vec<ProfileStatus>, bool), Error>) -> Result<
    (Seq<StatusRow>, bool),
    Seq<char>,
> {
    match result {
        Ok((list, converged)) => Ok((rows(list@), converged)),
        Err(error) => Err(error@),
    }
}

/// Whether it matters for the report if a desired profile is in force.
pub fn needs_observation(profile: &ProtectionProfile, applied: &Vec<ProtectionProfile>) -> (result:
    bool)
    ensures
        result == is_current(profile@, profiles(applied@)),
{
    match find_profile(applied, profile.id) {
        None => false,
        Some(snapshot) => *snapshot == *profile,
    }
}

fn judge(
    profile: &ProtectionProfile,
    applied: &Vec<ProtectionProfile>,
    observed: &Result<bool, Error>,
) -> (result: Result<&'static str, Error>)
    ensures
        match result {
            Ok(state) => state_of(profile@, profiles(applied@), outcome(*observed)) == Ok::<
                Seq<char>,
                Seq<char>,
            >(state@),
            Err(error) => state_of(profile@, profiles(applied@), outcome(*observed)) == Err::<
                Seq<char>,
                Seq<char>,
            >(error@),
        },
{
    match find_profile(applied, profile.id) {
        None => Ok("not-applied"),
        Some(snapshot) => if *snapshot != *profile {
            Ok("configuration-drift")
        } else {
            match observed {
                Err(error) => Err(Error { message: error.message.clone() }),
                Ok(false) => Ok("system-drift"),
                Ok(true) => Ok("applied"),
            }
        },
    }
}

proof fn lemma_rows_error(
    desired: Seq<Profile>,
    applied: Seq<Profile>,
    observed: Seq<Result<bool, Error>>,
    hit: nat,
    count: nat,
)
    requires
        hit <= count,
        desired_rows(desired, applied, observed, hit) is Err,
    ensures
        desired_rows(desired, applied, observed, count) == desired_rows(
            desired,
            applied,
            observed,
            hit,
        ),
    decreases count,
{
    if hit < count {
        lemma_rows_error(desired, applied, observed, hit, (count - 1) as nat);
    }
}

fn is_applied(state: &str) -> (result: bool)
    ensures
        result == (state@ == "applied"@),
{
    crate::text::same_text(state, "applied")
}

fn list_desired(
    desired: &Vec<ProtectionProfile>,
    applied: &Vec<ProtectionProfile>,
    observed: &Vec<Result<bool, Error>>,
) -> (result: Result<(Vec<ProfileStatus>, bool), Error>)
    requires
        observed@.len() == desired@.len(),
    ensures
        match result {
            Ok((list, converged)) => desired_rows(
                profiles(desired@),
                profiles(applied@),
                observed@,
                desired@.len(),
            ) == Ok::<Seq<StatusRow>, Seq<char>>(rows(list@)) && converged == all_applied(
                rows(list@),
            ),
            Err(error) => desired_rows(
                profiles(desired@),
                profiles(applied@),
                observed@,
                desired@.len(),
            ) == Err::<Seq<StatusRow>, Seq<char>>(error@),
        },
{
    let ghost all = profiles(desired@);
    let ghost installed = profiles(applied@);
    let mut list: Vec<ProfileStatus> = Vec::new();
    let mut converged = true;
    assert(rows(list@) =~= Seq::<StatusRow>::empty());
    let mut index: usize = 0;
    while index < desired.len()
        invariant
            index <= desired@.len() == observed@.len(),
            all == profiles(desired@),
            installed == profiles(applied@),
            desired_rows(all, installed, observed@, index as nat) == Ok::<
                Seq<StatusRow>,
                Seq<char>,
            >(rows(list@)),
            converged == all_applied(rows(list@)),
        decreases desired.len() - index,
    {
        assert(all[index as int] == desired@[index as int]@);
        let profile = &desired[index];
        match judge(profile, applied, &observed[index]) {
            Err(error) => {
                proof {
                    lemma_rows_error(all, installed, observed@, (index + 1) as nat, all.len());
                }
                return Err(error);
            },
            Ok(state) => {
                let ghost before = list@;
                converged = converged && is_applied(state);
                let row = ProfileStatus { id: profile.id, name: profile.name.clone(), state };
                list.push(row);
                proof {
                    assert(rows(list@) =~= rows(before).push(row@));
                    assert(rows(list@)[before.len() as int] == row@);
                    if all_applied(rows(before)) && row@.state == "applied"@ {
                        assert forall|i: int| 0 <= i < rows(list@).len() implies (
                        #[trigger] rows(list@)[i]).state == "applied"@ by {
                            if i < before.len() {
                                assert(rows(list@)[i] == rows(before)[i]);
                            }
                        }
                    }
                    if all_applied(rows(list@)) {
                        assert forall|i: int| 0 <= i < rows(before).len() implies (
                        #[trigger] rows(before)[i]).state == "applied"@ by {
                            assert(rows(list@)[i] == rows(before)[i]);
                        }
                    }
                }
            },
        }
        index += 1;
    }
    Ok((list, converged))
}

fn add_leftovers(
    list: &mut Vec<ProfileStatus>,
    applied: &Vec<ProtectionProfile>,
    desired: &Vec<ProtectionProfile>,
) -> (result: bool)
    ensures
        rows(final(list)@) == rows(old(list)@) + leftover_rows(
            profiles(applied@),
            profiles(desired@),
            applied@.len(),
        ),
        result == (leftover_rows(profiles(applied@), profiles(desired@), applied@.len()).len() > 0),
{
    let ghost head = rows(list@);
    let ghost all = profiles(applied@);
    let ghost wanted = profiles(desired@);
    let mut found = false;
    assert(head + leftover_rows(all, wanted, 0) =~= head);
    let mut index: usize = 0;
    while index < applied.len()
        invariant
            index <= applied@.len(),
            all == profiles(applied@),
            wanted == profiles(desired@),
            rows(list@) == head + leftover_rows(all, wanted, index as nat),
            found == (leftover_rows(all, wanted, index as nat).len() > 0),
        decreases applied.len() - index,
    {
        assert(all[index as int] == applied@[index as int]@);
        let profile = &applied[index];
        if find_profile(desired, profile.id).is_none() {
            let ghost before = list@;
            let row = ProfileStatus {
                id: profile.id,
                name: profile.name.clone(),
                state: "installed-without-config",
            };
            list.push(row);
            found = true;
            assert(rows(list@) =~= rows(before).push(row@));
        }
        assert(rows(list@) =~= head + leftover_rows(all, wanted, (index + 1) as nat));
        index += 1;
    }
    found
}

fn sort_rows(list: Vec<ProfileStatus>) -> (result: Vec<ProfileStatus>)
    ensures
        rows(result@) == arranged(rows(list@), by_row()),
{
    let ghost before = |left: ProfileStatus, right: ProfileStatus| left.id < right.id;
    let precedes = |left: &ProfileStatus, right: &ProfileStatus| -> (answer: bool)
        ensures
            answer == (left.id < right.id),
        { left.id < right.id };
    let result = arrange(list, precedes, Ghost(before));
    proof {
        lemma_arranged_map(list@, before, |item: ProfileStatus| item@, by_row());
    }
    result
}

/// Reports how validated desired profiles and applied profiles stand, given whether each desired
/// one was found in force, and whether the system is as it is asked for.
pub fn report(
    desired: &Vec<ProtectionProfile>,
    applied: &Vec<ProtectionProfile>,
    observed: &Vec<Result<bool, Error>>,
) -> (result: Result<(Vec<ProfileStatus>, bool), Error>)
    requires
        observed@.len() == desired@.len(),
    ensures
        told(result) == reported(profiles(desired@), profiles(applied@), observed@),
{
    match list_desired(desired, applied, observed) {
        Err(error) => Err(error),
        Ok((list, converged)) => {
            let mut list = list;
            let leftovers = add_leftovers(&mut list, applied, desired);
            Ok((sort_rows(list), converged && !leftovers))
        },
    }
}

/// Validates desired profiles against what is applied, and reports how everything stands. Whether a
/// profile was found in force is given in the order of the validated set.
pub fn status(
    desired: Vec<ProtectionProfile>,
    applied: &Vec<ProtectionProfile>,
    findings: &Vec<Findings>,
    observed: &Vec<Result<bool, Error>>,
) -> (result: Result<(Vec<ProfileStatus>, bool), Error>)
    requires
        findings_fit(desired@, findings@),
        observed@.len() == desired@.len(),
    ensures
        told(result) == match validated(profiles(desired@), profiles(applied@), findings@) {
            Err(message) => Err::<(Seq<StatusRow>, bool), Seq<char>>(message),
            Ok(list) => reported(list, profiles(applied@), observed@),
        },
{
    proof {
        lemma_validated_length(profiles(desired@), profiles(applied@), findings@);
        assert(profiles(desired@).len() == desired@.len());
    }
    match validate_profiles_with_applied(desired, applied, findings) {
        Err(error) => Err(error),
        Ok(list) => {
            assert(profiles(list@).len() == list@.len());
            report(&list, applied, observed)
        },
    }
}

/// The profiles that are applied, given what the state directory holds, if there is one.
pub open spec fn applied_in(stored: Option<Seq<StoredState>>) -> Result<Seq<Profile>, Seq<char>> {
    match stored {
        None => Ok(Seq::empty()),
        Some(list) => applied_profiles(list),
    }
}

/// What an optional list holds.
pub open spec fn content<T>(list: Option<Vec<T>>) -> Option<Seq<T>> {
    match list {
        Some(list) => Some(list@),
        None => None,
    }
}

/// Validates desired profiles against what the state directory holds, if there is one.
pub fn validate_desired_profiles(
    desired: Vec<ProtectionProfile>,
    stored: Option<Vec<StoredState>>,
    findings: &Vec<Findings>,
) -> (result: Result<Vec<ProtectionProfile>, Error>)
    requires
        findings_fit(desired@, findings@),
    ensures
        listed(result) == match applied_in(content(stored)) {
            Err(message) => Err::<Seq<Profile>, Seq<char>>(message),
            Ok(applied) => validated(profiles(desired@), applied, findings@),
        },
{
    let applied = match stored {
        None => {
            let none: Vec<ProtectionProfile> = Vec::new();
            assert(profiles(none@) =~= Seq::<Profile>::empty());
            none
        },
        Some(list) => match load_all_states(list) {
            Err(error) => {
                return Err(error);
            },
            Ok(applied) => applied,
        },
    };
    validate_profiles_with_applied(desired, &applied, findings)
}

proof fn lemma_validated_length(
    list: Seq<Profile>,
    applied: Seq<Profile>,
    findings: Seq<Findings>,
)
    ensures
        validated(list, applied, findings) matches Ok(result) ==> result.len() == list.len(),
{
    lemma_normalized_length(list, applied, findings, list.len());
    if let Ok(found) = crate::engine::overlap::all_normalized(
        list,
        applied,
        findings,
        list.len(),
    ) {
        arranging_keeps_the_items(found, crate::engine::overlap::by_id());
    }
}

proof fn lemma_normalized_length(
    list: Seq<Profile>,
    applied: Seq<Profile>,
    findings: Seq<Findings>,
    count: nat,
)
    ensures
        crate::engine::overlap::all_normalized(list, applied, findings, count) matches Ok(found)
            ==> found.len() == count,
    decreases count,
{
    if count > 0 {
        lemma_normalized_length(list, applied, findings, (count - 1) as nat);
    }
}

proof fn lemma_desired_rows(
    desired: Seq<Profile>,
    applied: Seq<Profile>,
    observed: Seq<Result<bool, Error>>,
    count: nat,
)
    requires
        count <= desired.len(),
    ensures
        desired_rows(desired, applied, observed, count) matches Ok(list) ==> {
            &&& list.len() == count
            &&& forall|i: int|
                0 <= i < count ==> (#[trigger] list[i]).id == desired[i].id && list[i].name
                    == desired[i].name && state_of(
                    desired[i],
                    applied,
                    outcome(observed[i]),
                ) == Ok::<Seq<char>, Seq<char>>(list[i].state)
        },
    decreases count,
{
    if count > 0 {
        lemma_desired_rows(desired, applied, observed, (count - 1) as nat);
        if let Ok(list) = desired_rows(desired, applied, observed, count) {
            let before = desired_rows(desired, applied, observed, (count - 1) as nat)->Ok_0;
            assert forall|i: int| 0 <= i < count implies (#[trigger] list[i]).id == desired[i].id
                && list[i].name == desired[i].name && state_of(
                desired[i],
                applied,
                outcome(observed[i]),
            ) == Ok::<Seq<char>, Seq<char>>(list[i].state) by {
                if i < count - 1 {
                    assert(list[i] == before[i]);
                }
            }
        }
    }
}

proof fn lemma_leftovers(applied: Seq<Profile>, desired: Seq<Profile>, count: nat)
    requires
        count <= applied.len(),
    ensures
        leftover_rows(applied, desired, count).len() == 0 <==> (forall|i: int|
            0 <= i < count ==> with_id(desired, (#[trigger] applied[i]).id) is Some),
    decreases count,
{
    if count > 0 {
        lemma_leftovers(applied, desired, (count - 1) as nat);
        if leftover_rows(applied, desired, count).len() == 0 {
            assert(with_id(desired, applied[count - 1].id) is Some);
        }
    }
}

proof fn lemma_states_differ()
    ensures
        "applied"@ != "not-applied"@,
        "applied"@ != "configuration-drift"@,
        "applied"@ != "system-drift"@,
{
    reveal_strlit("applied");
    reveal_strlit("not-applied");
    reveal_strlit("configuration-drift");
    reveal_strlit("system-drift");
    assert("applied"@.len() == 7);
    assert("not-applied"@.len() == 11);
    assert("configuration-drift"@.len() == 19);
    assert("system-drift"@.len() == 12);
}

/// The report says that the system is as it is asked for exactly where every desired profile is
/// applied as it is asked for and was found in force, and nothing else is applied.
pub proof fn convergence_is_exact(
    desired: Seq<Profile>,
    applied: Seq<Profile>,
    observed: Seq<Result<bool, Error>>,
)
    requires
        reported(desired, applied, observed) is Ok,
        observed.len() == desired.len(),
    ensures
        reported(desired, applied, observed)->Ok_0.1 <==> {
            &&& forall|i: int|
                0 <= i < desired.len() ==> is_current(#[trigger] desired[i], applied) && outcome(
                    observed[i],
                ) == Ok::<bool, Seq<char>>(true)
            &&& forall|i: int|
                0 <= i < applied.len() ==> with_id(desired, (#[trigger] applied[i]).id) is Some
        },
{
    let list = desired_rows(desired, applied, observed, desired.len())->Ok_0;
    lemma_desired_rows(desired, applied, observed, desired.len());
    lemma_leftovers(applied, desired, applied.len());
    lemma_states_differ();
    if all_applied(list) {
        assert forall|i: int| 0 <= i < desired.len() implies is_current(#[trigger] desired[i], applied)
            && outcome(observed[i]) == Ok::<bool, Seq<char>>(true) by {
            assert(list[i].state == "applied"@);
        }
    }
    if forall|i: int|
        0 <= i < desired.len() ==> is_current(#[trigger] desired[i], applied) && outcome(
            observed[i],
        ) == Ok::<bool, Seq<char>>(true) {
        assert forall|i: int| 0 <= i < list.len() implies (#[trigger] list[i]).state
            == "applied"@ by {
            assert(is_current(desired[i], applied));
        }
    }
}

/// One line of the overview: a profile, and whether it is applied and desired in this form.
#[derive(Debug)]
pub struct SupervisionProfile {
    pub profile: ProtectionProfile,
    pub applied: bool,
    pub desired: bool,
}

/// One line of the overview, as a value.
pub struct Supervised {
    pub profile: Profile,
    pub applied: bool,
    pub desired: bool,
}

impl View for SupervisionProfile {
    type V = Supervised;

    open spec fn view(&self) -> Supervised {
        Supervised { profile: self.profile@, applied: self.applied, desired: self.desired }
    }
}

impl Clone for SupervisionProfile {
    fn clone(&self) -> (result: Self)
        ensures
            result@ == self@,
    {
        SupervisionProfile {
            profile: self.profile.clone(),
            applied: self.applied,
            desired: self.desired,
        }
    }
}

pub open spec fn overview(list: Seq<SupervisionProfile>) -> Seq<Supervised> {
    list.map_values(|item: SupervisionProfile| item@)
}

/// The lines of the applied profiles.
pub open spec fn applied_lines(applied: Seq<Profile>) -> Seq<Supervised> {
    applied.map_values(|profile: Profile| Supervised { profile, applied: true, desired: false })
}

/// The index, where the line there is for a profile in this form.
pub open spec fn line_at(lines: Seq<Supervised>, profile: Profile) -> spec_fn(int) -> Option<int> {
    |index: int|
        if lines[index].profile.id == profile.id && same_profile(lines[index].profile, profile) {
            Some(index)
        } else {
            None
        }
}

/// The lines after a desired profile was entered: its line is marked, or it gets one.
pub open spec fn entered(lines: Seq<Supervised>, profile: Profile) -> Seq<Supervised> {
    match first_of(lines.len(), line_at(lines, profile)) {
        Some(index) => lines.update(index, Supervised { desired: true, ..lines[index] }),
        None => lines.push(Supervised { profile, applied: false, desired: true }),
    }
}

/// The lines after the first `count` desired profiles were entered.
pub open spec fn entered_all(
    lines: Seq<Supervised>,
    desired: Seq<Profile>,
    count: nat,
) -> Seq<Supervised>
    decreases count,
{
    if count == 0 {
        lines
    } else {
        entered(entered_all(lines, desired, (count - 1) as nat), desired[count - 1])
    }
}

/// The order of lines: by identifier, and what is applied first.
pub open spec fn by_line() -> spec_fn(Supervised, Supervised) -> bool {
    |left: Supervised, right: Supervised|
        left.profile.id < right.profile.id || (left.profile.id == right.profile.id && left.applied
            && !right.applied)
}

/// The overview of desired and applied profiles.
pub open spec fn supervised(desired: Seq<Profile>, applied: Seq<Profile>) -> Seq<Supervised> {
    arranged(entered_all(applied_lines(applied), desired, desired.len()), by_line())
}

fn enter(lines: &mut Vec<SupervisionProfile>, profile: ProtectionProfile)
    ensures
        overview(final(lines)@) == entered(overview(old(lines)@), profile@),
{
    let ghost all = overview(lines@);
    let ghost probe = line_at(all, profile@);
    let mut index: usize = 0;
    while index < lines.len()
        invariant
            index <= lines@.len(),
            all == overview(lines@),
            probe == line_at(all, profile@),
            all == overview(old(lines)@),
            first_of(index as nat, probe) is None,
        decreases lines.len() - index,
    {
        assert(all[index as int] == lines@[index as int]@);
        if lines[index].profile.id == profile.id && lines[index].profile == profile {
            proof {
                assert(probe(index as int) == Some(index as int));
                lemma_first_of((index + 1) as nat, all.len(), probe);
            }
            let line = SupervisionProfile {
                profile: lines[index].profile.clone(),
                applied: lines[index].applied,
                desired: true,
            };
            let ghost before = lines@;
            lines.set(index, line);
            assert(overview(lines@) =~= overview(before).update(index as int, line@));
            return;
        }
        assert(probe(index as int) is None);
        index += 1;
    }
    let line = SupervisionProfile { profile, applied: false, desired: true };
    let ghost before = lines@;
    lines.push(line);
    assert(overview(lines@) =~= overview(before).push(line@));
}

fn sort_lines(list: Vec<SupervisionProfile>) -> (result: Vec<SupervisionProfile>)
    ensures
        overview(result@) == arranged(overview(list@), by_line()),
{
    let ghost before = |left: SupervisionProfile, right: SupervisionProfile|
        left.profile.id < right.profile.id || (left.profile.id == right.profile.id && left.applied
            && !right.applied);
    let precedes = |left: &SupervisionProfile, right: &SupervisionProfile| -> (answer: bool)
        ensures
            answer == (left.profile.id < right.profile.id || (left.profile.id == right.profile.id
                && left.applied && !right.applied)),
        {
            left.profile.id < right.profile.id || (left.profile.id == right.profile.id
                && left.applied && !right.applied)
        };
    let result = arrange(list, precedes, Ghost(before));
    proof {
        lemma_arranged_map(list@, before, |item: SupervisionProfile| item@, by_line());
    }
    result
}

/// Puts desired and applied profiles into one overview. A desired profile that differs from its
/// applied version gets a line of its own.
pub fn merge_supervision_profiles(
    desired: Vec<ProtectionProfile>,
    applied: Vec<ProtectionProfile>,
) -> (result: Vec<SupervisionProfile>)
    ensures
        overview(result@) == supervised(profiles(desired@), profiles(applied@)),
{
    let ghost installed = profiles(applied@);
    let ghost wanted = profiles(desired@);
    let mut lines: Vec<SupervisionProfile> = Vec::new();
    let mut index: usize = 0;
    while index < applied.len()
        invariant
            index <= applied@.len(),
            installed == profiles(applied@),
            lines@.len() == index,
            forall|i: int|
                0 <= i < index ==> (#[trigger] lines@[i])@ == (Supervised {
                    profile: installed[i],
                    applied: true,
                    desired: false,
                }),
        decreases applied.len() - index,
    {
        assert(installed[index as int] == applied@[index as int]@);
        lines.push(
            SupervisionProfile { profile: applied[index].clone(), applied: true, desired: false },
        );
        index += 1;
    }
    assert(overview(lines@) =~= applied_lines(installed));
    let mut other: usize = 0;
    while other < desired.len()
        invariant
            other <= desired@.len(),
            wanted == profiles(desired@),
            overview(lines@) == entered_all(applied_lines(installed), wanted, other as nat),
        decreases desired.len() - other,
    {
        assert(wanted[other as int] == desired@[other as int]@);
        enter(&mut lines, desired[other].clone());
        other += 1;
    }
    sort_lines(lines)
}

/// What a result with an overview says.
pub open spec fn shown(result: Result<Vec<SupervisionProfile>, Error>) -> Result<
    Seq<Supervised>,
    Seq<char>,
> {
    match result {
        Ok(list) => Ok(overview(list@)),
        Err(error) => Err(error@),
    }
}

/// Validates desired profiles against what is applied, and puts both into one overview.
pub fn supervision_profiles(
    desired: Vec<ProtectionProfile>,
    applied: Vec<ProtectionProfile>,
    findings: &Vec<Findings>,
) -> (result: Result<Vec<SupervisionProfile>, Error>)
    requires
        findings_fit(desired@, findings@),
    ensures
        shown(result) == match validated(profiles(desired@), profiles(applied@), findings@) {
            Err(message) => Err::<Seq<Supervised>, Seq<char>>(message),
            Ok(list) => Ok(supervised(list, profiles(applied@))),
        },
{
    match validate_profiles_with_applied(desired, &applied, findings) {
        Err(error) => Err(error),
        Ok(list) => Ok(merge_supervision_profiles(list, applied)),
    }
}

proof fn lemma_entered(lines: Seq<Supervised>, profile: Profile)
    ensures
        ({
            let after = entered(lines, profile);
            &&& lines.len() <= after.len()
            &&& forall|i: int|
                0 <= i < lines.len() ==> (#[trigger] after[i]).profile == lines[i].profile
                    && after[i].applied == lines[i].applied && (lines[i].desired ==> after[i].desired)
            &&& forall|i: int| lines.len() <= i < after.len() ==> !(#[trigger] after[i]).applied
            &&& exists|i: int|
                0 <= i < after.len() && same_profile((#[trigger] after[i]).profile, profile)
                    && after[i].desired
        }),
{
    let probe = line_at(lines, profile);
    let after = entered(lines, profile);
    if first_of(lines.len(), probe) is Some {
        let index = lemma_first_of_some(lines.len(), probe);
        assert(after[index].desired && same_profile(after[index].profile, profile));
    } else {
        assert(after[lines.len() as int].desired);
        lemma_same_profile(profile);
        assert(same_profile(after[lines.len() as int].profile, profile));
    }
}

proof fn lemma_same_profile(profile: Profile)
    ensures
        same_profile(profile, profile),
{
}

proof fn lemma_entered_all(lines: Seq<Supervised>, desired: Seq<Profile>, count: nat)
    requires
        count <= desired.len(),
    ensures
        ({
            let after = entered_all(lines, desired, count);
            &&& lines.len() <= after.len()
            &&& forall|i: int|
                0 <= i < lines.len() ==> (#[trigger] after[i]).profile == lines[i].profile
                    && after[i].applied == lines[i].applied
            &&& forall|i: int| lines.len() <= i < after.len() ==> !(#[trigger] after[i]).applied
            &&& forall|k: int|
                0 <= k < count ==> exists|i: int|
                    0 <= i < after.len() && same_profile((#[trigger] after[i]).profile, #[trigger] desired[k])
                        && after[i].desired
        }),
    decreases count,
{
    if count > 0 {
        lemma_entered_all(lines, desired, (count - 1) as nat);
        let before = entered_all(lines, desired, (count - 1) as nat);
        let profile = desired[count - 1];
        lemma_entered(before, profile);
        let after = entered(before, profile);
        assert forall|k: int| 0 <= k < count implies exists|i: int|
            0 <= i < after.len() && same_profile((#[trigger] after[i]).profile, #[trigger] desired[k])
                && after[i].desired by {
            if k < count - 1 {
                let i = choose|i: int|
                    0 <= i < before.len() && same_profile(
                        (#[trigger] before[i]).profile,
                        desired[k],
                    ) && before[i].desired;
                assert(same_profile(after[i].profile, desired[k]) && after[i].desired);
            }
        }
    }
}

/// The overview is complete: every applied profile has a line that says so, and every desired
/// profile has a line in its form that says so.
pub proof fn overview_is_complete(desired: Seq<Profile>, applied: Seq<Profile>, i: int, k: int)
    ensures
        0 <= i < applied.len() ==> exists|line: Supervised|
            #[trigger] supervised(desired, applied).contains(line) && line.profile == applied[i]
                && line.applied,
        0 <= k < desired.len() ==> exists|line: Supervised|
            #[trigger] supervised(desired, applied).contains(line) && same_profile(
                line.profile,
                desired[k],
            ) && line.desired,
{
    let start = applied_lines(applied);
    let lines = entered_all(start, desired, desired.len());
    lemma_entered_all(start, desired, desired.len());
    arranging_keeps_the_items(lines, by_line());
    if 0 <= i < applied.len() {
        assert(lines[i].profile == start[i].profile && lines[i].applied);
        assert(lines.contains(lines[i]));
        assert(supervised(desired, applied).contains(lines[i]));
    }
    if 0 <= k < desired.len() {
        assert(desired[k] == desired[k]);
        let j = choose|j: int|
            0 <= j < lines.len() && same_profile((#[trigger] lines[j]).profile, desired[k])
                && lines[j].desired;
        assert(lines.contains(lines[j]));
        assert(supervised(desired, applied).contains(lines[j]));
    }
}

} // verus!
