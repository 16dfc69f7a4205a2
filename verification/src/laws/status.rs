//! Reports: which rows they hold, and what each says.

use crate::engine::overlap::{by_id, lemma_by_id, with_id, with_id_at};
use crate::engine::reconcile::{
    by_row, desired_rows, is_current, leftover_rows, reported, state_of, StatusRow,
};
use crate::engine::state::{
    applied_profiles, optional_state, stored_profile, stored_profiles, StoredState,
};
use crate::error::{outcome, Error};
use crate::model::{same_profile, Profile};
use crate::order::{arranged, arranging_keeps_the_items, arranging_puts_in_order, orders};
use crate::search::{lemma_first_of, lemma_first_of_none, lemma_first_of_some};
use vstd::prelude::*;

verus! {

/// Whether a profile of a list has an identifier.
pub open spec fn lists_id(list: Seq<Profile>, id: u128) -> bool {
    exists|k: int| 0 <= k < list.len() && (#[trigger] list[k]).id == id
}

/// A profile is found by its identifier exactly where the list holds one, and it is the first that
/// has it.
pub proof fn profiles_are_found_by_identifier(list: Seq<Profile>, id: u128)
    ensures
        with_id(list, id) is Some <==> lists_id(list, id),
        with_id(list, id) matches Some(profile) ==> profile.id == id && list.contains(profile),
        forall|k: int|
            0 <= k < list.len() && (#[trigger] list[k]).id == id && (forall|j: int|
                0 <= j < k ==> (#[trigger] list[j]).id != id) ==> with_id(list, id) == Some(list[k]),
{
    let probe = with_id_at(list, id);
    lemma_first_of_none(list.len(), probe);
    if with_id(list, id) is Some {
        let index = lemma_first_of_some(list.len(), probe);
        assert(list[index].id == id);
        assert(list.contains(list[index]));
    }
    if lists_id(list, id) {
        let k = choose|k: int| 0 <= k < list.len() && (#[trigger] list[k]).id == id;
        assert(probe(k) is Some);
    }
    assert forall|k: int|
        0 <= k < list.len() && (#[trigger] list[k]).id == id && (forall|j: int|
            0 <= j < k ==> (#[trigger] list[j]).id != id) implies with_id(list, id) == Some(
        list[k],
    ) by {
        assert forall|j: int| 0 <= j < k implies (#[trigger] probe(j)) is None by {
            assert(list[j].id != id);
        }
        lemma_first_of_none(k as nat, probe);
        assert(probe(k) == Some(list[k]));
        lemma_first_of((k + 1) as nat, list.len(), probe);
    }
}

/// The row of an applied profile that nobody asks for.
pub open spec fn leftover(profile: Profile) -> StatusRow {
    StatusRow { id: profile.id, name: profile.name, state: "installed-without-config"@ }
}

/// The applied profiles that nobody asks for, in their order.
pub open spec fn unasked(applied: Seq<Profile>, desired: Seq<Profile>) -> Seq<Profile> {
    applied.filter(|profile: Profile| !lists_id(desired, profile.id))
}

proof fn lemma_leftovers(applied: Seq<Profile>, desired: Seq<Profile>, count: nat)
    requires
        count <= applied.len(),
    ensures
        leftover_rows(applied, desired, count) == unasked(
            applied.take(count as int),
            desired,
        ).map_values(|profile: Profile| leftover(profile)),
    decreases count,
{
    let image = |profile: Profile| leftover(profile);
    if count > 0 {
        lemma_leftovers(applied, desired, (count - 1) as nat);
        let part = applied.take(count as int);
        let last = applied[count - 1];
        assert(part.drop_last() =~= applied.take(count - 1));
        profiles_are_found_by_identifier(desired, last.id);
        reveal(Seq::filter);
        let before = unasked(applied.take(count - 1), desired);
        if !lists_id(desired, last.id) {
            assert(unasked(part, desired) == before.push(last));
            assert(before.push(last).map_values(image) =~= before.map_values(image).push(
                leftover(last),
            ));
        } else {
            assert(unasked(part, desired) == before);
        }
    } else {
        reveal(Seq::filter);
        assert(applied.take(0) =~= Seq::<Profile>::empty());
        assert(unasked(applied.take(0), desired).map_values(image) =~= Seq::<StatusRow>::empty());
    }
}

proof fn lemma_filtered(list: Seq<Profile>, desired: Seq<Profile>, item: Profile)
    ensures
        unasked(list, desired).contains(item) <==> list.contains(item) && !lists_id(desired, item.id),
    decreases list.len(),
{
    reveal(Seq::filter);
    if list.len() > 0 {
        let shorter = list.drop_last();
        let last = list.last();
        lemma_filtered(shorter, desired, item);
        let before = unasked(shorter, desired);
        if list.contains(item) {
            let i = choose|i: int| 0 <= i < list.len() && list[i] == item;
            if i < list.len() - 1 {
                assert(shorter[i] == item);
            }
        }
        if shorter.contains(item) {
            let i = choose|i: int| 0 <= i < shorter.len() && shorter[i] == item;
            assert(list[i] == item);
        }
        assert(list[list.len() - 1] == last);
        if !lists_id(desired, last.id) {
            let after = unasked(list, desired);
            assert(after == before.push(last));
            if before.contains(item) {
                let i = choose|i: int| 0 <= i < before.len() && before[i] == item;
                assert(after[i] == item);
            }
            if after.contains(item) {
                let i = choose|i: int| 0 <= i < after.len() && after[i] == item;
                if i < before.len() {
                    assert(before[i] == item);
                }
            }
            assert(after[before.len() as int] == last);
        }
    }
}

/// What is said of a desired profile. It is not applied where no snapshot has its identifier; the
/// configuration has drifted where the snapshot says something else; the system has drifted where
/// the snapshot agrees and the profile was not found in force. Only then does it matter what was
/// found.
pub proof fn states_compare_snapshot_and_system(
    profile: Profile,
    applied: Seq<Profile>,
    observed: Result<bool, Seq<char>>,
)
    ensures
        !lists_id(applied, profile.id) ==> state_of(profile, applied, observed) == Ok::<
            Seq<char>,
            Seq<char>,
        >("not-applied"@),
        with_id(applied, profile.id) matches Some(snapshot) && !same_profile(snapshot, profile)
            ==> state_of(profile, applied, observed) == Ok::<Seq<char>, Seq<char>>(
            "configuration-drift"@,
        ),
        with_id(applied, profile.id) matches Some(snapshot) && same_profile(snapshot, profile)
            ==> state_of(profile, applied, observed) == match observed {
            Err(message) => Err::<Seq<char>, Seq<char>>(message),
            Ok(true) => Ok("applied"@),
            Ok(false) => Ok("system-drift"@),
        },
        is_current(profile, applied) <==> (with_id(applied, profile.id) is Some && same_profile(
            with_id(applied, profile.id)->Some_0,
            profile,
        )),
{
    profiles_are_found_by_identifier(applied, profile.id);
}

proof fn lemma_desired(
    desired: Seq<Profile>,
    applied: Seq<Profile>,
    observed: Seq<Result<bool, Error>>,
    count: nat,
)
    requires
        count <= desired.len(),
    ensures
        match desired_rows(desired, applied, observed, count) {
            Ok(rows) => rows.len() == count && forall|i: int|
                0 <= i < count ==> is_row_of(
                    #[trigger] rows[i],
                    desired[i],
                    applied,
                    outcome(observed[i]),
                ),
            Err(message) => exists|i: int|
                0 <= i < count && state_of(
                    #[trigger] desired[i],
                    applied,
                    outcome(observed[i]),
                ) == Err::<Seq<char>, Seq<char>>(message),
        },
    decreases count,
{
    if count > 0 {
        lemma_desired(desired, applied, observed, (count - 1) as nat);
        let before = desired_rows(desired, applied, observed, (count - 1) as nat);
        if before is Err {
            let message = before->Err_0;
            let i = choose|i: int|
                0 <= i < count - 1 && state_of(
                    #[trigger] desired[i],
                    applied,
                    outcome(observed[i]),
                ) == Err::<Seq<char>, Seq<char>>(message);
            assert(state_of(desired[i], applied, outcome(observed[i])) == Err::<
                Seq<char>,
                Seq<char>,
            >(message));
        } else {
            let state = state_of(desired[count - 1], applied, outcome(observed[count - 1]));
            if let Ok(rows) = desired_rows(desired, applied, observed, count) {
                assert forall|i: int| 0 <= i < count implies is_row_of(
                    #[trigger] rows[i],
                    desired[i],
                    applied,
                    outcome(observed[i]),
                ) by {
                    if i < count - 1 {
                        assert(rows[i] == before->Ok_0[i]);
                    }
                }
            }
        }
    }
}

/// Whether a row is that of a desired profile.
pub open spec fn is_row_of(
    row: StatusRow,
    profile: Profile,
    applied: Seq<Profile>,
    observed: Result<bool, Seq<char>>,
) -> bool {
    row.id == profile.id && row.name == profile.name && state_of(profile, applied, observed) == Ok::<
        Seq<char>,
        Seq<char>,
    >(row.state)
}

/// Whether the rows of a report are complete: one for each desired profile, and one for each applied
/// profile that nobody asks for.
pub open spec fn is_complete(
    rows: Seq<StatusRow>,
    desired: Seq<Profile>,
    applied: Seq<Profile>,
    observed: Seq<Result<bool, Error>>,
) -> bool {
    &&& forall|i: int|
        0 <= i < desired.len() ==> exists|row: StatusRow| #[trigger]
            rows.contains(row) && is_row_of(
                row,
                #[trigger] desired[i],
                applied,
                outcome(observed[i]),
            )
    &&& forall|i: int|
        0 <= i < applied.len() && !lists_id(desired, (#[trigger] applied[i]).id) ==> rows.contains(
            leftover(applied[i]),
        )
    &&& rows.len() == desired.len() + unasked(applied, desired).len()
}

/// A report is complete and in order: every desired profile has a row with its state, every applied
/// profile that nobody asks for has a row of its own, there are no other rows, and the rows ascend
/// by identifier. The system is as it is asked for exactly where every row says `applied`.
pub proof fn reports_are_complete(
    desired: Seq<Profile>,
    applied: Seq<Profile>,
    observed: Seq<Result<bool, Error>>,
)
    ensures
        reported(desired, applied, observed) matches Ok((rows, converged)) ==> {
            &&& is_complete(rows, desired, applied, observed)
            &&& forall|i: int, j: int|
                0 <= i < j < rows.len() ==> (#[trigger] rows[i]).id <= (#[trigger] rows[j]).id
            &&& converged <==> forall|i: int|
                0 <= i < rows.len() ==> (#[trigger] rows[i]).state == "applied"@
        },
        reported(desired, applied, observed) matches Err(message) ==> exists|i: int|
            0 <= i < desired.len() && state_of(
                #[trigger] desired[i],
                applied,
                outcome(observed[i]),
            ) == Err::<Seq<char>, Seq<char>>(message),
{
    lemma_desired(desired, applied, observed, desired.len());
    lemma_leftovers(applied, desired, applied.len());
    assert(applied.take(applied.len() as int) =~= applied);
    if let Ok((rows, converged)) = reported(desired, applied, observed) {
        let first = desired_rows(desired, applied, observed, desired.len())->Ok_0;
        let second = leftover_rows(applied, desired, applied.len());
        let others = unasked(applied, desired);
        let all = first + second;
        arranging_keeps_the_items(all, by_row());
        assert(orders(by_row()));
        arranging_puts_in_order(all, by_row());
        assert forall|i: int, j: int| 0 <= i < j < rows.len() implies (#[trigger] rows[i]).id <= (
        #[trigger] rows[j]).id by {
            assert(!by_row()(rows[j], rows[i]));
        }
        assert forall|i: int| 0 <= i < desired.len() implies exists|row: StatusRow| #[trigger]
            rows.contains(row) && is_row_of(
                row,
                #[trigger] desired[i],
                applied,
                outcome(observed[i]),
            ) by {
            assert(all[i] == first[i]);
            assert(all.contains(first[i]));
            assert(is_row_of(first[i], desired[i], applied, outcome(observed[i])));
            assert(rows.contains(first[i]));
        }
        assert forall|i: int| 0 <= i < applied.len() && !lists_id(desired, (#[trigger] applied[i]).id)
            implies rows.contains(leftover(applied[i])) by {
            assert(applied.contains(applied[i]));
            lemma_filtered(applied, desired, applied[i]);
            let k = choose|k: int| 0 <= k < others.len() && others[k] == applied[i];
            assert(second[k] == leftover(applied[i]));
            assert(all[first.len() + k] == leftover(applied[i]));
            assert(all.contains(leftover(applied[i])));
        }
        reveal_strlit("applied");
        reveal_strlit("installed-without-config");
        assert("applied"@.len() == 7 && "installed-without-config"@.len() == 24);
        if converged {
            assert(all =~= first);
            assert forall|i: int| 0 <= i < rows.len() implies (#[trigger] rows[i]).state
                == "applied"@ by {
                assert(rows.contains(rows[i]));
                assert(all.contains(rows[i]));
                let k = choose|k: int| 0 <= k < all.len() && all[k] == rows[i];
                assert(first[k].state == "applied"@);
            }
        }
        if forall|i: int| 0 <= i < rows.len() ==> (#[trigger] rows[i]).state == "applied"@ {
            assert forall|k: int| 0 <= k < all.len() implies (#[trigger] all[k]).state
                == "applied"@ by {
                assert(all.contains(all[k]));
                assert(rows.contains(all[k]));
                let i = choose|i: int| 0 <= i < rows.len() && rows[i] == all[k];
                assert(rows[i].state == "applied"@);
            }
            if second.len() > 0 {
                assert(all[first.len() as int] == second[0]);
                assert(second[0] == leftover(others[0]));
            }
            assert forall|k: int| 0 <= k < first.len() implies (#[trigger] first[k]).state
                == "applied"@ by {
                assert(all[k] == first[k]);
            }
        }
    }
}

proof fn lemma_stored(list: Seq<StoredState>, count: nat)
    requires
        count <= list.len(),
    ensures
        match stored_profiles(list, count) {
            Ok(found) => found.len() == count && forall|i: int|
                0 <= i < count ==> stored_profile(#[trigger] list[i]) == Ok::<Profile, Seq<char>>(
                    found[i],
                ),
            Err(message) => exists|i: int|
                0 <= i < count && stored_profile(#[trigger] list[i]) == Err::<Profile, Seq<char>>(
                    message,
                ) && forall|k: int| 0 <= k < i ==> stored_profile(#[trigger] list[k]) is Ok,
        },
    decreases count,
{
    if count > 0 {
        lemma_stored(list, (count - 1) as nat);
        if stored_profiles(list, (count - 1) as nat) is Ok {
            let last = stored_profile(list[count - 1]);
        } else {
            let message = stored_profiles(list, (count - 1) as nat)->Err_0;
            let i = choose|i: int|
                0 <= i < count - 1 && stored_profile(#[trigger] list[i]) == Err::<
                    Profile,
                    Seq<char>,
                >(message) && forall|k: int| 0 <= k < i ==> stored_profile(#[trigger] list[k]) is Ok;
            assert(stored_profile(list[i]) == Err::<Profile, Seq<char>>(message));
        }
    }
}

/// What is loaded are the profiles of all snapshots, in the order of their identifiers. The first
/// snapshot that cannot be read or is not valid stops the loading, and the error is its own.
pub proof fn every_snapshot_is_loaded(list: Seq<StoredState>)
    ensures
        applied_profiles(list) is Ok <==> forall|i: int|
            0 <= i < list.len() ==> (#[trigger] list[i]).unread is None && list[i].state is Ok,
        applied_profiles(list) matches Ok(result) ==> {
            &&& result.len() == list.len()
            &&& forall|i: int|
                0 <= i < list.len() ==> result.contains((#[trigger] list[i]).state->Ok_0@)
            &&& forall|i: int, j: int|
                0 <= i < j < result.len() ==> (#[trigger] result[i]).id <= (#[trigger] result[j]).id
        },
        forall|index: int| #![trigger list[index]]
            0 <= index < list.len() && (list[index].unread is Some || list[index].state is Err) && (
            forall|k: int|
                0 <= k < index ==> (#[trigger] list[k]).unread is None && list[k].state is Ok)
                ==> applied_profiles(list) == Err::<Seq<Profile>, Seq<char>>(
                match list[index].unread {
                    Some(error) => error@,
                    None => "Stored profile "@ + list[index].path@ + " is invalid"@ + ": "@
                        + list[index].state->Err_0@,
                },
            ),
{
    lemma_stored(list, list.len());
    assert forall|i: int| 0 <= i < list.len() implies (stored_profile(#[trigger] list[i]) is Ok
        <==> list[i].unread is None && list[i].state is Ok) by {}
    if let Ok(found) = stored_profiles(list, list.len()) {
        let result = arranged(found, by_id());
        lemma_by_id();
        arranging_keeps_the_items(found, by_id());
        arranging_puts_in_order(found, by_id());
        assert forall|i: int| 0 <= i < list.len() implies result.contains(
            (#[trigger] list[i]).state->Ok_0@,
        ) by {
            assert(stored_profile(list[i]) == Ok::<Profile, Seq<char>>(found[i]));
            assert(found.contains(found[i]));
        }
        assert forall|i: int, j: int| 0 <= i < j < result.len() implies (
        #[trigger] result[i]).id <= (#[trigger] result[j]).id by {
            assert(!by_id()(result[j], result[i]));
        }
        assert forall|i: int| 0 <= i < list.len() implies (#[trigger] list[i]).unread is None
            && list[i].state is Ok by {
            assert(stored_profile(list[i]) is Ok);
        }
    } else {
        let message = stored_profiles(list, list.len())->Err_0;
        let i = choose|i: int|
            0 <= i < list.len() && stored_profile(#[trigger] list[i]) == Err::<Profile, Seq<char>>(
                message,
            ) && forall|k: int| 0 <= k < i ==> stored_profile(#[trigger] list[k]) is Ok;
        assert(stored_profile(list[i]) is Err);
        assert forall|index: int| #![trigger list[index]]
            0 <= index < list.len() && (list[index].unread is Some || list[index].state is Err) && (
            forall|k: int|
                0 <= k < index ==> (#[trigger] list[k]).unread is None && list[k].state is Ok)
            implies applied_profiles(list) == Err::<Seq<Profile>, Seq<char>>(
            match list[index].unread {
                Some(error) => error@,
                None => "Stored profile "@ + list[index].path@ + " is invalid"@ + ": "@
                    + list[index].state->Err_0@,
            },
        ) by {
            assert(stored_profile(list[index]) is Err);
            if i < index {
                assert(list[i].unread is None && list[i].state is Ok);
            } else if index < i {
                assert(stored_profile(list[index]) is Ok);
            }
        }
    }
}

/// A single snapshot is looked at only where it exists, and a failure to look, to read or to
/// understand it is an error of its own.
pub proof fn single_snapshots_are_loaded_by_rule(
    path: Seq<char>,
    exists: Result<bool, Seq<char>>,
    unread: Option<Seq<char>>,
    state: Result<Profile, Seq<char>>,
)
    ensures
        exists == Ok::<bool, Seq<char>>(false) ==> optional_state(path, exists, unread, state)
            == Ok::<Option<Profile>, Seq<char>>(None),
        exists matches Err(message) ==> optional_state(path, exists, unread, state) == Err::<
            Option<Profile>,
            Seq<char>,
        >(message),
        exists == Ok::<bool, Seq<char>>(true) && unread is Some ==> optional_state(
            path,
            exists,
            unread,
            state,
        ) == Err::<Option<Profile>, Seq<char>>(
            "Could not read stored profile "@ + path + ": "@ + unread->Some_0,
        ),
        exists == Ok::<bool, Seq<char>>(true) && unread is None ==> optional_state(
            path,
            exists,
            unread,
            state,
        ) == match state {
            Ok(profile) => Ok::<Option<Profile>, Seq<char>>(Some(profile)),
            Err(message) => Err(message),
        },
{
}

} // verus!
