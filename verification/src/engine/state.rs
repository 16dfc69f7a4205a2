//! Snapshots of applied profiles. They are kept apart from the configuration, so that removal and
//! rollback never depend on what the configuration says now.

use crate::config::listed;
use crate::engine::overlap::{by_id, sort_profiles};
use crate::error::{in_context, outcome, viewed, Error};
use crate::id::{lemma_shown, shown, shown_text};
use crate::model::{profiles, Profile, ProtectionProfile, PROFILE_SCHEMA_VERSION};
use crate::order::arranged;
use crate::path::{extension, extension_of, last_dot, lemma_last_part};
use crate::policy::{profile_fault, validate_profile};
use crate::text::{decimal, decimal_text, same_text, text2, text3, text4};
use vstd::prelude::*;

verus! {

pub const STATE_DIR: &'static str = "/var/lib/microvisor/profiles";

pub const STATE_ROOT: &'static str = "/var/lib/microvisor";

pub const RUNTIME_DIR: &'static str = "/run/microvisor";

pub const LOCK_FILE: &'static str = "/run/microvisor/transaction.lock";

/// The largest snapshot that is read.
pub const MAX_STATE_SIZE: usize = 1048576;

pub const STATE_SCHEMA_VERSION: u32 = 1;

/// A snapshot as it is stored.
#[derive(Debug)]
pub struct AppliedState {
    pub state_schema_version: u32,
    pub profile: ProtectionProfile,
}

/// A snapshot as it was stored before snapshots had versions.
#[derive(Debug)]
pub struct LegacyAppliedProfile {
    pub id: u128,
    pub name: String,
    pub executable: String,
    pub data_directories: Vec<String>,
    pub launch_domain: String,
    pub launch_role: String,
    pub block_ptrace: bool,
    pub block_fd_use: bool,
    pub applied: bool,
}

/// The profile of a snapshot without a version.
pub open spec fn upgraded(legacy: LegacyAppliedProfile) -> ProtectionProfile {
    ProtectionProfile {
        schema_version: PROFILE_SCHEMA_VERSION,
        id: legacy.id,
        name: legacy.name,
        executable: legacy.executable,
        data_directories: legacy.data_directories,
        launch_domain: legacy.launch_domain,
        launch_role: legacy.launch_role,
        block_ptrace: legacy.block_ptrace,
        block_fd_use: legacy.block_fd_use,
    }
}

impl From<LegacyAppliedProfile> for ProtectionProfile {
    fn from(legacy: LegacyAppliedProfile) -> (result: Self) {
        ProtectionProfile {
            schema_version: PROFILE_SCHEMA_VERSION,
            id: legacy.id,
            name: legacy.name,
            executable: legacy.executable,
            data_directories: legacy.data_directories,
            launch_domain: legacy.launch_domain,
            launch_role: legacy.launch_role,
            block_ptrace: legacy.block_ptrace,
            block_fd_use: legacy.block_fd_use,
        }
    }
}

impl vstd::std_specs::convert::FromSpecImpl<LegacyAppliedProfile> for ProtectionProfile {
    open spec fn obeys_from_spec() -> bool {
        true
    }

    open spec fn from_spec(legacy: LegacyAppliedProfile) -> Self {
        upgraded(legacy)
    }
}

/// The snapshot of a profile, as it is stored.
pub fn snapshot(profile: &ProtectionProfile) -> (result: AppliedState)
    ensures
        result.state_schema_version == STATE_SCHEMA_VERSION,
        result.profile@ == profile@,
{
    AppliedState { state_schema_version: STATE_SCHEMA_VERSION, profile: profile.clone() }
}

/// A profile, where it is valid.
pub open spec fn accepted_profile(profile: Profile) -> Result<Profile, Seq<char>> {
    match profile_fault(profile) {
        Some(message) => Err(message),
        None => Ok(profile),
    }
}

/// The profile of a stored snapshot, given what comes of reading it as a current one and as one
/// without a version.
pub open spec fn restored(
    current: Result<AppliedState, Seq<char>>,
    legacy: Result<LegacyAppliedProfile, Seq<char>>,
) -> Result<Profile, Seq<char>> {
    match current {
        Ok(state) => if state.state_schema_version != STATE_SCHEMA_VERSION {
            Err(
                "Unsupported applied-state schema version "@ + decimal(
                    state.state_schema_version as nat,
                ),
            )
        } else {
            accepted_profile(state.profile@)
        },
        Err(current_message) => match legacy {
            Ok(old) => accepted_profile(upgraded(old)@),
            Err(message) => Err(
                in_context(
                    message,
                    "Invalid current state ("@ + current_message + ") and invalid legacy state"@,
                ),
            ),
        },
    }
}

fn accept_profile(profile: ProtectionProfile) -> (result: Result<ProtectionProfile, Error>)
    ensures
        viewed(result) == accepted_profile(profile@),
{
    match validate_profile(&profile) {
        Err(error) => Err(error),
        Ok(()) => Ok(profile),
    }
}

/// Takes the profile out of a stored snapshot.
pub fn deserialize_state(
    current: Result<AppliedState, Error>,
    legacy: Result<LegacyAppliedProfile, Error>,
) -> (result: Result<ProtectionProfile, Error>)
    ensures
        viewed(result) == restored(outcome(current), outcome(legacy)),
{
    match current {
        Ok(state) => {
            if state.state_schema_version != STATE_SCHEMA_VERSION {
                let version = decimal_text(state.state_schema_version as u64);
                let message = text2(
                    "Unsupported applied-state schema version ",
                    version.as_str(),
                );
                return Err(Error { message });
            }
            accept_profile(state.profile)
        },
        Err(current_error) => match legacy {
            Ok(old) => accept_profile(ProtectionProfile::from(old)),
            Err(error) => {
                let context = text3(
                    "Invalid current state (",
                    current_error.message.as_str(),
                    ") and invalid legacy state",
                );
                Err(error.context(context.as_str()))
            },
        },
    }
}

/// A stored snapshot is read back as the profile it was made of: a current one whatever else could
/// be read in it, and one without a version as well.
pub proof fn snapshots_read_back(
    profile: Profile,
    state: AppliedState,
    legacy: Result<LegacyAppliedProfile, Seq<char>>,
)
    requires
        profile_fault(profile) is None,
        state.state_schema_version == STATE_SCHEMA_VERSION,
        state.profile@ == profile,
    ensures
        restored(Ok(state), legacy) == Ok::<Profile, Seq<char>>(profile),
{
}

/// What is read back from a snapshot is a valid profile.
pub proof fn restored_profiles_are_valid(
    current: Result<AppliedState, Seq<char>>,
    legacy: Result<LegacyAppliedProfile, Seq<char>>,
)
    ensures
        restored(current, legacy) matches Ok(profile) ==> profile_fault(profile) is None,
{
}

/// Where the snapshot of a profile is stored.
pub open spec fn state_file(id: u128) -> Seq<char> {
    STATE_DIR@ + "/"@ + shown(id) + ".json"@
}

/// Where the snapshot of a profile is written before it takes its place.
pub open spec fn temporary_file(id: u128) -> Seq<char> {
    STATE_DIR@ + "/"@ + shown(id) + ".json.tmp"@
}

/// Where the snapshot of a profile is stored.
pub fn state_path(id: u128) -> (result: String)
    ensures
        result@ == state_file(id),
{
    let name = shown_text(id);
    text4(STATE_DIR, "/", name.as_str(), ".json")
}

/// Where the snapshot of a profile is written before it takes its place.
pub fn temporary_state_path(id: u128) -> (result: String)
    ensures
        result@ == temporary_file(id),
{
    let name = shown_text(id);
    text4(STATE_DIR, "/", name.as_str(), ".json.tmp")
}

/// A snapshot is recognized by its name once it has taken its place, and not before: one that was
/// only partly written is never read.
pub proof fn only_finished_snapshots_are_read(id: u128)
    ensures
        extension_of(state_file(id)) == Some("json"@),
        extension_of(temporary_file(id)) != Some("json"@),
{
    reveal_strlit("/");
    reveal_strlit(".json");
    reveal_strlit(".json.tmp");
    reveal_strlit("json");
    lemma_shown(id);
    let name = shown(id) + ".json"@;
    let temporary = shown(id) + ".json.tmp"@;
    assert("/"@ =~= seq!['/']);
    assert forall|i: int| 0 <= i < name.len() implies #[trigger] name[i] != '/' by {
        if i < 36 {
            assert(name[i] == shown(id)[i]);
        }
    }
    assert forall|i: int| 0 <= i < temporary.len() implies #[trigger] temporary[i] != '/' by {
        if i < 36 {
            assert(temporary[i] == shown(id)[i]);
        }
    }
    lemma_last_part(STATE_DIR@, name);
    lemma_last_part(STATE_DIR@, temporary);
    assert(state_file(id) =~= STATE_DIR@ + seq!['/'] + name);
    assert(temporary_file(id) =~= STATE_DIR@ + seq!['/'] + temporary);
    reveal_with_fuel(last_dot, 6);
    assert(name.drop_last().drop_last().drop_last().drop_last().last() == '.');
    assert(last_dot(name) == Some(36int));
    assert(name.skip(37) =~= "json"@);
    assert(temporary.drop_last().drop_last().drop_last().last() == '.');
    assert(last_dot(temporary) == Some(41int));
    assert(temporary.skip(42).len() == 3);
}

/// Whether a file of the state directory is a snapshot.
pub fn is_state_file(path: &str) -> (result: bool)
    ensures
        result == (extension_of(path@) == Some("json"@)),
{
    match extension(path) {
        Some(found) => same_text(found.as_str(), "json"),
        None => false,
    }
}

/// Refuses a snapshot that is larger than the limit.
pub fn check_state_size(path: &str, size: usize) -> (result: Result<(), Error>)
    ensures
        outcome(result) == if size > MAX_STATE_SIZE {
            Err::<(), Seq<char>>("Stored profile "@ + path@ + " exceeds the 1 MiB limit"@)
        } else {
            Ok(())
        },
{
    if size > MAX_STATE_SIZE {
        return Err(Error { message: text3("Stored profile ", path, " exceeds the 1 MiB limit") });
    }
    Ok(())
}

/// A file of the state directory, and what comes of reading the snapshot in it.
#[derive(Debug)]
pub struct StoredState {
    pub path: String,
    /// Why the file could not be read, if it could not.
    pub unread: Option<Error>,
    /// What comes of the snapshot in it, where it could be read.
    pub state: Result<ProtectionProfile, Error>,
}

/// What a file of the state directory holds.
pub open spec fn stored_profile(stored: StoredState) -> Result<Profile, Seq<char>> {
    match stored.unread {
        Some(error) => Err(error@),
        None => match stored.state {
            Ok(profile) => Ok(profile@),
            Err(error) => Err(
                in_context(error@, "Stored profile "@ + stored.path@ + " is invalid"@),
            ),
        },
    }
}

/// The profile that a file of the state directory holds.
pub fn read_stored(stored: StoredState) -> (result: Result<ProtectionProfile, Error>)
    ensures
        viewed(result) == stored_profile(stored),
{
    match stored.unread {
        Some(error) => Err(error),
        None => match stored.state {
            Ok(profile) => Ok(profile),
            Err(error) => {
                let context = text3("Stored profile ", stored.path.as_str(), " is invalid");
                Err(error.context(context.as_str()))
            },
        },
    }
}

/// The profiles of the first `count` files, or the first error.
pub open spec fn stored_profiles(list: Seq<StoredState>, count: nat) -> Result<
    Seq<Profile>,
    Seq<char>,
>
    decreases count,
{
    if count == 0 {
        Ok(Seq::empty())
    } else {
        match stored_profiles(list, (count - 1) as nat) {
            Err(message) => Err(message),
            Ok(before) => match stored_profile(list[count - 1]) {
                Err(message) => Err(message),
                Ok(profile) => Ok(before.push(profile)),
            },
        }
    }
}

/// All applied profiles, in the order of their identifiers, or why they could not be read.
pub open spec fn applied_profiles(list: Seq<StoredState>) -> Result<Seq<Profile>, Seq<char>> {
    match stored_profiles(list, list.len()) {
        Err(message) => Err(message),
        Ok(found) => Ok(arranged(found, by_id())),
    }
}

proof fn lemma_stored_error(list: Seq<StoredState>, hit: nat, count: nat)
    requires
        hit <= count,
        stored_profiles(list, hit) is Err,
    ensures
        stored_profiles(list, count) == stored_profiles(list, hit),
    decreases count,
{
    if hit < count {
        lemma_stored_error(list, hit, (count - 1) as nat);
    }
}

/// Takes all applied profiles from what the state directory holds.
pub fn load_all_states(list: Vec<StoredState>) -> (result: Result<Vec<ProtectionProfile>, Error>)
    ensures
        listed(result) == applied_profiles(list@),
{
    let ghost all = list@;
    let mut rest = list;
    let mut found: Vec<ProtectionProfile> = Vec::new();
    assert(profiles(found@) =~= Seq::<Profile>::empty());
    let size: usize = rest.len();
    let mut index: usize = 0;
    while index < size
        invariant
            index <= size == all.len(),
            all == list@,
            rest@ == all.skip(index as int),
            stored_profiles(all, index as nat) == Ok::<Seq<Profile>, Seq<char>>(profiles(found@)),
        decreases size - index,
    {
        let stored = rest.remove(0);
        assert(rest@ == all.skip(index + 1));
        match read_stored(stored) {
            Err(error) => {
                proof {
                    lemma_stored_error(all, (index + 1) as nat, all.len());
                }
                return Err(error);
            },
            Ok(profile) => {
                let ghost before = found@;
                found.push(profile);
                assert(profiles(found@) =~= profiles(before).push(profile@));
            },
        }
        index += 1;
    }
    Ok(sort_profiles(found))
}

/// The snapshot of one profile: none where there is no file, else what the file holds.
pub open spec fn optional_state(
    path: Seq<char>,
    exists: Result<bool, Seq<char>>,
    unread: Option<Seq<char>>,
    state: Result<Profile, Seq<char>>,
) -> Result<Option<Profile>, Seq<char>> {
    match exists {
        Err(message) => Err(message),
        Ok(false) => Ok(None),
        Ok(true) => match unread {
            Some(message) => Err(in_context(message, "Could not read stored profile "@ + path)),
            None => match state {
                Ok(profile) => Ok(Some(profile)),
                Err(message) => Err(message),
            },
        },
    }
}

/// What a result with an optional profile says.
pub open spec fn optional_profile(result: Result<Option<ProtectionProfile>, Error>) -> Result<
    Option<Profile>,
    Seq<char>,
> {
    match result {
        Ok(Some(profile)) => Ok(Some(profile@)),
        Ok(None) => Ok(None),
        Err(error) => Err(error@),
    }
}

/// Takes the snapshot of one profile from what was found of its file.
pub fn load_state_optional(exists: Result<bool, Error>, stored: StoredState) -> (result: Result<
    Option<ProtectionProfile>,
    Error,
>)
    ensures
        optional_profile(result) == optional_state(
            stored.path@,
            outcome(exists),
            crate::error::fault(stored.unread),
            viewed(stored.state),
        ),
{
    match exists {
        Err(error) => Err(error),
        Ok(false) => Ok(None),
        Ok(true) => match stored.unread {
            Some(error) => {
                let context = text2("Could not read stored profile ", stored.path.as_str());
                Err(error.context(context.as_str()))
            },
            None => match stored.state {
                Ok(profile) => Ok(Some(profile)),
                Err(error) => Err(error),
            },
        },
    }
}

} // verus!
