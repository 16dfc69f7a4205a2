//! The configuration: what is taken from it, and when it is refused.

use crate::bytes::utf8_complaint;
use crate::config::{
    accepted, config_text, ids_repeat, profile_fault_at, wanted, wanted_profiles, Configuration,
    DesiredProfile,
};
use crate::engine::state::{restored, upgraded, AppliedState, LegacyAppliedProfile};
use crate::model::{Profile, ProtectionProfile};
use crate::policy::profile_fault;
use crate::search::lemma_first_of_none;
use crate::text::{decimal, strings};
use vstd::prelude::*;
use vstd::utf8::{decode_utf8, valid_utf8};

verus! {

/// A profile that is asked for is what was written, field by field, with the version of the document.
pub proof fn desired_profiles_keep_every_field(desired: DesiredProfile)
    ensures
        ({
            let profile = wanted(desired);
            &&& profile.schema_version == 1
            &&& profile.id == desired.id
            &&& profile.name == desired.name
            &&& profile.executable == desired.executable
            &&& profile.data_directories == desired.data_directories
            &&& profile.launch_domain == desired.launch_domain
            &&& profile.launch_role == desired.launch_role
            &&& profile.block_ptrace == desired.block_ptrace
            &&& profile.block_fd_use == desired.block_fd_use
        }),
        <ProtectionProfile as vstd::std_specs::convert::FromSpec<DesiredProfile>>::from_spec(desired)
            == wanted(desired),
{
}

/// Whether a profile says what was written.
pub open spec fn says(profile: Profile, desired: DesiredProfile) -> bool {
    &&& profile.schema_version == 1
    &&& profile.id == desired.id
    &&& profile.name == desired.name@
    &&& profile.executable == desired.executable@
    &&& profile.data_directories.len() == desired.data_directories@.len()
    &&& forall|i: int|
        0 <= i < desired.data_directories@.len() ==> #[trigger] profile.data_directories[i]
            == desired.data_directories@[i]@
    &&& profile.launch_domain == desired.launch_domain@
    &&& profile.launch_role == desired.launch_role@
    &&& profile.block_ptrace == desired.block_ptrace
    &&& profile.block_fd_use == desired.block_fd_use
}

/// An accepted configuration yields its profiles, one for each that was written, in the same order,
/// and each says exactly what was written.
pub proof fn accepted_configurations_keep_every_field(configuration: Configuration)
    ensures
        accepted(Ok(configuration)) matches Ok(list) ==> list.len()
            == configuration.profiles@.len() && forall|i: int|
            0 <= i < list.len() ==> says(#[trigger] list[i], configuration.profiles@[i]),
{
    let list = wanted_profiles(configuration.profiles@);
    assert forall|i: int| 0 <= i < list.len() implies says(
        #[trigger] list[i],
        configuration.profiles@[i],
    ) by {
        let desired = configuration.profiles@[i];
        assert(list[i] == wanted(desired)@);
        assert(list[i].data_directories == strings(desired.data_directories@));
    }
}

/// Whether the profiles of a configuration can be accepted together.
pub open spec fn is_acceptable(configuration: Configuration) -> bool {
    &&& configuration.schema_version == 1
    &&& configuration.profiles@.len() <= 256
    &&& forall|i: int|
        0 <= i < configuration.profiles@.len() ==> profile_fault(
            wanted(#[trigger] configuration.profiles@[i])@,
        ) is None
    &&& forall|i: int, j: int|
        0 <= i < j < configuration.profiles@.len() ==> (#[trigger] configuration.profiles@[i]).id
            != (#[trigger] configuration.profiles@[j]).id
}

/// A configuration is accepted exactly where it has the supported version, at most as many profiles
/// as are allowed, only valid ones, and no identifier twice. A parser's refusal is handed on.
pub proof fn configurations_are_accepted_by_rule(configuration: Configuration, message: Seq<char>)
    ensures
        accepted(Ok(configuration)) is Ok <==> is_acceptable(configuration),
        accepted(Err(message)) == Err::<Seq<Profile>, Seq<char>>(message),
{
    let list = wanted_profiles(configuration.profiles@);
    let probe = profile_fault_at(list);
    lemma_first_of_none(list.len(), probe);
    assert forall|i: int| 0 <= i < list.len() implies #[trigger] list[i] == wanted(
        configuration.profiles@[i],
    )@ by {}
    if accepted(Ok(configuration)) is Ok {
        assert forall|i: int| 0 <= i < list.len() implies profile_fault(
            wanted(#[trigger] configuration.profiles@[i])@,
        ) is None by {
            assert(probe(i) is None);
            assert(list[i] == wanted(configuration.profiles@[i])@);
        }
        assert forall|i: int, j: int| 0 <= i < j < list.len() implies (
        #[trigger] configuration.profiles@[i]).id != (#[trigger] configuration.profiles@[j]).id by {
            assert(list[i].id == configuration.profiles@[i].id);
            assert(list[j].id == configuration.profiles@[j].id);
        }
    }
    if is_acceptable(configuration) {
        assert forall|i: int| 0 <= i < list.len() implies (#[trigger] probe(i)) is None by {
            assert(profile_fault(wanted(configuration.profiles@[i])@) is None);
            assert(list[i] == wanted(configuration.profiles@[i])@);
        }
        if ids_repeat(list) {
            let (i, j) = choose|i: int, j: int|
                0 <= i < j < list.len() && #[trigger] list[i].id == #[trigger] list[j].id;
            assert(configuration.profiles@[i].id != configuration.profiles@[j].id);
        }
    }
}

/// The error of a refused configuration names the first thing that is wrong with it: the version, the
/// number of profiles, the first profile that is not valid, and only then an identifier that stands
/// twice.
pub proof fn refusals_name_the_first_fault(configuration: Configuration, index: int)
    ensures
        configuration.schema_version != 1 ==> accepted(Ok(configuration)) == Err::<
            Seq<Profile>,
            Seq<char>,
        >(
            "Unsupported configuration schema version "@ + decimal(
                configuration.schema_version as nat,
            ) + "; expected "@ + decimal(1),
        ),
        configuration.schema_version == 1 && configuration.profiles@.len() > 256 ==> accepted(
            Ok(configuration),
        ) == Err::<Seq<Profile>, Seq<char>>(
            "Configuration contains "@ + decimal(configuration.profiles@.len())
                + " profiles; the limit is "@ + decimal(256),
        ),
        ({
            &&& configuration.schema_version == 1
            &&& configuration.profiles@.len() <= 256
            &&& 0 <= index < configuration.profiles@.len()
            &&& profile_fault(wanted(configuration.profiles@[index])@) is Some
            &&& forall|i: int|
                0 <= i < index ==> profile_fault(
                    wanted(#[trigger] configuration.profiles@[i])@,
                ) is None
        }) ==> accepted(Ok(configuration)) == Err::<Seq<Profile>, Seq<char>>(
            profile_fault(wanted(configuration.profiles@[index])@)->Some_0,
        ),
{
    let list = wanted_profiles(configuration.profiles@);
    let probe = profile_fault_at(list);
    assert(list.len() == configuration.profiles@.len());
    if configuration.schema_version == 1 && list.len() <= 256 && 0 <= index < list.len()
        && profile_fault(wanted(configuration.profiles@[index])@) is Some && (forall|i: int|
        0 <= i < index ==> profile_fault(wanted(#[trigger] configuration.profiles@[i])@) is None) {
        assert(list[index] == wanted(configuration.profiles@[index])@);
        assert forall|i: int| 0 <= i < index implies (#[trigger] probe(i)) is None by {
            assert(list[i] == wanted(configuration.profiles@[i])@);
            assert(profile_fault(wanted(configuration.profiles@[i])@) is None);
        }
        lemma_first_of_none(index as nat, probe);
        assert(probe(index) is Some);
        crate::search::lemma_first_of((index + 1) as nat, list.len(), probe);
    }
}

/// The bytes of a configuration file are taken for text exactly where there are no more than a
/// mebibyte of them and they are UTF-8, and then for the text that they encode.
pub proof fn configuration_files_are_bounded_text(path: Seq<char>, bytes: Seq<u8>)
    ensures
        config_text(path, bytes) is Ok <==> bytes.len() <= 1048576 && valid_utf8(bytes),
        config_text(path, bytes) matches Ok(text) ==> text == decode_utf8(bytes),
        bytes.len() > 1048576 ==> config_text(path, bytes) == Err::<Seq<char>, Seq<char>>(
            "Configuration file "@ + path + " exceeds the 1 MiB limit"@,
        ),
        bytes.len() <= 1048576 && !valid_utf8(bytes) ==> config_text(path, bytes) == Err::<
            Seq<char>,
            Seq<char>,
        >("Configuration file "@ + path + " must be UTF-8"@ + ": "@ + utf8_complaint(bytes)),
{
}

/// Whether a profile is what a snapshot without a version says.
pub open spec fn continues(profile: Profile, legacy: LegacyAppliedProfile) -> bool {
    &&& profile.schema_version == 1
    &&& profile.id == legacy.id
    &&& profile.name == legacy.name@
    &&& profile.executable == legacy.executable@
    &&& profile.data_directories.len() == legacy.data_directories@.len()
    &&& forall|i: int|
        0 <= i < legacy.data_directories@.len() ==> #[trigger] profile.data_directories[i]
            == legacy.data_directories@[i]@
    &&& profile.launch_domain == legacy.launch_domain@
    &&& profile.launch_role == legacy.launch_role@
    &&& profile.block_ptrace == legacy.block_ptrace
    &&& profile.block_fd_use == legacy.block_fd_use
}

/// A snapshot is read as it was written. A current one counts only in its own version; one without a
/// version counts only where there is no current one. Neither is taken where its profile is not
/// valid.
pub proof fn snapshots_are_read_by_rule(
    current: Result<AppliedState, Seq<char>>,
    legacy: Result<LegacyAppliedProfile, Seq<char>>,
)
    ensures
        restored(current, legacy) matches Ok(profile) ==> match current {
            Ok(state) => state.state_schema_version == 1 && profile == state.profile@,
            Err(_) => legacy matches Ok(old) && continues(profile, old),
        },
        current matches Ok(state) ==> (restored(current, legacy) is Ok
            <==> state.state_schema_version == 1 && profile_fault(state.profile@) is None),
        current is Err ==> (restored(current, legacy) is Ok <==> legacy is Ok && profile_fault(
            upgraded(legacy->Ok_0)@,
        ) is None),
        current matches Ok(state) && state.state_schema_version != 1 ==> restored(current, legacy)
            == Err::<Profile, Seq<char>>(
            "Unsupported applied-state schema version "@ + decimal(
                current->Ok_0.state_schema_version as nat,
            ),
        ),
        current is Err && legacy is Err ==> restored(current, legacy) == Err::<Profile, Seq<char>>(
            "Invalid current state ("@ + current->Err_0 + ") and invalid legacy state"@ + ": "@
                + legacy->Err_0,
        ),
{
    if let Ok(old) = legacy {
        assert(continues(upgraded(old)@, old)) by {
            assert(upgraded(old)@.data_directories == strings(old.data_directories@));
        }
    }
}

} // verus!
