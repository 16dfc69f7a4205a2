//! The desired configuration: one versioned document with all profiles.

use crate::bytes::{decoded, utf8_complaint};
use crate::error::{in_context, outcome, Error};
use crate::model::{profiles, Profile, ProtectionProfile, PROFILE_SCHEMA_VERSION};
use crate::policy::{profile_fault, validate_profile};
use crate::search::{first_of, lemma_first_of, lemma_first_of_none};
use crate::text::{decimal, decimal_text, text2, text3, text4};
use crate::yaml::{reject_unsupported_yaml, yaml_fault};
use vstd::prelude::*;
use vstd::utf8::{decode_utf8, valid_utf8};

verus! {

pub const DEFAULT_CONFIG_FILE: &'static str = "/etc/microvisor.yml";

/// The largest configuration file that is read.
pub const MAX_CONFIG_SIZE: usize = 1048576;

/// How many profiles a configuration holds at most.
pub const MAX_PROFILE_COUNT: usize = 256;

/// A configuration as it was written.
#[derive(Debug)]
pub struct Configuration {
    pub schema_version: u32,
    pub profiles: Vec<DesiredProfile>,
}

/// A profile as it was written.
#[derive(Debug)]
pub struct DesiredProfile {
    pub id: u128,
    pub name: String,
    pub executable: String,
    pub data_directories: Vec<String>,
    pub launch_domain: String,
    pub launch_role: String,
    pub block_ptrace: bool,
    pub block_fd_use: bool,
}

/// The profile that is asked for.
pub open spec fn wanted(desired: DesiredProfile) -> ProtectionProfile {
    ProtectionProfile {
        schema_version: PROFILE_SCHEMA_VERSION,
        id: desired.id,
        name: desired.name,
        executable: desired.executable,
        data_directories: desired.data_directories,
        launch_domain: desired.launch_domain,
        launch_role: desired.launch_role,
        block_ptrace: desired.block_ptrace,
        block_fd_use: desired.block_fd_use,
    }
}

impl From<DesiredProfile> for ProtectionProfile {
    fn from(desired: DesiredProfile) -> (result: Self) {
        ProtectionProfile {
            schema_version: PROFILE_SCHEMA_VERSION,
            id: desired.id,
            name: desired.name,
            executable: desired.executable,
            data_directories: desired.data_directories,
            launch_domain: desired.launch_domain,
            launch_role: desired.launch_role,
            block_ptrace: desired.block_ptrace,
            block_fd_use: desired.block_fd_use,
        }
    }
}

impl vstd::std_specs::convert::FromSpecImpl<DesiredProfile> for ProtectionProfile {
    open spec fn obeys_from_spec() -> bool {
        true
    }

    open spec fn from_spec(desired: DesiredProfile) -> Self {
        wanted(desired)
    }
}

/// The profiles that a configuration asks for, in its order.
pub open spec fn wanted_profiles(list: Seq<DesiredProfile>) -> Seq<Profile> {
    list.map_values(|item: DesiredProfile| wanted(item)@)
}

/// Whether two profiles of a list have one identifier.
pub open spec fn ids_repeat(list: Seq<Profile>) -> bool {
    exists|i: int, j: int| 0 <= i < j < list.len() && #[trigger] list[i].id == #[trigger] list[j].id
}

/// What is wrong with the profile at an index by itself.
pub open spec fn profile_fault_at(list: Seq<Profile>) -> spec_fn(int) -> Option<Seq<char>> {
    |index: int| profile_fault(list[index])
}

/// What is wrong with a configuration, or nothing.
pub open spec fn configuration_fault(version: u32, list: Seq<Profile>) -> Option<Seq<char>> {
    if version != PROFILE_SCHEMA_VERSION {
        Some(
            "Unsupported configuration schema version "@ + decimal(version as nat) + "; expected "@
                + decimal(PROFILE_SCHEMA_VERSION as nat),
        )
    } else if list.len() > MAX_PROFILE_COUNT {
        Some(
            "Configuration contains "@ + decimal(list.len()) + " profiles; the limit is "@
                + decimal(MAX_PROFILE_COUNT as nat),
        )
    } else if first_of(list.len(), profile_fault_at(list)) is Some {
        first_of(list.len(), profile_fault_at(list))
    } else if ids_repeat(list) {
        Some("Configuration contains duplicate profile IDs"@)
    } else {
        None
    }
}

/// What comes of a parsed configuration: its profiles, what is wrong with it, or why it could not
/// be parsed.
pub open spec fn accepted(parsed: Result<Configuration, Seq<char>>) -> Result<
    Seq<Profile>,
    Seq<char>,
> {
    match parsed {
        Err(message) => Err(message),
        Ok(configuration) => {
            let list = wanted_profiles(configuration.profiles@);
            match configuration_fault(configuration.schema_version, list) {
                Some(message) => Err(message),
                None => Ok(list),
            }
        },
    }
}

/// What a result with a list of profiles says.
pub open spec fn listed(result: Result<Vec<ProtectionProfile>, Error>) -> Result<
    Seq<Profile>,
    Seq<char>,
> {
    match result {
        Ok(list) => Ok(profiles(list@)),
        Err(error) => Err(error@),
    }
}

/// Refuses a list in which two profiles have one identifier.
pub fn ensure_unique_ids(list: &Vec<ProtectionProfile>) -> (result: Result<(), Error>)
    ensures
        outcome(result) == if ids_repeat(profiles(list@)) {
            Err::<(), Seq<char>>("Configuration contains duplicate profile IDs"@)
        } else {
            Ok(())
        },
{
    let ghost all = profiles(list@);
    let mut index: usize = 0;
    while index < list.len()
        invariant
            index <= list@.len(),
            all == profiles(list@),
            forall|i: int, j: int|
                0 <= i < index && i < j < all.len() ==> #[trigger] all[i].id != #[trigger] all[j].id,
        decreases list.len() - index,
    {
        let mut other: usize = index + 1;
        while other < list.len()
            invariant
                index < other <= list@.len(),
                all == profiles(list@),
                forall|j: int| index < j < other ==> all[index as int].id != #[trigger] all[j].id,
            decreases list.len() - other,
        {
            if list[index].id == list[other].id {
                assert(all[index as int].id == all[other as int].id);
                return Err(Error::new("Configuration contains duplicate profile IDs"));
            }
            other += 1;
        }
        index += 1;
    }
    Ok(())
}

/// Turns what was written into profiles, each with the version of the document.
fn desired_profiles(list: Vec<DesiredProfile>) -> (result: Vec<ProtectionProfile>)
    ensures
        profiles(result@) == wanted_profiles(list@),
{
    let ghost all = list@;
    let mut rest = list;
    let mut result: Vec<ProtectionProfile> = Vec::new();
    let size: usize = rest.len();
    let mut index: usize = 0;
    while index < size
        invariant
            index <= size == all.len(),
            rest@ == all.skip(index as int),
            result@.len() == index,
            forall|i: int| 0 <= i < index ==> #[trigger] result@[i] == wanted(all[i]),
        decreases size - index,
    {
        let desired = rest.remove(0);
        assert(rest@ == all.skip(index + 1));
        result.push(ProtectionProfile::from(desired));
        index += 1;
    }
    assert(profiles(result@) == wanted_profiles(all));
    result
}

/// Decides over a parsed configuration.
pub fn accept_configuration(parsed: Result<Configuration, Error>) -> (result: Result<
    Vec<ProtectionProfile>,
    Error,
>)
    ensures
        listed(result) == accepted(outcome(parsed)),
{
    let configuration = match parsed {
        Err(error) => {
            return Err(error);
        },
        Ok(configuration) => configuration,
    };
    if configuration.schema_version != PROFILE_SCHEMA_VERSION {
        let version = decimal_text(configuration.schema_version as u64);
        let expected = decimal_text(PROFILE_SCHEMA_VERSION as u64);
        let message = text4(
            "Unsupported configuration schema version ",
            version.as_str(),
            "; expected ",
            expected.as_str(),
        );
        return Err(Error { message });
    }
    if configuration.profiles.len() > MAX_PROFILE_COUNT {
        let count = decimal_text(configuration.profiles.len() as u64);
        let limit = decimal_text(MAX_PROFILE_COUNT as u64);
        let message = text4(
            "Configuration contains ",
            count.as_str(),
            " profiles; the limit is ",
            limit.as_str(),
        );
        return Err(Error { message });
    }
    let list = desired_profiles(configuration.profiles);
    let ghost all = profiles(list@);
    let ghost probe = profile_fault_at(all);
    let mut index: usize = 0;
    while index < list.len()
        invariant
            index <= list@.len(),
            all == profiles(list@),
            probe == profile_fault_at(all),
            all == wanted_profiles(configuration.profiles@),
            configuration.schema_version == PROFILE_SCHEMA_VERSION,
            all.len() <= MAX_PROFILE_COUNT,
            first_of(index as nat, probe) is None,
            outcome(parsed) == Ok::<Configuration, Seq<char>>(configuration),
        decreases list.len() - index,
    {
        assert(all[index as int] == list@[index as int]@);
        if let Err(error) = validate_profile(&list[index]) {
            proof {
                assert(probe(index as int) == Some(error@));
                lemma_first_of((index + 1) as nat, all.len(), probe);
            }
            return Err(error);
        }
        assert(probe(index as int) is None);
        index += 1;
    }
    match ensure_unique_ids(&list) {
        Err(error) => Err(error),
        Ok(()) => Ok(list),
    }
}

/// Reads a configuration. The text is parsed only where it keeps to the accepted subset of YAML.
pub fn parse_config<F: FnOnce(&str) -> Result<Configuration, Error>>(
    text: &str,
    parse: F,
) -> (result: Result<Vec<ProtectionProfile>, Error>)
    requires
        yaml_fault(text@) is None ==> parse.requires((text,)),
    ensures
        match yaml_fault(text@) {
            Some(message) => listed(result) == Err::<Seq<Profile>, Seq<char>>(message),
            None => exists|parsed: Result<Configuration, Error>| #[trigger]
                parse.ensures((text,), parsed) && listed(result) == accepted(outcome(parsed)),
        },
{
    if let Err(error) = reject_unsupported_yaml(text) {
        return Err(error);
    }
    let parsed = parse(text);
    accept_configuration(parsed)
}

/// The text of a configuration file, or why there is none.
pub open spec fn config_text(path: Seq<char>, bytes: Seq<u8>) -> Result<Seq<char>, Seq<char>> {
    if bytes.len() > MAX_CONFIG_SIZE {
        Err("Configuration file "@ + path + " exceeds the 1 MiB limit"@)
    } else if !valid_utf8(bytes) {
        Err(
            in_context(
                utf8_complaint(bytes),
                "Configuration file "@ + path + " must be UTF-8"@,
            ),
        )
    } else {
        Ok(decode_utf8(bytes))
    }
}

/// Takes the bytes of a configuration file for text.
pub fn read_config_text(path: &str, bytes: &Vec<u8>) -> (result: Result<String, Error>)
    ensures
        crate::error::viewed(result) == config_text(path@, bytes@),
{
    if bytes.len() > MAX_CONFIG_SIZE {
        let message = text3("Configuration file ", path, " exceeds the 1 MiB limit");
        return Err(Error { message });
    }
    match decoded(bytes.as_slice()) {
        Ok(text) => Ok(text),
        Err(complaint) => {
            let context = text3("Configuration file ", path, " must be UTF-8");
            let error = Error { message: complaint };
            Err(error.context(context.as_str()))
        },
    }
}

/// A refusal of the text of a configuration file, with the file's name.
pub open spec fn unparsed(path: Seq<char>, message: Seq<char>) -> Seq<char> {
    in_context(message, "Could not parse configuration file "@ + path)
}

/// Whether a text is what a parser was handed, and `parsed` what it gave back.
pub open spec fn came_of<F: FnOnce(&str) -> Result<Configuration, Error>>(
    parse: F,
    text: &str,
    parsed: Result<Configuration, Error>,
) -> bool {
    parse.ensures((text,), parsed)
}

/// Reads the profiles out of the bytes of a configuration file.
pub fn load_profiles<F: FnOnce(&str) -> Result<Configuration, Error>>(
    path: &str,
    bytes: &Vec<u8>,
    parse: F,
) -> (result: Result<Vec<ProtectionProfile>, Error>)
    requires
        forall|text: &str|
            config_text(path@, bytes@) == Ok::<Seq<char>, Seq<char>>(text@) && yaml_fault(
                text@,
            ) is None ==> #[trigger] parse.requires((text,)),
    ensures
        match config_text(path@, bytes@) {
            Err(message) => listed(result) == Err::<Seq<Profile>, Seq<char>>(message),
            Ok(content) => match yaml_fault(content) {
                Some(message) => listed(result) == Err::<Seq<Profile>, Seq<char>>(
                    unparsed(path@, message),
                ),
                None => exists|text: &str, parsed: Result<Configuration, Error>|
                    text@ == content && #[trigger] came_of(parse, text, parsed) && listed(result)
                        == match accepted(outcome(parsed)) {
                        Ok(list) => Ok::<Seq<Profile>, Seq<char>>(list),
                        Err(message) => Err(unparsed(path@, message)),
                    },
            },
        },
{
    let content = match read_config_text(path, bytes) {
        Err(error) => {
            return Err(error);
        },
        Ok(content) => content,
    };
    let text = content.as_str();
    match parse_config(text, parse) {
        Ok(list) => {
            proof {
                let parsed = choose|parsed: Result<Configuration, Error>| #[trigger]
                    parse.ensures((text,), parsed) && accepted(outcome(parsed)) == Ok::<
                        Seq<Profile>,
                        Seq<char>,
                    >(profiles(list@));
                assert(came_of(parse, text, parsed));
            }
            Ok(list)
        },
        Err(error) => {
            proof {
                if yaml_fault(text@) is None {
                    let parsed = choose|parsed: Result<Configuration, Error>| #[trigger]
                        parse.ensures((text,), parsed) && accepted(outcome(parsed)) == Err::<
                            Seq<Profile>,
                            Seq<char>,
                        >(error@);
                    assert(came_of(parse, text, parsed));
                }
            }
            let context = text2("Could not parse configuration file ", path);
            Err(error.context(context.as_str()))
        },
    }
}

/// An accepted configuration has the supported version, no more profiles than the limit, only
/// valid profiles, and no identifier twice.
pub proof fn accepted_configurations_are_sound(configuration: Configuration)
    requires
        accepted(Ok(configuration)) is Ok,
    ensures
        configuration.schema_version == PROFILE_SCHEMA_VERSION,
        configuration.profiles@.len() <= MAX_PROFILE_COUNT,
        forall|i: int|
            0 <= i < configuration.profiles@.len() ==> profile_fault(
                #[trigger] wanted_profiles(configuration.profiles@)[i],
            ) is None,
        forall|i: int, j: int|
            0 <= i < j < configuration.profiles@.len() ==> #[trigger] configuration.profiles@[i].id
                != #[trigger] configuration.profiles@[j].id,
{
    let list = wanted_profiles(configuration.profiles@);
    lemma_first_of_none(list.len(), profile_fault_at(list));
    assert forall|i: int| 0 <= i < list.len() implies profile_fault(#[trigger] list[i]) is None by {
        assert(profile_fault_at(list)(i) is None);
    }
    assert forall|i: int, j: int|
        0 <= i < j < list.len() implies #[trigger] configuration.profiles@[i].id
        != #[trigger] configuration.profiles@[j].id by {
        assert(list[i].id == configuration.profiles@[i].id);
        assert(list[j].id == configuration.profiles@[j].id);
    }
}

} // verus!
