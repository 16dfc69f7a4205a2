//! Protection profiles and the SELinux identifiers derived from them.

use crate::id::{compact, compact_is_injective, compact_text, lemma_hex_digits, random_id};
use crate::path::{path_equal, same_path};
use crate::text::{same_text, strings, text2};
use vstd::prelude::*;

verus! {

pub const PROFILE_SCHEMA_VERSION: u32 = 1;

/// What is protected, and for which application.
#[derive(Debug)]
pub struct ProtectionProfile {
    pub schema_version: u32,
    pub id: u128,
    pub name: String,
    pub executable: String,
    pub data_directories: Vec<String>,
    pub launch_domain: String,
    pub launch_role: String,
    pub block_ptrace: bool,
    pub block_fd_use: bool,
}

/// A profile as a value.
pub struct Profile {
    pub schema_version: u32,
    pub id: u128,
    pub name: Seq<char>,
    pub executable: Seq<char>,
    pub data_directories: Seq<Seq<char>>,
    pub launch_domain: Seq<char>,
    pub launch_role: Seq<char>,
    pub block_ptrace: bool,
    pub block_fd_use: bool,
}

impl View for ProtectionProfile {
    type V = Profile;

    open spec fn view(&self) -> Profile {
        Profile {
            schema_version: self.schema_version,
            id: self.id,
            name: self.name@,
            executable: self.executable@,
            data_directories: strings(self.data_directories@),
            launch_domain: self.launch_domain@,
            launch_role: self.launch_role@,
            block_ptrace: self.block_ptrace,
            block_fd_use: self.block_fd_use,
        }
    }
}

pub open spec fn profiles(list: Seq<ProtectionProfile>) -> Seq<Profile> {
    list.map_values(|item: ProtectionProfile| item@)
}

/// What an optional profile holds.
pub open spec fn known(profile: Option<&ProtectionProfile>) -> Option<Profile> {
    match profile {
        Some(value) => Some(value@),
        None => None,
    }
}

/// Whether two lists hold the same paths in the same places.
pub open spec fn same_paths(left: Seq<Seq<char>>, right: Seq<Seq<char>>) -> bool {
    left.len() == right.len() && forall|i: int|
        0 <= i < left.len() ==> path_equal(#[trigger] left[i], right[i])
}

/// Whether two profiles say the same. Paths are compared by their components.
pub open spec fn same_profile(left: Profile, right: Profile) -> bool {
    &&& left.schema_version == right.schema_version
    &&& left.id == right.id
    &&& left.name == right.name
    &&& path_equal(left.executable, right.executable)
    &&& same_paths(left.data_directories, right.data_directories)
    &&& left.launch_domain == right.launch_domain
    &&& left.launch_role == right.launch_role
    &&& left.block_ptrace == right.block_ptrace
    &&& left.block_fd_use == right.block_fd_use
}

/// A copy of a list of strings.
pub fn copy_strings(list: &Vec<String>) -> (result: Vec<String>)
    ensures
        strings(result@) == strings(list@),
{
    let mut result: Vec<String> = Vec::new();
    let mut index: usize = 0;
    while index < list.len()
        invariant
            index <= list@.len(),
            result@.len() == index,
            forall|i: int| 0 <= i < index ==> #[trigger] result@[i]@ == list@[i]@,
        decreases list.len() - index,
    {
        result.push(list[index].clone());
        index += 1;
    }
    assert(strings(result@) == strings(list@));
    result
}

impl Clone for ProtectionProfile {
    fn clone(&self) -> (result: Self)
        ensures
            result@ == self@,
    {
        ProtectionProfile {
            schema_version: self.schema_version,
            id: self.id,
            name: self.name.clone(),
            executable: self.executable.clone(),
            data_directories: copy_strings(&self.data_directories),
            launch_domain: self.launch_domain.clone(),
            launch_role: self.launch_role.clone(),
            block_ptrace: self.block_ptrace,
            block_fd_use: self.block_fd_use,
        }
    }
}

fn equal_paths(left: &Vec<String>, right: &Vec<String>) -> (result: bool)
    ensures
        result == same_paths(strings(left@), strings(right@)),
{
    if left.len() != right.len() {
        return false;
    }
    let mut index: usize = 0;
    while index < left.len()
        invariant
            index <= left@.len(),
            left@.len() == right@.len(),
            forall|i: int|
                0 <= i < index ==> path_equal(#[trigger] strings(left@)[i], strings(right@)[i]),
        decreases left.len() - index,
    {
        if !same_path(left[index].as_str(), right[index].as_str()) {
            assert(!path_equal(strings(left@)[index as int], strings(right@)[index as int]));
            return false;
        }
        index += 1;
    }
    true
}

impl PartialEq for ProtectionProfile {
    fn eq(&self, other: &Self) -> (result: bool) {
        self.schema_version == other.schema_version && self.id == other.id && same_text(
            self.name.as_str(),
            other.name.as_str(),
        ) && same_path(self.executable.as_str(), other.executable.as_str()) && equal_paths(
            &self.data_directories,
            &other.data_directories,
        ) && same_text(self.launch_domain.as_str(), other.launch_domain.as_str()) && same_text(
            self.launch_role.as_str(),
            other.launch_role.as_str(),
        ) && self.block_ptrace == other.block_ptrace && self.block_fd_use == other.block_fd_use
    }
}

impl vstd::std_specs::cmp::PartialEqSpecImpl for ProtectionProfile {
    open spec fn obeys_eq_spec() -> bool {
        true
    }

    open spec fn eq_spec(&self, other: &Self) -> bool {
        same_profile(self@, other@)
    }
}

/// A new profile's fields, for whatever identifier was drawn.
pub open spec fn blank_profile(id: u128) -> Profile {
    Profile {
        schema_version: PROFILE_SCHEMA_VERSION,
        id,
        name: Seq::empty(),
        executable: Seq::empty(),
        data_directories: Seq::empty(),
        launch_domain: "unconfined_t"@,
        launch_role: "unconfined_r"@,
        block_ptrace: true,
        block_fd_use: false,
    }
}

/// Whether an identifier carries the marks of a random one.
pub open spec fn is_random_id(id: u128) -> bool {
    (id >> 76) & 0xF == 4 && (id >> 62) & 0x3 == 2
}

/// The SELinux names that belong to one profile.
#[derive(Debug, Clone, PartialEq, Eq)]
pub struct PolicyIdentifiers {
    pub module: String,
    pub deny_module: String,
    pub app_type: String,
    pub exec_type: String,
    pub data_type: String,
    pub allowed_attribute: String,
    pub denied_attribute: String,
}

/// The SELinux names that belong to one profile, as values.
pub struct Names {
    pub module: Seq<char>,
    pub deny_module: Seq<char>,
    pub app_type: Seq<char>,
    pub exec_type: Seq<char>,
    pub data_type: Seq<char>,
    pub allowed_attribute: Seq<char>,
    pub denied_attribute: Seq<char>,
}

impl View for PolicyIdentifiers {
    type V = Names;

    open spec fn view(&self) -> Names {
        Names {
            module: self.module@,
            deny_module: self.deny_module@,
            app_type: self.app_type@,
            exec_type: self.exec_type@,
            data_type: self.data_type@,
            allowed_attribute: self.allowed_attribute@,
            denied_attribute: self.denied_attribute@,
        }
    }
}

/// The name of the module of a profile.
pub open spec fn module_name(id: u128) -> Seq<char> {
    "microvisor_"@ + compact(id)
}

/// The names of a profile. They depend on its identifier alone.
pub open spec fn names_of(id: u128) -> Names {
    Names {
        module: module_name(id),
        deny_module: module_name(id) + "_deny"@,
        app_type: module_name(id) + "_t"@,
        exec_type: module_name(id) + "_exec_t"@,
        data_type: module_name(id) + "_data_t"@,
        allowed_attribute: module_name(id) + "_allowed_subjects"@,
        denied_attribute: module_name(id) + "_denied_subjects"@,
    }
}

/// The characters that generated names are made of.
pub open spec fn is_name_character(character: char) -> bool {
    let code = character as int;
    48 <= code <= 57 || 97 <= code <= 122 || code == 95
}

/// Whether a text can stand as a name in a policy: letters, digits and underscores, and a letter
/// first.
pub open spec fn is_generated_name(text: Seq<char>) -> bool {
    &&& text.len() > 0
    &&& 97 <= text[0] as int <= 122
    &&& forall|i: int| 0 <= i < text.len() ==> is_name_character(#[trigger] text[i])
}

proof fn lemma_module_name(id: u128)
    ensures
        module_name(id).len() == 43,
        module_name(id).skip(11) == compact(id),
        is_generated_name(module_name(id)),
{
    reveal_strlit("microvisor_");
    lemma_hex_digits(id as nat, 32);
    let name = module_name(id);
    assert("microvisor_"@.len() == 11);
    assert(name.skip(11) =~= compact(id));
    assert forall|i: int| 0 <= i < name.len() implies is_name_character(#[trigger] name[i]) by {
        if i >= 11 {
            assert(name[i] == compact(id)[i - 11]);
        }
    }
}

/// No two profiles share a name: whatever is put behind their module names, texts that are equal
/// come from one identifier and one suffix.
pub proof fn names_belong_to_one_profile(
    left: u128,
    right: u128,
    left_suffix: Seq<char>,
    right_suffix: Seq<char>,
)
    ensures
        module_name(left) + left_suffix == module_name(right) + right_suffix ==> left == right
            && left_suffix == right_suffix,
{
    lemma_module_name(left);
    lemma_module_name(right);
    let first = module_name(left) + left_suffix;
    let second = module_name(right) + right_suffix;
    if first == second {
        assert(first.take(43) =~= module_name(left));
        assert(second.take(43) =~= module_name(right));
        assert(first.skip(43) =~= left_suffix);
        assert(second.skip(43) =~= right_suffix);
        compact_is_injective(left, right);
    }
}

/// Every generated name is a well-formed identifier, whatever the profile holds.
pub proof fn generated_names_are_well_formed(id: u128)
    ensures
        is_generated_name(names_of(id).module),
        is_generated_name(names_of(id).deny_module),
        is_generated_name(names_of(id).app_type),
        is_generated_name(names_of(id).exec_type),
        is_generated_name(names_of(id).data_type),
        is_generated_name(names_of(id).allowed_attribute),
        is_generated_name(names_of(id).denied_attribute),
{
    lemma_module_name(id);
    reveal_strlit("_deny");
    reveal_strlit("_t");
    reveal_strlit("_exec_t");
    reveal_strlit("_data_t");
    reveal_strlit("_allowed_subjects");
    reveal_strlit("_denied_subjects");
}

impl ProtectionProfile {
    /// An empty profile with a random identifier.
    pub fn new() -> (result: Self)
        ensures
            result@ == blank_profile(result.id),
            is_random_id(result.id),
    {
        let result = ProtectionProfile {
            schema_version: PROFILE_SCHEMA_VERSION,
            id: random_id(),
            name: String::new(),
            executable: String::new(),
            data_directories: Vec::new(),
            launch_domain: "unconfined_t".to_owned(),
            launch_role: "unconfined_r".to_owned(),
            block_ptrace: true,
            block_fd_use: false,
        };
        assert(strings(result.data_directories@) == Seq::<Seq<char>>::empty());
        result
    }

    /// The SELinux names of the profile. Every one is derived from the identifier, never from text
    /// that a user wrote.
    pub fn identifiers(&self) -> (result: PolicyIdentifiers)
        ensures
            result@ == names_of(self.id),
    {
        let digits = compact_text(self.id);
        let module = text2("microvisor_", digits.as_str());
        PolicyIdentifiers {
            app_type: text2(module.as_str(), "_t"),
            exec_type: text2(module.as_str(), "_exec_t"),
            data_type: text2(module.as_str(), "_data_t"),
            deny_module: text2(module.as_str(), "_deny"),
            allowed_attribute: text2(module.as_str(), "_allowed_subjects"),
            denied_attribute: text2(module.as_str(), "_denied_subjects"),
            module,
        }
    }
}

impl Default for ProtectionProfile {
    fn default() -> (result: Self)
        ensures
            result@ == blank_profile(result.id),
            is_random_id(result.id),
    {
        ProtectionProfile::new()
    }
}

} // verus!
