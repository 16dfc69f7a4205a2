//! The rules for profiles, and the policy that is generated from them.

use crate::error::{viewed, Error};
use crate::model::{
    names_of, Names, PolicyIdentifiers, Profile, ProtectionProfile, PROFILE_SCHEMA_VERSION,
};
use crate::path::{
    components, is_absolute, normal_component_count, parts, path_equal, same_path, Component, Part,
};
use crate::search::{first_of, lemma_first_of, lemma_first_of_none};
use crate::text::{
    characters, decimal, decimal_text, ends, ends_with, lemma_occurs_self, lemma_occurs_within,
    occurs, occurs_at, strings, text2, text3, to_text,
};
use vstd::prelude::*;

verus! {

/// How many names a protected directory has at least.
pub const MIN_DIRECTORY_NAMES: usize = 3;

pub open spec fn is_control(character: char) -> bool {
    let code = character as int;
    code <= 0x1F || 0x7F <= code <= 0x9F
}

/// Whether a control character stands anywhere in the text.
pub open spec fn has_control(text: Seq<char>) -> bool {
    exists|i: int| 0 <= i < text.len() && is_control(#[trigger] text[i])
}

/// Whether a path could name something else than it seems to: it is relative, holds control
/// characters, or steps back through a parent directory.
pub open spec fn is_unsafe_path(path: Seq<char>) -> bool {
    !is_absolute(path) || has_control(path) || parts(path).contains(Part::Parent)
}

pub open spec fn is_letter(character: char) -> bool {
    let code = character as int;
    65 <= code <= 90 || 97 <= code <= 122
}

pub open spec fn is_word_character(character: char) -> bool {
    let code = character as int;
    is_letter(character) || 48 <= code <= 57 || code == 95
}

/// Whether a text is a name in the policy language: a letter, then letters, digits and
/// underscores.
pub open spec fn is_identifier(text: Seq<char>) -> bool {
    &&& text.len() > 0
    &&& is_letter(text[0])
    &&& forall|i: int| 0 <= i < text.len() ==> is_word_character(#[trigger] text[i])
}

pub open spec fn unsafe_path_message(path: Seq<char>) -> Seq<char> {
    "The path '"@ + path
        + "' must be absolute, without control characters and parent components"@
}

pub open spec fn broad_message(path: Seq<char>) -> Seq<char> {
    path + " is too broad to protect safely; select an application-specific subdirectory"@
}

/// What is wrong with one protected directory by itself.
pub open spec fn directory_fault(path: Seq<char>) -> Option<Seq<char>> {
    if is_unsafe_path(path) {
        Some(unsafe_path_message(path))
    } else if crate::path::names(parts(path)) < MIN_DIRECTORY_NAMES {
        Some(broad_message(path))
    } else {
        None
    }
}

/// Whether the path at `index` stands in the list before.
pub open spec fn is_repeated(paths: Seq<Seq<char>>, index: int) -> bool {
    exists|i: int| 0 <= i < index && path_equal(#[trigger] paths[i], paths[index])
}

pub open spec fn repeated_message(path: Seq<char>) -> Seq<char> {
    "The protected directory "@ + path + " is listed more than once"@
}

/// What is wrong with the directory at an index of the list.
pub open spec fn directory_fault_at(paths: Seq<Seq<char>>) -> spec_fn(int) -> Option<Seq<char>> {
    |index: int|
        match directory_fault(paths[index]) {
            Some(message) => Some(message),
            None => if is_repeated(paths, index) {
                Some(repeated_message(paths[index]))
            } else {
                None
            },
        }
}

pub open spec fn schema_message(version: u32) -> Seq<char> {
    "Unsupported profile schema version "@ + decimal(version as nat)
}

pub open spec fn domain_message(domain: Seq<char>) -> Seq<char> {
    "The launch domain '"@ + domain + "' must be an SELinux identifier that ends with '_t'"@
}

pub open spec fn role_message(role: Seq<char>) -> Seq<char> {
    "The launch role '"@ + role + "' must be an SELinux identifier that ends with '_r'"@
}

/// What is wrong with a profile, or nothing.
pub open spec fn profile_fault(profile: Profile) -> Option<Seq<char>> {
    if profile.schema_version != PROFILE_SCHEMA_VERSION {
        Some(schema_message(profile.schema_version))
    } else if is_unsafe_path(profile.executable) {
        Some(unsafe_path_message(profile.executable))
    } else if !is_identifier(profile.launch_domain) || !ends(profile.launch_domain, "_t"@) {
        Some(domain_message(profile.launch_domain))
    } else if !is_identifier(profile.launch_role) || !ends(profile.launch_role, "_r"@) {
        Some(role_message(profile.launch_role))
    } else {
        first_of(profile.data_directories.len(), directory_fault_at(profile.data_directories))
    }
}

/// What a check says of a fault: nothing, or the fault as its error.
pub open spec fn verdict(fault: Option<Seq<char>>) -> Result<(), Seq<char>> {
    match fault {
        Some(message) => Err(message),
        None => Ok(()),
    }
}

fn control_character(character: char) -> (result: bool)
    ensures
        result == is_control(character),
{
    let code: u32 = character as u32;
    code <= 0x1F || (0x7F <= code && code <= 0x9F)
}

fn holds_control(text: &[char]) -> (result: bool)
    ensures
        result == has_control(text@),
{
    let mut index: usize = 0;
    while index < text.len()
        invariant
            index <= text@.len(),
            forall|i: int| 0 <= i < index ==> !is_control(#[trigger] text@[i]),
        decreases text.len() - index,
    {
        if control_character(text[index]) {
            return true;
        }
        index += 1;
    }
    false
}

fn word_character(character: char) -> (result: bool)
    ensures
        result == is_word_character(character),
{
    let code: u32 = character as u32;
    letter(character) || (48 <= code && code <= 57) || code == 95
}

fn letter(character: char) -> (result: bool)
    ensures
        result == is_letter(character),
{
    let code: u32 = character as u32;
    (65 <= code && code <= 90) || (97 <= code && code <= 122)
}

fn identifier(text: &[char]) -> (result: bool)
    ensures
        result == is_identifier(text@),
{
    if text.len() == 0 || !letter(text[0]) {
        return false;
    }
    let mut index: usize = 0;
    while index < text.len()
        invariant
            index <= text@.len(),
            forall|i: int| 0 <= i < index ==> is_word_character(#[trigger] text@[i]),
        decreases text.len() - index,
    {
        if !word_character(text[index]) {
            return false;
        }
        index += 1;
    }
    true
}

/// Whether a path steps back through a parent directory.
fn has_parent(path: &str) -> (result: bool)
    ensures
        result == parts(path@).contains(Part::Parent),
{
    let list = components(path);
    let mut index: usize = 0;
    while index < list.len()
        invariant
            index <= list@.len(),
            crate::path::component_views(list@) == parts(path@),
            forall|i: int| 0 <= i < index ==> #[trigger] list@[i]@ != Part::Parent,
        decreases list.len() - index,
    {
        if let Component::ParentDir = &list[index] {
            assert(parts(path@)[index as int] == Part::Parent);
            return true;
        }
        index += 1;
    }
    proof {
        let all = crate::path::component_views(list@);
        assert forall|i: int| 0 <= i < all.len() implies #[trigger] all[i] != Part::Parent by {
            assert(all[i] == list@[i]@);
        }
    }
    false
}

fn unsafe_path(path: &str) -> (result: bool)
    ensures
        result == is_unsafe_path(path@),
{
    let chars = characters(path);
    chars.len() == 0 || chars[0] != '/' || holds_control(chars.as_slice()) || has_parent(path)
}

fn suffixed_identifier(text: &str, suffix: &str) -> (result: bool)
    ensures
        result == (is_identifier(text@) && ends(text@, suffix@)),
{
    let chars = characters(text);
    let suffix = characters(suffix);
    identifier(chars.as_slice()) && ends_with(chars.as_slice(), suffix.as_slice())
}

fn repeated(paths: &Vec<String>, index: usize) -> (result: bool)
    requires
        index < paths@.len(),
    ensures
        result == is_repeated(strings(paths@), index as int),
{
    let mut other: usize = 0;
    while other < index
        invariant
            other <= index < paths@.len(),
            forall|i: int|
                0 <= i < other ==> !path_equal(
                    #[trigger] strings(paths@)[i],
                    strings(paths@)[index as int],
                ),
        decreases index - other,
    {
        if same_path(paths[other].as_str(), paths[index].as_str()) {
            assert(path_equal(strings(paths@)[other as int], strings(paths@)[index as int]));
            return true;
        }
        other += 1;
    }
    false
}

pub(crate) fn broad_directory(path: &str) -> (result: Error)
    ensures
        result@ == broad_message(path@),
{
    let message = text2(
        path,
        " is too broad to protect safely; select an application-specific subdirectory",
    );
    Error { message }
}

fn unsafe_path_error(path: &str) -> (result: Error)
    ensures
        result@ == unsafe_path_message(path@),
{
    let message = text3(
        "The path '",
        path,
        "' must be absolute, without control characters and parent components",
    );
    Error { message }
}

/// Checks everything that a profile says by itself, without looking at the system.
pub fn validate_profile(profile: &ProtectionProfile) -> (result: Result<(), Error>)
    ensures
        crate::error::outcome(result) == verdict(profile_fault(profile@)),
{
    if profile.schema_version != PROFILE_SCHEMA_VERSION {
        let number = decimal_text(profile.schema_version as u64);
        let message = text2("Unsupported profile schema version ", number.as_str());
        return Err(Error { message });
    }
    if unsafe_path(profile.executable.as_str()) {
        return Err(unsafe_path_error(profile.executable.as_str()));
    }
    if !suffixed_identifier(profile.launch_domain.as_str(), "_t") {
        let message = text3(
            "The launch domain '",
            profile.launch_domain.as_str(),
            "' must be an SELinux identifier that ends with '_t'",
        );
        return Err(Error { message });
    }
    if !suffixed_identifier(profile.launch_role.as_str(), "_r") {
        let message = text3(
            "The launch role '",
            profile.launch_role.as_str(),
            "' must be an SELinux identifier that ends with '_r'",
        );
        return Err(Error { message });
    }
    let ghost paths = strings(profile.data_directories@);
    let ghost probe = directory_fault_at(paths);
    let mut index: usize = 0;
    while index < profile.data_directories.len()
        invariant
            index <= profile.data_directories@.len(),
            paths == strings(profile.data_directories@),
            probe == directory_fault_at(paths),
            profile_fault(profile@) == first_of(paths.len(), probe),
            first_of(index as nat, probe) is None,
        decreases profile.data_directories.len() - index,
    {
        let path = profile.data_directories[index].as_str();
        assert(paths[index as int] == path@);
        let mut found: Option<Error> = None;
        if unsafe_path(path) {
            found = Some(unsafe_path_error(path));
        } else if normal_component_count(path) < MIN_DIRECTORY_NAMES {
            found = Some(broad_directory(path));
        } else if repeated(&profile.data_directories, index) {
            let message = text3("The protected directory ", path, " is listed more than once");
            found = Some(Error { message });
        }
        if let Some(error) = found {
            proof {
                assert(probe(index as int) == Some(error@));
                lemma_first_of((index + 1) as nat, paths.len(), probe);
            }
            return Err(error);
        }
        index += 1;
    }
    Ok(())
}

/// The characters that stand for more than themselves in a file-context expression.
pub open spec fn is_meta(character: char) -> bool {
    ||| character == '.'
    ||| character == '^'
    ||| character == '$'
    ||| character == '*'
    ||| character == '+'
    ||| character == '?'
    ||| character == '('
    ||| character == ')'
    ||| character == '['
    ||| character == ']'
    ||| character == '{'
    ||| character == '}'
    ||| character == '|'
    ||| character == '\\'
}

/// A text as an expression that stands for itself: a backslash before each metacharacter.
pub open spec fn escaped(text: Seq<char>) -> Seq<char>
    decreases text.len(),
{
    if text.len() == 0 {
        Seq::empty()
    } else if is_meta(text.last()) {
        escaped(text.drop_last()).push('\\').push(text.last())
    } else {
        escaped(text.drop_last()).push(text.last())
    }
}

/// The expression for a path, or why there is none.
pub open spec fn path_regex(path: Seq<char>) -> Result<Seq<char>, Seq<char>> {
    if has_control(path) {
        Err("The path '"@ + path + "' contains control characters"@)
    } else {
        Ok(escaped(path))
    }
}

/// The expression for a directory and everything below it, or why there is none.
pub open spec fn directory_regex(path: Seq<char>) -> Result<Seq<char>, Seq<char>> {
    match path_regex(path) {
        Ok(regex) => Ok(regex + "(/.*)?"@),
        Err(message) => Err(message),
    }
}

fn meta(character: char) -> (result: bool)
    ensures
        result == is_meta(character),
{
    character == '.' || character == '^' || character == '$' || character == '*' || character == '+'
        || character == '?' || character == '(' || character == ')' || character == '['
        || character == ']' || character == '{' || character == '}' || character == '|'
        || character == '\\'
}

/// The file-context expression that matches exactly a path.
pub fn selinux_path_regex(path: &str) -> (result: Result<String, Error>)
    ensures
        viewed(result) == path_regex(path@),
{
    let chars = characters(path);
    if holds_control(chars.as_slice()) {
        let message = text3("The path '", path, "' contains control characters");
        return Err(Error { message });
    }
    let mut result: Vec<char> = Vec::new();
    let mut index: usize = 0;
    assert(chars@.take(0) == Seq::<char>::empty());
    while index < chars.len()
        invariant
            index <= chars@.len(),
            result@ == escaped(chars@.take(index as int)),
        decreases chars.len() - index,
    {
        assert(chars@.take(index + 1).drop_last() == chars@.take(index as int));
        if meta(chars[index]) {
            result.push('\\');
        }
        result.push(chars[index]);
        index += 1;
    }
    assert(chars@.take(chars@.len() as int) == chars@);
    Ok(to_text(result.as_slice()))
}

/// The file-context expression that matches a directory and everything below it.
pub fn recursive_directory_regex(path: &str) -> (result: Result<String, Error>)
    ensures
        viewed(result) == directory_regex(path@),
{
    match selinux_path_regex(path) {
        Ok(regex) => Ok(text2(regex.as_str(), "(/.*)?")),
        Err(error) => Err(error),
    }
}

/// The kinds of files that protected data is made of.
pub open spec fn file_classes() -> Seq<Seq<char>> {
    seq![
        "file"@,
        "dir"@,
        "lnk_file"@,
        "chr_file"@,
        "blk_file"@,
        "sock_file"@,
        "fifo_file"@,
    ]
}

/// One statement of the deny module: what no subject but the application may do.
pub open spec fn deny_statement(
    subjects: Seq<char>,
    object: Seq<char>,
    permission: Seq<char>,
) -> Seq<char> {
    "(deny "@ + subjects + " "@ + object + " ("@ + permission + "))\n"@
}

/// The permission for everything on a class of files.
pub open spec fn every_access(class: Seq<char>) -> Seq<char> {
    class + " (all)"@
}

/// The statements that name the subjects: the application, and everything else.
pub open spec fn subject_statements(names: Names) -> Seq<char> {
    "(typeattribute "@ + names.allowed_attribute + ")\n"@ + "(typeattribute "@
        + names.denied_attribute + ")\n"@ + "(typeattributeset "@ + names.allowed_attribute + " ("@
        + names.app_type + "))\n"@ + "(typeattributeset "@ + names.denied_attribute + " (not ("@
        + names.allowed_attribute + ")))\n"@
}

/// The statements that deny access to protected files of the first `count` classes.
pub open spec fn file_statements(names: Names, count: nat) -> Seq<char>
    decreases count,
{
    if count == 0 {
        Seq::empty()
    } else {
        file_statements(names, (count - 1) as nat) + deny_statement(
            names.denied_attribute,
            names.data_type,
            every_access(file_classes()[count - 1]),
        )
    }
}

/// The statements that deny access to the processes of the application.
pub open spec fn process_statements(
    names: Names,
    block_ptrace: bool,
    block_fd_use: bool,
) -> Seq<char> {
    let ptrace = if block_ptrace {
        deny_statement(names.denied_attribute, names.app_type, "process (ptrace)"@)
    } else {
        Seq::empty()
    };
    let fd_use = if block_fd_use {
        deny_statement(names.denied_attribute, names.app_type, "fd (use)"@)
    } else {
        Seq::empty()
    };
    ptrace + fd_use
}

/// The deny module of a profile.
pub open spec fn deny_module(profile: Profile) -> Seq<char> {
    let names = names_of(profile.id);
    subject_statements(names) + file_statements(names, file_classes().len()) + process_statements(
        names,
        profile.block_ptrace,
        profile.block_fd_use,
    )
}

/// What is rendered for a valid profile, or what is wrong with it.
pub open spec fn rendered(profile: Profile, text: Seq<char>) -> Result<Seq<char>, Seq<char>> {
    match profile_fault(profile) {
        Some(message) => Err(message),
        None => Ok(text),
    }
}

fn push_deny(text: &mut String, subjects: &str, object: &str, permission: &str)
    ensures
        final(text)@ == old(text)@ + deny_statement(subjects@, object@, permission@),
{
    let ghost before = text@;
    text.append("(deny ");
    text.append(subjects);
    text.append(" ");
    text.append(object);
    text.append(" (");
    text.append(permission);
    text.append("))\n");
    assert(text@ =~= before + deny_statement(subjects@, object@, permission@));
}

fn subjects_text(ids: &PolicyIdentifiers) -> (result: String)
    ensures
        result@ == subject_statements(ids@),
{
    let mut text = text3("(typeattribute ", ids.allowed_attribute.as_str(), ")\n");
    text.append("(typeattribute ");
    text.append(ids.denied_attribute.as_str());
    text.append(")\n");
    text.append("(typeattributeset ");
    text.append(ids.allowed_attribute.as_str());
    text.append(" (");
    text.append(ids.app_type.as_str());
    text.append("))\n");
    text.append("(typeattributeset ");
    text.append(ids.denied_attribute.as_str());
    text.append(" (not (");
    text.append(ids.allowed_attribute.as_str());
    text.append(")))\n");
    text
}

fn push_file_deny(text: &mut String, ids: &PolicyIdentifiers, class: &str, Ghost(index): Ghost<nat>)
    requires
        index < file_classes().len(),
        class@ == file_classes()[index as int],
    ensures
        final(text)@ == old(text)@ + deny_statement(
            ids@.denied_attribute,
            ids@.data_type,
            every_access(class@),
        ),
        forall|before: Seq<char>|
            old(text)@ == before + #[trigger] file_statements(ids@, index) ==> final(text)@ == before
                + file_statements(ids@, index + 1),
{
    let ghost start = text@;
    let permission = text2(class, " (all)");
    push_deny(text, ids.denied_attribute.as_str(), ids.data_type.as_str(), permission.as_str());
    proof {
        assert forall|before: Seq<char>| start == before + #[trigger] file_statements(ids@, index)
            implies text@ == before + file_statements(ids@, index + 1) by {
            assert(text@ =~= before + file_statements(ids@, index + 1));
        }
    }
}

/// The module that denies every other subject access to the data of a profile.
pub fn render_deny_cil(profile: &ProtectionProfile) -> (result: Result<String, Error>)
    ensures
        viewed(result) == rendered(profile@, deny_module(profile@)),
{
    match validate_profile(profile) {
        Err(error) => Err(error),
        Ok(()) => {
            let ids = profile.identifiers();
            let mut text = subjects_text(&ids);
            let ghost head = text@;
            assert(text@ == head + file_statements(ids@, 0));
            push_file_deny(&mut text, &ids, "file", Ghost(0));
            push_file_deny(&mut text, &ids, "dir", Ghost(1));
            push_file_deny(&mut text, &ids, "lnk_file", Ghost(2));
            push_file_deny(&mut text, &ids, "chr_file", Ghost(3));
            push_file_deny(&mut text, &ids, "blk_file", Ghost(4));
            push_file_deny(&mut text, &ids, "sock_file", Ghost(5));
            push_file_deny(&mut text, &ids, "fifo_file", Ghost(6));
            let ghost files = text@;
            assert(files == head + file_statements(ids@, 7));
            if profile.block_ptrace {
                push_deny(
                    &mut text,
                    ids.denied_attribute.as_str(),
                    ids.app_type.as_str(),
                    "process (ptrace)",
                );
            }
            if profile.block_fd_use {
                push_deny(
                    &mut text,
                    ids.denied_attribute.as_str(),
                    ids.app_type.as_str(),
                    "fd (use)",
                );
            }
            assert(text@ =~= files + process_statements(
                ids@,
                profile.block_ptrace,
                profile.block_fd_use,
            ));
            Ok(text)
        },
    }
}

/// The names that the base module takes from the installed policy.
pub open spec fn requirements(domain: Seq<char>, role: Seq<char>) -> Seq<char> {
    "gen_require(`\n\ttype "@ + domain + ";\n\trole "@ + role + ";\n')\n\n"@
}

/// The types of a profile.
pub open spec fn type_statements(names: Names) -> Seq<char> {
    "type "@ + names.app_type + ";\ntype "@ + names.exec_type + ";\ntype "@ + names.data_type
        + ";\n\ndomain_type("@ + names.app_type + ")\ndomain_entry_file("@ + names.app_type + ", "@
        + names.exec_type + ")\nfiles_type("@ + names.data_type + ")\n\n"@
}

/// How the application enters its domain from the launch domain.
pub open spec fn transition_statements(
    names: Names,
    domain: Seq<char>,
    role: Seq<char>,
) -> Seq<char> {
    "role "@ + role + " types "@ + names.app_type + ";\ndomtrans_pattern("@ + domain + ", "@
        + names.exec_type + ", "@ + names.app_type + ")\n\n"@
}

/// What the application may do: what an unconfined domain may, and everything with its data.
pub open spec fn access_statements(names: Names) -> Seq<char> {
    "unconfined_domain("@ + names.app_type + ")\nmanage_dirs_pattern("@ + names.app_type + ", "@
        + names.data_type + ", "@ + names.data_type + ")\nmanage_files_pattern("@ + names.app_type
        + ", "@ + names.data_type + ", "@ + names.data_type + ")\nmanage_lnk_files_pattern("@
        + names.app_type + ", "@ + names.data_type + ", "@ + names.data_type
        + ")\nmanage_sock_files_pattern("@ + names.app_type + ", "@ + names.data_type + ", "@
        + names.data_type + ")\nmanage_fifo_files_pattern("@ + names.app_type + ", "@
        + names.data_type + ", "@ + names.data_type + ")\n"@
}

/// The base module of a profile.
pub open spec fn base_module(profile: Profile) -> Seq<char> {
    let names = names_of(profile.id);
    "policy_module("@ + names.module + ", 1.0.0)\n\n"@ + requirements(
        profile.launch_domain,
        profile.launch_role,
    ) + type_statements(names) + transition_statements(
        names,
        profile.launch_domain,
        profile.launch_role,
    ) + access_statements(names)
}

fn requirements_text(domain: &str, role: &str) -> (result: String)
    ensures
        result@ == requirements(domain@, role@),
{
    let mut text = text3("gen_require(`\n\ttype ", domain, ";\n\trole ");
    text.append(role);
    text.append(";\n')\n\n");
    text
}

fn types_text(ids: &PolicyIdentifiers) -> (result: String)
    ensures
        result@ == type_statements(ids@),
{
    let mut text = text3("type ", ids.app_type.as_str(), ";\ntype ");
    text.append(ids.exec_type.as_str());
    text.append(";\ntype ");
    text.append(ids.data_type.as_str());
    text.append(";\n\ndomain_type(");
    text.append(ids.app_type.as_str());
    text.append(")\ndomain_entry_file(");
    text.append(ids.app_type.as_str());
    text.append(", ");
    text.append(ids.exec_type.as_str());
    text.append(")\nfiles_type(");
    text.append(ids.data_type.as_str());
    text.append(")\n\n");
    text
}

fn transition_text(ids: &PolicyIdentifiers, domain: &str, role: &str) -> (result: String)
    ensures
        result@ == transition_statements(ids@, domain@, role@),
{
    let mut text = text3("role ", role, " types ");
    text.append(ids.app_type.as_str());
    text.append(";\ndomtrans_pattern(");
    text.append(domain);
    text.append(", ");
    text.append(ids.exec_type.as_str());
    text.append(", ");
    text.append(ids.app_type.as_str());
    text.append(")\n\n");
    text
}

fn access_text(ids: &PolicyIdentifiers) -> (result: String)
    ensures
        result@ == access_statements(ids@),
{
    let app = ids.app_type.as_str();
    let data = ids.data_type.as_str();
    let mut text = text3("unconfined_domain(", app, ")\nmanage_dirs_pattern(");
    text.append(app);
    text.append(", ");
    text.append(data);
    text.append(", ");
    text.append(data);
    text.append(")\nmanage_files_pattern(");
    text.append(app);
    text.append(", ");
    text.append(data);
    text.append(", ");
    text.append(data);
    text.append(")\nmanage_lnk_files_pattern(");
    text.append(app);
    text.append(", ");
    text.append(data);
    text.append(", ");
    text.append(data);
    text.append(")\nmanage_sock_files_pattern(");
    text.append(app);
    text.append(", ");
    text.append(data);
    text.append(", ");
    text.append(data);
    text.append(")\nmanage_fifo_files_pattern(");
    text.append(app);
    text.append(", ");
    text.append(data);
    text.append(", ");
    text.append(data);
    text.append(")\n");
    text
}

/// The module that creates the types of a profile and lets the application enter its domain.
pub fn render_type_enforcement(profile: &ProtectionProfile) -> (result: Result<String, Error>)
    ensures
        viewed(result) == rendered(profile@, base_module(profile@)),
{
    match validate_profile(profile) {
        Err(error) => Err(error),
        Ok(()) => {
            let ids = profile.identifiers();
            let domain = profile.launch_domain.as_str();
            let role = profile.launch_role.as_str();
            let mut text = text3("policy_module(", ids.module.as_str(), ", 1.0.0)\n\n");
            text.append(requirements_text(domain, role).as_str());
            text.append(types_text(&ids).as_str());
            text.append(transition_text(&ids, domain, role).as_str());
            text.append(access_text(&ids).as_str());
            Ok(text)
        },
    }
}

/// The operation that adds the rule for the executable.
pub open spec fn executable_operation(names: Names, regex: Seq<char>) -> Seq<char> {
    "semanage fcontext -a -f f -t "@ + names.exec_type + " '"@ + regex + "'\n"@
}

/// The operation that adds the rule for a protected directory.
pub open spec fn directory_operation(names: Names, regex: Seq<char>) -> Seq<char> {
    "semanage fcontext -a -t "@ + names.data_type + " '"@ + regex + "'\n"@
}

/// The operations for the protected directories, in their order.
pub open spec fn directory_operations(names: Names, paths: Seq<Seq<char>>) -> Seq<char>
    decreases paths.len(),
{
    if paths.len() == 0 {
        Seq::empty()
    } else {
        directory_operations(names, paths.drop_last()) + directory_operation(
            names,
            escaped(paths.last()) + "(/.*)?"@,
        )
    }
}

/// Everything that applying a profile would load, for reading.
pub open spec fn preview(profile: Profile) -> Seq<char> {
    let names = names_of(profile.id);
    "# "@ + names.module + ".te\n"@ + base_module(profile) + "\n# "@ + names.deny_module
        + ".cil\n"@ + deny_module(profile) + "\n# File contexts\n"@ + executable_operation(
        names,
        escaped(profile.executable),
    ) + directory_operations(names, profile.data_directories)
}

/// A valid profile has no control characters in its paths.
pub proof fn lemma_valid_paths(profile: Profile)
    requires
        profile_fault(profile) is None,
    ensures
        !has_control(profile.executable),
        forall|i: int|
            0 <= i < profile.data_directories.len() ==> !has_control(
                #[trigger] profile.data_directories[i],
            ),
{
    let paths = profile.data_directories;
    lemma_first_of_none(paths.len(), directory_fault_at(paths));
    assert forall|i: int| 0 <= i < paths.len() implies !has_control(#[trigger] paths[i]) by {
        assert(directory_fault_at(paths)(i) is None);
    }
}

/// Renders everything that applying a profile would load.
pub fn render_preview(profile: &ProtectionProfile) -> (result: Result<String, Error>)
    ensures
        viewed(result) == rendered(profile@, preview(profile@)),
{
    let te = match render_type_enforcement(profile) {
        Err(error) => {
            return Err(error);
        },
        Ok(text) => text,
    };
    let cil = match render_deny_cil(profile) {
        Err(error) => {
            return Err(error);
        },
        Ok(text) => text,
    };
    proof {
        lemma_valid_paths(profile@);
    }
    let ids = profile.identifiers();
    let mut text = text3("# ", ids.module.as_str(), ".te\n");
    text.append(te.as_str());
    text.append("\n# ");
    text.append(ids.deny_module.as_str());
    text.append(".cil\n");
    text.append(cil.as_str());
    text.append("\n# File contexts\n");
    let regex = match selinux_path_regex(profile.executable.as_str()) {
        Err(error) => {
            return Err(error);
        },
        Ok(regex) => regex,
    };
    let mut operation = text3("semanage fcontext -a -f f -t ", ids.exec_type.as_str(), " '");
    operation.append(regex.as_str());
    operation.append("'\n");
    text.append(operation.as_str());
    let ghost head = text@;
    let ghost paths = strings(profile.data_directories@);
    let mut index: usize = 0;
    assert(paths.take(0) == Seq::<Seq<char>>::empty());
    assert(text@ == head + directory_operations(ids@, paths.take(0)));
    while index < profile.data_directories.len()
        invariant
            index <= profile.data_directories@.len(),
            paths == strings(profile.data_directories@),
            forall|i: int| 0 <= i < paths.len() ==> !has_control(#[trigger] paths[i]),
            text@ == head + directory_operations(ids@, paths.take(index as int)),
        decreases profile.data_directories.len() - index,
    {
        let ghost before = text@;
        assert(!has_control(paths[index as int]));
        let regex = match recursive_directory_regex(profile.data_directories[index].as_str()) {
            Err(error) => {
                return Err(error);
            },
            Ok(regex) => regex,
        };
        let mut operation = text3("semanage fcontext -a -t ", ids.data_type.as_str(), " '");
        operation.append(regex.as_str());
        operation.append("'\n");
        text.append(operation.as_str());
        proof {
            assert(paths.take(index + 1).drop_last() == paths.take(index as int));
            assert(paths.take(index + 1).last() == paths[index as int]);
            assert(text@ =~= head + directory_operations(ids@, paths.take(index + 1)));
        }
        index += 1;
    }
    assert(paths.take(paths.len() as int) == paths);
    Ok(text)
}

proof fn lemma_escaped(text: Seq<char>)
    ensures
        text.len() <= escaped(text).len(),
        text.len() > 0 ==> escaped(text).last() == text.last(),
        text.len() > 0 && is_meta(text.last()) ==> escaped(text).len() >= 2 && escaped(text)[escaped(
            text,
        ).len() - 2] == '\\',
    decreases text.len(),
{
    if text.len() > 0 {
        lemma_escaped(text.drop_last());
    }
}

/// Escaping loses nothing: texts with one expression are equal.
pub proof fn escaping_is_injective(left: Seq<char>, right: Seq<char>)
    requires
        escaped(left) == escaped(right),
    ensures
        left == right,
    decreases left.len(),
{
    lemma_escaped(left);
    lemma_escaped(right);
    if left.len() > 0 && right.len() > 0 {
        assert(left.last() == right.last());
        let a = escaped(left.drop_last());
        let b = escaped(right.drop_last());
        if is_meta(left.last()) {
            assert(escaped(left).drop_last().drop_last() =~= a);
            assert(escaped(right).drop_last().drop_last() =~= b);
        } else {
            assert(escaped(left).drop_last() =~= a);
            assert(escaped(right).drop_last() =~= b);
        }
        escaping_is_injective(left.drop_last(), right.drop_last());
        assert(left =~= left.drop_last().push(left.last()));
        assert(right =~= right.drop_last().push(right.last()));
    } else {
        assert(left =~= right);
    }
}

/// The expression for a path is never the one for a directory and everything below it.
pub proof fn lemma_expressions_apart(left: Seq<char>, right: Seq<char>)
    ensures
        escaped(left) != escaped(right) + "(/.*)?"@,
{
    reveal_strlit("(/.*)?");
    let regex = escaped(left);
    if regex == escaped(right) + "(/.*)?"@ {
        lemma_escaped(left);
        assert(regex.last() == '?');
        assert(regex[regex.len() - 2] == ')');
    }
}

/// A file-context rule belongs to one path: neither two paths nor two directories share an
/// expression, and no path shares one with a directory.
pub proof fn expressions_belong_to_one_path(left: Seq<char>, right: Seq<char>)
    ensures
        path_regex(left) is Ok && path_regex(left) == path_regex(right) ==> left == right,
        directory_regex(left) is Ok && directory_regex(left) == directory_regex(right) ==> left
            == right,
        path_regex(left) is Ok ==> path_regex(left) != directory_regex(right),
{
    reveal_strlit("(/.*)?");
    if path_regex(left) is Ok && path_regex(left) == path_regex(right) {
        escaping_is_injective(left, right);
    }
    if directory_regex(left) is Ok && directory_regex(left) == directory_regex(right) {
        let first = escaped(left) + "(/.*)?"@;
        let second = escaped(right) + "(/.*)?"@;
        assert(first.take(first.len() - 6) =~= escaped(left));
        assert(second.take(second.len() - 6) =~= escaped(right));
        escaping_is_injective(left, right);
    }
    lemma_expressions_apart(left, right);
}

proof fn lemma_file_statement(names: Names, index: int, count: nat)
    requires
        0 <= index < count <= file_classes().len(),
    ensures
        occurs(
            file_statements(names, count),
            deny_statement(
                names.denied_attribute,
                names.data_type,
                every_access(file_classes()[index]),
            ),
        ),
    decreases count,
{
    let rest = file_statements(names, (count - 1) as nat);
    let last = deny_statement(
        names.denied_attribute,
        names.data_type,
        every_access(file_classes()[count - 1]),
    );
    let all = file_statements(names, count);
    let empty = Seq::<char>::empty();
    if index == count - 1 {
        lemma_occurs_self(last);
        lemma_occurs_within(rest, last, empty, last);
        assert(rest + last + empty =~= all);
    } else {
        lemma_file_statement(names, index, (count - 1) as nat);
        let wanted = deny_statement(
            names.denied_attribute,
            names.data_type,
            every_access(file_classes()[index]),
        );
        lemma_occurs_within(empty, rest, last, wanted);
        assert(empty + rest + last =~= all);
    }
}

/// The deny module denies every other subject every access to protected files, of each class;
/// with the options set, also tracing the application and using its file descriptors.
pub proof fn deny_module_covers_the_data(profile: Profile, index: int)
    requires
        0 <= index < file_classes().len(),
    ensures
        ({
            let names = names_of(profile.id);
            let module = deny_module(profile);
            &&& occurs(
                module,
                deny_statement(
                    names.denied_attribute,
                    names.data_type,
                    every_access(file_classes()[index]),
                ),
            )
            &&& profile.block_ptrace ==> occurs(
                module,
                deny_statement(names.denied_attribute, names.app_type, "process (ptrace)"@),
            )
            &&& profile.block_fd_use ==> occurs(
                module,
                deny_statement(names.denied_attribute, names.app_type, "fd (use)"@),
            )
        }),
{
    let names = names_of(profile.id);
    let module = deny_module(profile);
    let head = subject_statements(names);
    let files = file_statements(names, file_classes().len());
    let processes = process_statements(names, profile.block_ptrace, profile.block_fd_use);
    let empty = Seq::<char>::empty();
    let wanted = deny_statement(
        names.denied_attribute,
        names.data_type,
        every_access(file_classes()[index]),
    );
    lemma_file_statement(names, index, file_classes().len());
    lemma_occurs_within(head, files, processes, wanted);
    let ptrace = deny_statement(names.denied_attribute, names.app_type, "process (ptrace)"@);
    let fd_use = deny_statement(names.denied_attribute, names.app_type, "fd (use)"@);
    if profile.block_ptrace {
        lemma_occurs_self(ptrace);
        let after = if profile.block_fd_use {
            fd_use
        } else {
            empty
        };
        lemma_occurs_within(head + files, ptrace, after, ptrace);
        assert(head + files + ptrace + after =~= module);
    }
    if profile.block_fd_use {
        lemma_occurs_self(fd_use);
        let before = if profile.block_ptrace {
            head + files + ptrace
        } else {
            head + files
        };
        lemma_occurs_within(before, fd_use, empty, fd_use);
        assert(before + fd_use + empty =~= module);
    }
}

/// Text that a user chose freely never becomes policy: profiles with one identifier, one launch
/// domain and role, and one set of options have the same modules, whatever their names and paths.
pub proof fn modules_hold_no_free_text(left: Profile, right: Profile)
    requires
        left.id == right.id,
        left.launch_domain == right.launch_domain,
        left.launch_role == right.launch_role,
        left.block_ptrace == right.block_ptrace,
        left.block_fd_use == right.block_fd_use,
    ensures
        base_module(left) == base_module(right),
        deny_module(left) == deny_module(right),
{
}

proof fn lemma_directory_operation(names: Names, paths: Seq<Seq<char>>, index: int)
    requires
        0 <= index < paths.len(),
    ensures
        occurs(
            directory_operations(names, paths),
            directory_operation(names, escaped(paths[index]) + "(/.*)?"@),
        ),
    decreases paths.len(),
{
    let rest = directory_operations(names, paths.drop_last());
    let last = directory_operation(names, escaped(paths.last()) + "(/.*)?"@);
    let all = directory_operations(names, paths);
    let empty = Seq::<char>::empty();
    if index == paths.len() - 1 {
        lemma_occurs_self(last);
        lemma_occurs_within(rest, last, empty, last);
        assert(rest + last + empty =~= all);
    } else {
        lemma_directory_operation(names, paths.drop_last(), index);
        let wanted = directory_operation(names, escaped(paths[index]) + "(/.*)?"@);
        assert(paths.drop_last()[index] == paths[index]);
        lemma_occurs_within(empty, rest, last, wanted);
        assert(empty + rest + last =~= all);
    }
}

proof fn lemma_pieces(
    head: Seq<char>,
    first: Seq<char>,
    between: Seq<char>,
    name: Seq<char>,
    suffix: Seq<char>,
    second: Seq<char>,
    title: Seq<char>,
    third: Seq<char>,
    fourth: Seq<char>,
)
    ensures
        ({
            let whole = head + first + between + name + suffix + second + title + third + fourth;
            &&& occurs(whole, first)
            &&& occurs(whole, second)
            &&& occurs(whole, third)
            &&& occurs(whole, fourth)
        }),
{
    let whole = head + first + between + name + suffix + second + title + third + fourth;
    let one = head.len() as int;
    let two = one + first.len() + between.len() + name.len() + suffix.len();
    let three = two + second.len() + title.len();
    let four = three + third.len();
    assert(whole.subrange(one, one + first.len()) =~= first);
    assert(occurs_at(whole, first, one));
    assert(whole.subrange(two, two + second.len()) =~= second);
    assert(occurs_at(whole, second, two));
    assert(whole.subrange(three, three + third.len()) =~= third);
    assert(occurs_at(whole, third, three));
    assert(whole.subrange(four, four + fourth.len()) =~= fourth);
    assert(occurs_at(whole, fourth, four));
}

proof fn lemma_occurs_transitive(whole: Seq<char>, middle: Seq<char>, pattern: Seq<char>)
    requires
        occurs(whole, middle),
        occurs(middle, pattern),
    ensures
        occurs(whole, pattern),
{
    let outer = choose|index: int| occurs_at(whole, middle, index);
    let before = whole.take(outer);
    let after = whole.skip(outer + middle.len());
    lemma_occurs_within(before, middle, after, pattern);
    assert(before + middle + after =~= whole) by {
        assert(whole.subrange(outer, outer + middle.len()) =~= middle);
        assert(before + whole.subrange(outer, outer + middle.len()) + after =~= whole);
    }
}

/// The preview shows both modules and the rule of every path.
pub proof fn preview_is_complete(profile: Profile)
    ensures
        occurs(preview(profile), base_module(profile)),
        occurs(preview(profile), deny_module(profile)),
        occurs(
            preview(profile),
            executable_operation(names_of(profile.id), escaped(profile.executable)),
        ),
        forall|i: int|
            0 <= i < profile.data_directories.len() ==> occurs(
                preview(profile),
                directory_operation(
                    names_of(profile.id),
                    escaped(#[trigger] profile.data_directories[i]) + "(/.*)?"@,
                ),
            ),
{
    let names = names_of(profile.id);
    let operations = directory_operations(names, profile.data_directories);
    lemma_pieces(
        "# "@ + names.module + ".te\n"@,
        base_module(profile),
        "\n# "@,
        names.deny_module,
        ".cil\n"@,
        deny_module(profile),
        "\n# File contexts\n"@,
        executable_operation(names, escaped(profile.executable)),
        operations,
    );
    assert forall|i: int| 0 <= i < profile.data_directories.len() implies occurs(
        preview(profile),
        directory_operation(names, escaped(#[trigger] profile.data_directories[i]) + "(/.*)?"@),
    ) by {
        lemma_directory_operation(names, profile.data_directories, i);
        lemma_occurs_transitive(
            preview(profile),
            operations,
            directory_operation(names, escaped(profile.data_directories[i]) + "(/.*)?"@),
        );
    }
}

} // verus!
