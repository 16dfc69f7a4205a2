//! What is asked of the system: its files, its commands, its version, and identifiers.

use crate::bytes::lossy;
use crate::command::{
    candidates, command_variables, is_trusted_program, located, trusted_at, Call, Output,
};
use crate::environment::{
    enforcement, from_version, judged_version, missing_command, parsed_version, required,
    stated_version, to_version, userspace_version, version_at, version_call, Need, Purpose,
};
use crate::error::in_context;
use crate::files::{
    config_file_fault, executable, is_policy_file, is_private_directory, is_private_lock,
    is_private_snapshot, policy_directory_fault, policy_file_fault, state_directory_message,
    FileFacts,
};
use crate::id::{digit_value, hex_value, lower, parsed_id};
use crate::laws::text::is_numeral;
use crate::search::{lemma_first_of_none, lemma_first_of_some};
use crate::text::{decimal, lemma_position, parsed_number, position, trimmed, words_of};
use vstd::prelude::*;

verus! {

/// What is required of each kind of file. The mode bits are those of group and others: 0o022 lets
/// them write, 0o077 lets them do anything, and 0o111 lets anyone execute.
pub proof fn files_are_judged_by_their_facts(facts: FileFacts)
    ensures
        is_private_directory(facts) <==> !facts.symlink && facts.directory && facts.uid == 0
            && facts.mode & 0o022 == 0,
        is_private_lock(facts) <==> facts.file && facts.uid == 0 && facts.links == 1 && facts.mode
            & 0o022 == 0,
        is_policy_file(facts) <==> !facts.symlink && facts.file && facts.uid == 0 && facts.mode
            & 0o022 == 0 && facts.len <= 4 * 1024 * 1024,
        is_private_snapshot(facts) <==> facts.file && facts.uid == 0 && facts.links == 1 && facts.mode
            & 0o077 == 0,
        is_trusted_program(facts) <==> facts.file && facts.uid == 0 && facts.mode & 0o111 != 0
            && facts.mode & 0o022 == 0,
        executable(facts.mode) <==> facts.mode & 0o111 != 0,
{
}

/// A configuration file is accepted exactly where it is a regular file with one link, belongs to
/// root, and lets nobody else write, and otherwise the first of these that fails is named.
pub proof fn configuration_files_are_judged_in_order(
    path: Seq<char>,
    facts: FileFacts,
    message: Seq<char>,
)
    ensures
        config_file_fault(path, Ok(facts)) is None <==> facts.file && facts.links == 1 && facts.uid
            == 0 && facts.mode & 0o022 == 0,
        !facts.file ==> config_file_fault(path, Ok(facts)) == Some(
            "Configuration file "@ + path + " must be a regular file"@,
        ),
        facts.file && facts.links != 1 ==> config_file_fault(path, Ok(facts)) == Some(
            "Configuration file "@ + path + " must not have hard links"@,
        ),
        facts.file && facts.links == 1 && facts.uid != 0 ==> config_file_fault(path, Ok(facts))
            == Some("Configuration file "@ + path + " must be owned by root"@),
        facts.file && facts.links == 1 && facts.uid == 0 && facts.mode & 0o022 != 0
            ==> config_file_fault(path, Ok(facts)) == Some(
            "Configuration file "@ + path + " must not be writable by group or other users"@,
        ),
        config_file_fault(path, Err(message)) == Some("Could not inspect "@ + path + ": "@ + message),
{
}

/// Directories and files of the policy sources are refused exactly where they could have been changed
/// by anyone but root, are too large, or could not be inspected.
pub proof fn policy_sources_are_judged(path: Seq<char>, facts: FileFacts, message: Seq<char>)
    ensures
        policy_directory_fault(path, Ok(facts)) == if !facts.symlink && facts.directory && facts.uid
            == 0 && facts.mode & 0o022 == 0 {
            None
        } else {
            Some(
                "SELinux policy directory "@ + path
                    + " must be root-owned and not writable by group or other users"@,
            )
        },
        policy_directory_fault(path, Err(message)) == Some(
            "Could not inspect SELinux policy directory "@ + path + ": "@ + message,
        ),
        policy_file_fault(path, Ok(facts)) == if !facts.symlink && facts.file && facts.uid == 0
            && facts.mode & 0o022 == 0 && facts.len <= 4194304 {
            None
        } else {
            Some("SELinux policy source "@ + path + " has unsafe ownership, mode, type, or size"@)
        },
        policy_file_fault(path, Err(message)) == Some(
            "Could not inspect SELinux policy source "@ + path + ": "@ + message,
        ),
        state_directory_message(path) == "The Microvisor state path "@ + path
            + " must be a root-owned directory, not a symlink"@,
{
}

/// Where a command can be.
pub open spec fn place_of(command: Seq<char>, index: int) -> Seq<char> {
    (if index == 0 {
        "/usr/sbin/"@
    } else if index == 1 {
        "/usr/bin/"@
    } else if index == 2 {
        "/sbin/"@
    } else {
        "/bin/"@
    }) + command
}

/// Whether what was found is a program that only root can have changed.
pub open spec fn is_safe(found: Option<FileFacts>) -> bool {
    found matches Some(facts) && facts.file && facts.uid == 0 && facts.mode & 0o111 != 0 && facts.mode
        & 0o022 == 0
}

proof fn lemma_places(command: Seq<char>)
    ensures
        candidates(command).len() == 4,
        forall|i: int| 0 <= i < 4 ==> #[trigger] candidates(command)[i] == place_of(command, i),
{
    reveal_strlit("/");
    reveal_strlit("/usr/sbin");
    reveal_strlit("/usr/bin");
    reveal_strlit("/sbin");
    reveal_strlit("/bin");
    reveal_strlit("/usr/sbin/");
    reveal_strlit("/usr/bin/");
    reveal_strlit("/sbin/");
    reveal_strlit("/bin/");
    assert("/usr/sbin"@ + "/"@ =~= "/usr/sbin/"@);
    assert("/usr/bin"@ + "/"@ =~= "/usr/bin/"@);
    assert("/sbin"@ + "/"@ =~= "/sbin/"@);
    assert("/bin"@ + "/"@ =~= "/bin/"@);
}

/// A command is the first program of its name, in the four system directories, that only root can
/// have changed. It is not found where there is none, and its name has no slash.
pub proof fn commands_are_found_in_order(
    command: Seq<char>,
    found: Seq<Option<FileFacts>>,
    index: int,
)
    requires
        found.len() == 4,
        0 <= index < 4,
    ensures
        candidates(command).len() == 4,
        candidates(command)[index] == place_of(command, index),
        command.contains('/') ==> located(command, found) == Err::<Seq<char>, Seq<char>>(
            "Command names must not contain '/'"@,
        ),
        !command.contains('/') && is_safe(found[index]) && (forall|i: int|
            0 <= i < index ==> !is_safe(#[trigger] found[i])) ==> located(command, found) == Ok::<
            Seq<char>,
            Seq<char>,
        >(place_of(command, index)),
        !command.contains('/') && (forall|i: int| 0 <= i < 4 ==> !is_safe(#[trigger] found[i]))
            ==> located(command, found) == Err::<Seq<char>, Seq<char>>("Command not found"@),
{
    lemma_places(command);
    let probe = trusted_at(command, found);
    lemma_first_of_none(4, probe);
    assert forall|i: int| 0 <= i < 4 implies (#[trigger] probe(i)) == if is_safe(found[i]) {
        Some(place_of(command, i))
    } else {
        None
    } by {}
    if is_safe(found[index]) && (forall|i: int| 0 <= i < index ==> !is_safe(#[trigger] found[i])) {
        assert(probe(index) is Some);
        let hit = lemma_first_of_some(4, probe);
        lemma_first_of_none(hit as nat, probe);
        if hit > index {
            assert(probe(index) is None);
        }
        assert(probe(hit) is Some);
        if hit < index {
            assert(!is_safe(found[hit]));
        }
        assert(hit == index);
    }
    if forall|i: int| 0 <= i < 4 ==> !is_safe(#[trigger] found[i]) {
        assert forall|i: int| 0 <= i < 4 implies (#[trigger] probe(i)) is None by {
            assert(!is_safe(found[i]));
        }
    }
}

/// The environment that commands are run with.
pub proof fn commands_get_a_fixed_environment()
    ensures
        command_variables().len() == 4,
        command_variables()[0] == ("HOME"@, "/root"@),
        command_variables()[1] == ("LANG"@, "C"@),
        command_variables()[2] == ("LC_ALL"@, "C"@),
        command_variables()[3] == ("PATH"@, "/usr/sbin:/usr/bin:/sbin:/bin"@),
{
}

/// What is needed for each purpose: all that applying takes, what recovery takes of it, and for an
/// inspection the two commands that list modules and rules.
pub proof fn needs_follow_the_purpose(name: Seq<char>)
    ensures
        required(Purpose::Apply) == seq![
            Need::Command("checkmodule"@),
            Need::Command("getenforce"@),
            Need::Command("m4"@),
            Need::Command("restorecon"@),
            Need::Command("rpm"@),
            Need::Command("semanage"@),
            Need::Command("semodule"@),
            Need::Command("semodule_package"@),
            Need::PolicySources,
            Need::UserspaceVersion,
            Need::Enforcement,
            Need::StateDirectory,
        ],
        required(Purpose::Inspect) == seq![Need::Command("semanage"@), Need::Command("semodule"@)],
        required(Purpose::Recover) == seq![
            Need::Command("getenforce"@),
            Need::Command("restorecon"@),
            Need::Command("semanage"@),
            Need::Command("semodule"@),
            Need::Enforcement,
            Need::StateDirectory,
        ],
        missing_command(Purpose::Recover, name) == "Required recovery command '"@ + name
            + "' is not installed"@,
        missing_command(Purpose::Apply, name) == "Required command '"@ + name
            + "' is not installed"@,
        missing_command(Purpose::Inspect, name) == "Required command '"@ + name
            + "' is not installed"@,
        version_call() == (Call {
            program: "rpm"@,
            arguments: seq!["-q"@, "--qf"@, "%{VERSION}\n"@, "libsepol"@],
        }),
{
}

/// A version is accepted exactly where it is not older than 3.6, and otherwise it is told.
pub proof fn versions_are_compared_by_both_numbers(major: u32, minor: u32)
    ensures
        judged_version(None) == Err::<(u32, u32), Seq<char>>(
            "Could not determine the SELinux userspace version"@,
        ),
        major > 3 || (major == 3 && minor >= 6) ==> judged_version(Some((major, minor))) == Ok::<
            (u32, u32),
            Seq<char>,
        >((major, minor)),
        !(major > 3 || (major == 3 && minor >= 6)) ==> judged_version(Some((major, minor))) == Err::<
            (u32, u32),
            Seq<char>,
        >(
            "SELinux userspace "@ + decimal(major as nat) + "."@ + decimal(minor as nat)
                + " is too old; Microvisor requires 3.6 or newer"@,
        ),
{
}

/// Whether no character of a text can stand in a version.
pub open spec fn is_versionless(text: Seq<char>) -> bool {
    forall|i: int|
        0 <= i < text.len() ==> !(48 <= #[trigger] text[i] as u32 <= 57) && text[i] != '.'
}

proof fn lemma_from_version(ahead: Seq<char>, rest: Seq<char>)
    requires
        is_versionless(ahead),
        rest.len() > 0,
        48 <= rest[0] as u32 <= 57,
    ensures
        from_version(ahead + rest) == rest,
    decreases ahead.len(),
{
    if ahead.len() == 0 {
        assert(ahead + rest =~= rest);
    } else {
        assert forall|i: int| 0 <= i < ahead.skip(1).len() implies !(48 <= #[trigger] ahead.skip(
            1,
        )[i] as u32 <= 57) && ahead.skip(1)[i] != '.' by {
            assert(ahead.skip(1)[i] == ahead[i + 1]);
        }
        lemma_from_version(ahead.skip(1), rest);
        assert((ahead + rest)[0] == ahead[0]);
        assert((ahead + rest).skip(1) =~= ahead.skip(1) + rest);
    }
}

proof fn lemma_to_version(rest: Seq<char>, behind: Seq<char>)
    requires
        is_versionless(behind),
        rest.len() > 0,
        48 <= rest.last() as u32 <= 57,
    ensures
        to_version(rest + behind) == rest,
    decreases behind.len(),
{
    let whole = rest + behind;
    if behind.len() == 0 {
        assert(whole =~= rest);
    } else {
        assert forall|i: int| 0 <= i < behind.drop_last().len() implies !(48
            <= #[trigger] behind.drop_last()[i] as u32 <= 57) && behind.drop_last()[i] != '.' by {
            assert(behind.drop_last()[i] == behind[i]);
        }
        lemma_to_version(rest, behind.drop_last());
        assert(whole.last() == behind[behind.len() - 1]);
        assert(whole.drop_last() =~= rest + behind.drop_last());
    }
}

proof fn lemma_no_dots(text: Seq<char>)
    requires
        is_numeral(text),
    ensures
        position(text, '.') == text.len(),
{
    lemma_position(text, '.');
    if position(text, '.') < text.len() {
        assert(48 <= text[position(text, '.') as int] as u32 <= 57);
    }
}

proof fn lemma_dot_at(front: Seq<char>, rest: Seq<char>)
    requires
        is_numeral(front),
    ensures
        position(front + seq!['.'] + rest, '.') == front.len(),
{
    let whole = front + seq!['.'] + rest;
    lemma_position(whole, '.');
    assert(whole[front.len() as int] == '.');
    let at = position(whole, '.') as int;
    if at < front.len() {
        assert(whole[at] == front[at]);
        assert(48 <= front[at] as u32 <= 57);
    }
}

/// The first two numbers of a version are read, whatever letters stand around it and whatever further
/// numbers come behind a second dot. A word without a dot states no version.
pub proof fn versions_are_read_from_words(
    ahead: Seq<char>,
    major: Seq<char>,
    minor: Seq<char>,
    further: Seq<char>,
    behind: Seq<char>,
)
    requires
        is_versionless(ahead),
        is_numeral(major) && major.len() > 0,
        is_numeral(minor) && minor.len() > 0,
        is_numeral(further) && further.len() > 0,
        is_versionless(behind),
    ensures
        ({
            let stated = match (parsed_number(major), parsed_number(minor)) {
                (Some(first), Some(second)) => Some((first, second)),
                _ => None,
            };
            &&& parsed_version(ahead + (major + "."@ + minor) + behind) == stated
            &&& parsed_version(ahead + (major + "."@ + minor + "."@ + further) + behind) == stated
            &&& parsed_version(ahead + major + behind) is None
        }),
{
    reveal_strlit(".");
    assert("."@ =~= seq!['.']);
    let short = major + "."@ + minor;
    let long = major + "."@ + minor + "."@ + further;
    let tail = minor + "."@ + further;
    assert(long =~= major + seq!['.'] + tail);
    assert(48 <= major[0] as u32 <= 57 && 48 <= major[major.len() - 1] as u32 <= 57);
    assert(48 <= minor[minor.len() - 1] as u32 <= 57 && 48 <= further[further.len() - 1] as u32 <= 57);
    assert(short[0] == major[0] && long[0] == major[0]);
    assert(short.last() == minor[minor.len() - 1]);
    assert(long.last() == further[further.len() - 1]);
    lemma_from_version(ahead, short + behind);
    lemma_from_version(ahead, long + behind);
    lemma_from_version(ahead, major + behind);
    assert(ahead + (short + behind) =~= ahead + short + behind);
    assert(ahead + (long + behind) =~= ahead + long + behind);
    assert(ahead + (major + behind) =~= ahead + major + behind);
    lemma_to_version(short, behind);
    lemma_to_version(long, behind);
    lemma_to_version(major, behind);
    lemma_dot_at(major, minor);
    lemma_dot_at(major, tail);
    lemma_dot_at(minor, further);
    lemma_no_dots(major);
    lemma_no_dots(minor);
    let at = (major.len() + 1) as int;
    assert(short.take(major.len() as int) =~= major);
    assert(long.take(major.len() as int) =~= major);
    assert(short.skip(at) =~= minor);
    assert(long.skip(at) =~= tail);
    assert(minor.take(minor.len() as int) =~= minor);
    assert(tail.take(minor.len() as int) =~= minor);
}

/// The version of the userspace tools is that of the first word that states one, in what was written
/// to the output and then to the errors, and a command that fails states none.
pub proof fn the_first_stated_version_counts(text: Seq<char>, index: int)
    requires
        0 <= index < words_of(text).len(),
    ensures
        parsed_version(words_of(text)[index]) is Some && (forall|i: int|
            0 <= i < index ==> parsed_version(#[trigger] words_of(text)[i]) is None)
            ==> stated_version(text) == parsed_version(words_of(text)[index]),
        (forall|i: int|
            0 <= i < words_of(text).len() ==> parsed_version(#[trigger] words_of(text)[i]) is None)
            ==> stated_version(text) is None,
{
    let words = words_of(text);
    let probe = version_at(words);
    lemma_first_of_none(words.len(), probe);
    if parsed_version(words[index]) is Some && (forall|i: int|
        0 <= i < index ==> parsed_version(#[trigger] words[i]) is None) {
        assert(probe(index) is Some);
        let hit = lemma_first_of_some(words.len(), probe);
        lemma_first_of_none(hit as nat, probe);
        if hit > index {
            assert(probe(index) is None);
        }
        if hit < index {
            assert(parsed_version(words[hit]) is None);
        }
    }
    if forall|i: int| 0 <= i < words.len() ==> parsed_version(#[trigger] words[i]) is None {
        assert forall|i: int| 0 <= i < words.len() implies (#[trigger] probe(i)) is None by {
            assert(parsed_version(words[i]) is None);
        }
    }
}

/// What the two queries of the system come to.
pub proof fn queries_are_judged_by_their_output(output: Output, message: Seq<char>)
    ensures
        output.success ==> userspace_version(Ok(output)) == judged_version(
            stated_version(lossy(output.stdout@) + " "@ + lossy(output.stderr@)),
        ),
        output.success ==> (enforcement(Ok(output)) is Err <==> trimmed(lossy(output.stdout@))
            == "Disabled"@),
        output.success && trimmed(lossy(output.stdout@)) == "Disabled"@ ==> enforcement(Ok(output))
            == Err::<(), Seq<char>>("SELinux is disabled"@),
        !output.success ==> userspace_version(Ok(output)) is Err && enforcement(Ok(output)) is Err,
        userspace_version(Err(message)) == Err::<(u32, u32), Seq<char>>(message),
        enforcement(Err(message)) == Err::<(), Seq<char>>(message),
{
}

/// A message in a context: the context first, then the message.
pub proof fn contexts_stand_before_messages(message: Seq<char>, context: Seq<char>)
    ensures
        in_context(message, context) == context + ": "@ + message,
{
}

/// The digits of a number, a digit at a time: ten decimal digits and six letters of either case.
pub proof fn digits_have_values(digits: Seq<char>, digit: char)
    ensures
        digit_value(digit) == if '0' <= digit <= '9' {
            Some((digit as int - '0' as int) as nat)
        } else if 'a' <= digit <= 'f' {
            Some((digit as int - 'a' as int + 10) as nat)
        } else if 'A' <= digit <= 'F' {
            Some((digit as int - 'A' as int + 10) as nat)
        } else {
            None
        },
        hex_value(Seq::<char>::empty()) == Some(0nat),
        hex_value(digits.push(digit)) == match (hex_value(digits), digit_value(digit)) {
            (Some(high), Some(low)) => Some(16 * high + low),
            _ => None,
        },
{
    assert(digits.push(digit).drop_last() =~= digits);
    assert(digits.push(digit).last() == digit);
}

/// The forms of an identifier: thirty-two digits, the same in groups behind hyphens, and that in
/// braces or behind a prefix. All of them mean the number that the digits mean, and nothing else is
/// an identifier.
pub proof fn identifiers_are_read_in_every_form(
    first: Seq<char>,
    second: Seq<char>,
    third: Seq<char>,
    fourth: Seq<char>,
    fifth: Seq<char>,
    text: Seq<char>,
)
    requires
        first.len() == 8,
        second.len() == 4,
        third.len() == 4,
        fourth.len() == 4,
        fifth.len() == 12,
    ensures
        ({
            let digits = first + second + third + fourth + fifth;
            let groups = first + "-"@ + second + "-"@ + third + "-"@ + fourth + "-"@ + fifth;
            let stated = match hex_value(digits) {
                Some(value) => Some(value as u128),
                None => None,
            };
            &&& parsed_id(digits) == stated
            &&& parsed_id(groups) == stated
            &&& parsed_id("{"@ + groups + "}"@) == stated
            &&& parsed_id("urn:uuid:"@ + groups) == stated
        }),
        text.len() != 32 && text.len() != 36 && text.len() != 38 && text.len() != 45 ==> parsed_id(
            text,
        ) is None,
        text.len() == 36 && !(text[8] == '-' && text[13] == '-' && text[18] == '-' && text[23]
            == '-') ==> parsed_id(text) is None,
{
    reveal_strlit("-");
    reveal_strlit("{");
    reveal_strlit("}");
    reveal_strlit("urn:uuid:");
    let digits = first + second + third + fourth + fifth;
    let groups = first + "-"@ + second + "-"@ + third + "-"@ + fourth + "-"@ + fifth;
    assert(groups.len() == 36);
    assert(groups.subrange(0, 8) =~= first);
    assert(groups.subrange(9, 13) =~= second);
    assert(groups.subrange(14, 18) =~= third);
    assert(groups.subrange(19, 23) =~= fourth);
    assert(groups.subrange(24, 36) =~= fifth);
    assert(groups[8] == '-' && groups[13] == '-' && groups[18] == '-' && groups[23] == '-');
    let braced = "{"@ + groups + "}"@;
    assert(braced.subrange(1, 37) =~= groups);
    assert(braced[0] == '{' && braced[37] == '}');
    let prefixed = "urn:uuid:"@ + groups;
    assert(prefixed.skip(9) =~= groups);
    assert(prefixed.take(9).map_values(|character: char| lower(character)) =~= seq![
        'u',
        'r',
        'n',
        ':',
        'u',
        'u',
        'i',
        'd',
        ':',
    ]);
}

/// Whether a token is a version of two numbers with letters around it, and perhaps more behind a
/// second dot.
pub open spec fn states_version(
    token: Seq<char>,
    ahead: Seq<char>,
    major: Seq<char>,
    minor: Seq<char>,
    rest: Seq<char>,
    behind: Seq<char>,
) -> bool {
    &&& token == ahead + (major + seq!['.'] + minor + rest) + behind
    &&& is_versionless(ahead)
    &&& is_versionless(behind)
    &&& !major.contains('.')
    &&& !minor.contains('.')
    &&& rest.len() > 0 ==> rest[0] == '.'
}

proof fn lemma_version_ahead(text: Seq<char>) -> (ahead: Seq<char>)
    ensures
        text == ahead + from_version(text),
        is_versionless(ahead),
    decreases text.len(),
{
    if text.len() > 0 && !crate::environment::is_version_character(text[0]) {
        let more = lemma_version_ahead(text.skip(1));
        let ahead = seq![text[0]] + more;
        assert(text =~= seq![text[0]] + text.skip(1));
        assert(text =~= ahead + from_version(text));
        assert forall|i: int| 0 <= i < ahead.len() implies !(48 <= #[trigger] ahead[i] as u32 <= 57)
            && ahead[i] != '.' by {
            if i > 0 {
                assert(ahead[i] == more[i - 1]);
            }
        }
        ahead
    } else {
        let ahead = Seq::<char>::empty();
        assert(text =~= ahead + from_version(text));
        ahead
    }
}

proof fn lemma_version_behind(text: Seq<char>) -> (behind: Seq<char>)
    ensures
        text == to_version(text) + behind,
        is_versionless(behind),
    decreases text.len(),
{
    if text.len() > 0 && !crate::environment::is_version_character(text.last()) {
        let more = lemma_version_behind(text.drop_last());
        let behind = more.push(text.last());
        assert(text =~= text.drop_last().push(text.last()));
        assert(text =~= to_version(text) + behind);
        assert forall|i: int| 0 <= i < behind.len() implies !(48 <= #[trigger] behind[i] as u32
            <= 57) && behind[i] != '.' by {
            if i < more.len() {
                assert(behind[i] == more[i]);
            }
        }
        behind
    } else {
        let behind = Seq::<char>::empty();
        assert(text =~= to_version(text) + behind);
        behind
    }
}

/// Nothing else is a version: what is read as one is two numbers with a dot between, and the numbers
/// are what is read.
pub proof fn only_versions_are_read_as_such(token: Seq<char>)
    ensures
        parsed_version(token) matches Some((first, second)) ==> exists|
            ahead: Seq<char>,
            major: Seq<char>,
            minor: Seq<char>,
            rest: Seq<char>,
            behind: Seq<char>,
        | #[trigger]
            states_version(token, ahead, major, minor, rest, behind) && parsed_number(major) == Some(
                first,
            ) && parsed_number(minor) == Some(second),
{
    if parsed_version(token) is Some {
        let ahead = lemma_version_ahead(token);
        let middle = from_version(token);
        let behind = lemma_version_behind(middle);
        let cleaned = to_version(middle);
        let dot = position(cleaned, '.') as int;
        lemma_position(cleaned, '.');
        let major = cleaned.take(dot);
        let tail = cleaned.skip(dot + 1);
        let end = position(tail, '.') as int;
        lemma_position(tail, '.');
        let minor = tail.take(end);
        let rest = tail.skip(end);
        assert(cleaned =~= major + seq!['.'] + tail);
        assert(tail =~= minor + rest);
        assert(cleaned =~= major + seq!['.'] + minor + rest);
        assert(token =~= ahead + cleaned + behind);
        assert(!major.contains('.')) by {
            if major.contains('.') {
                let i = choose|i: int| 0 <= i < major.len() && major[i] == '.';
                assert(cleaned[i] == '.');
            }
        }
        assert(!minor.contains('.')) by {
            if minor.contains('.') {
                let i = choose|i: int| 0 <= i < minor.len() && minor[i] == '.';
                assert(tail[i] == '.');
            }
        }
        assert(states_version(token, ahead, major, minor, rest, behind));
    }
}

/// A text with the length of a braced or prefixed identifier is none without the braces or the prefix.
pub proof fn braces_and_prefixes_are_needed(text: Seq<char>)
    ensures
        text.len() == 38 && !(text[0] == '{' && text[37] == '}') ==> parsed_id(text) is None,
        text.len() == 45 && (text[0] != 'u' && text[0] != 'U' || text[3] != ':' || text[8] != ':')
            ==> parsed_id(text) is None,
{
    if text.len() == 45 {
        let small = text.take(9).map_values(|character: char| lower(character));
        let wanted = seq!['u', 'r', 'n', ':', 'u', 'u', 'i', 'd', ':'];
        if small == wanted {
            assert(small[0] == lower(text[0]) && small[3] == lower(text[3]) && small[8] == lower(
                text[8],
            ));
            assert(wanted[0] == 'u' && wanted[3] == ':' && wanted[8] == ':');
        }
    }
}

} // verus!
