//! Building modules: the interfaces, the settings, the sources, and the stages of a build.

use crate::build_config::{
    assigned, assignment, definition, definition_if, definitions, entry, is_build_token,
    is_multilevel, parsed_settings, Settings,
};
use crate::compile::{
    compilation, expanded_size, interface_file, interface_text, module_files, Stage,
};
use crate::engine::steps::installation;
use crate::files::FileFacts;
use crate::laws::text::{
    interleaved, is_blank, is_tight, is_unbordered, lemma_across, replaced_marks_are_gone,
    replacing_reaches_every_mark, splitting_takes_the_first_separator,
    trimming_takes_the_space_around,
};
use crate::model::{names_of, Profile};
use crate::order::{
    arranged, arranging_keeps_the_items, arranging_puts_in_order, in_order,
};
use crate::path::{by_path, extension_of, lemma_by_path};
use crate::policy::{base_module, deny_module, is_word_character, profile_fault};
use crate::search::lemma_first_of_none;
use crate::sources::{
    by_layer_name, collected, entry_fault_at, inside, interfaces_of, is_wanted, layer_interfaces,
    taken, wanted_paths, Entry, Layer, Listing, PolicyTree, Sources, POLICY_INCLUDE_DIR,
};
use crate::text::{
    begins, decimal, is_space, lemma_occurrence, lemma_position, occurs, occurs_at, parsed_number,
    position,
};
use vstd::prelude::*;
use vstd::utf8::{decode_utf8, valid_utf8};

verus! {

proof fn lemma_mark()
    ensures
        is_unbordered("dollarsstar"@),
        !"dollarsstar"@.contains('$'),
        !"dollarsstar"@.contains('*'),
        !"dollarsstar"@.contains('\n'),
        "$*"@ == seq!['$', '*'],
{
    reveal_strlit("dollarsstar");
    reveal_strlit("$*");
    assert("$*"@ =~= seq!['$', '*']);
}

/// The file that defines interfaces holds their expansion with every mark in it replaced by the sign
/// for all arguments, however many marks there are, and with nothing else changed. It prints nothing:
/// a diversion goes before it, and the return from it behind.
pub proof fn every_interface_mark_is_replaced(pieces: Seq<Seq<char>>)
    requires
        forall|i: int| 0 <= i < pieces.len() ==> !occurs(#[trigger] pieces[i], "dollarsstar"@),
    ensures
        interface_text(interleaved(pieces, "dollarsstar"@)) == "divert(-1)\n"@ + interleaved(
            pieces,
            "$*"@,
        ) + "\ndivert\n"@,
{
    lemma_mark();
    replacing_reaches_every_mark(pieces, "dollarsstar"@, "$*"@);
}

/// No mark is left in the file that defines interfaces, whatever the expansion holds.
pub proof fn no_interface_mark_is_left(expanded: Seq<char>)
    ensures
        !occurs(interface_text(expanded), "dollarsstar"@),
{
    let mark = "dollarsstar"@;
    let middle = crate::text::replaced(expanded, mark, "$*"@);
    lemma_mark();
    replaced_marks_are_gone(expanded, mark, "$*"@);
    reveal_strlit("divert(-1)");
    reveal_strlit("divert(-1)\n");
    reveal_strlit("\ndivert\n");
    reveal_strlit("divert");
    reveal_strlit("dollarsstar");
    let none = Seq::<char>::empty();
    let tail = "divert"@ + seq!['\n'] + none;
    let whole = "divert(-1)"@ + seq!['\n'] + (middle + seq!['\n'] + tail);
    assert(interface_text(expanded) =~= whole);
    if occurs(whole, mark) {
        lemma_across("divert(-1)"@, '\n', middle + seq!['\n'] + tail, mark);
        lemma_too_short("divert(-1)"@);
        lemma_across(middle, '\n', tail, mark);
        lemma_across("divert"@, '\n', none, mark);
        lemma_too_short("divert"@);
        lemma_too_short(none);
    }
}

proof fn lemma_too_short(text: Seq<char>)
    requires
        text.len() < 11,
    ensures
        !occurs(text, "dollarsstar"@),
{
    reveal_strlit("dollarsstar");
    assert("dollarsstar"@.len() == 11);
    if occurs(text, "dollarsstar"@) {
        let at = choose|at: int| occurs_at(text, "dollarsstar"@, at);
    }
}

/// Expanded interfaces and modules are taken up to 64 MiB and not beyond, and interfaces only where
/// they are UTF-8.
pub proof fn expansions_are_bounded(
    bytes: Seq<u8>,
    size: Result<u64, Seq<char>>,
    context: Seq<char>,
)
    ensures
        interface_file(bytes) is Ok <==> bytes.len() <= 67108864 && valid_utf8(bytes),
        interface_file(bytes) matches Ok(text) ==> text == interface_text(decode_utf8(bytes)),
        expanded_size(size, context) is Ok <==> (size is Ok && size->Ok_0 <= 67108864),
        size matches Err(message) ==> expanded_size(size, context) == Err::<(), Seq<char>>(
            context + ": "@ + message,
        ),
{
}

/// Whether arguments define a macro.
pub open spec fn defines(arguments: Seq<Seq<char>>, name: Seq<char>) -> bool {
    exists|k: int|
        0 <= k && 2 * k + 1 < arguments.len() && #[trigger] arguments[2 * k] == "-D"@
            && arguments[2 * k + 1] == name
}

/// Whether arguments are definitions and nothing else.
pub open spec fn are_definitions(arguments: Seq<Seq<char>>) -> bool {
    arguments.len() % 2 == 0 && forall|k: int|
        0 <= k && 2 * k < arguments.len() ==> #[trigger] arguments[2 * k] == "-D"@
}

proof fn lemma_defines_concat(first: Seq<Seq<char>>, second: Seq<Seq<char>>, name: Seq<char>)
    requires
        are_definitions(first),
        are_definitions(second),
    ensures
        are_definitions(first + second),
        defines(first + second, name) <==> defines(first, name) || defines(second, name),
{
    let whole = first + second;
    let half = first.len() as int / 2;
    assert(first.len() == 2 * half);
    assert forall|k: int| 0 <= k && 2 * k < whole.len() implies #[trigger] whole[2 * k] == "-D"@ by {
        if 2 * k < first.len() {
            assert(whole[2 * k] == first[2 * k]);
        } else {
            assert(whole[2 * k] == second[2 * (k - half)]);
        }
    }
    if defines(whole, name) {
        let k = choose|k: int|
            0 <= k && 2 * k + 1 < whole.len() && #[trigger] whole[2 * k] == "-D"@ && whole[2 * k
                + 1] == name;
        if 2 * k < first.len() {
            assert(first[2 * k] == "-D"@ && first[2 * k + 1] == name);
        } else {
            assert(second[2 * (k - half)] == "-D"@ && second[2 * (k - half) + 1] == name);
        }
    }
    if defines(first, name) {
        let k = choose|k: int|
            0 <= k && 2 * k + 1 < first.len() && #[trigger] first[2 * k] == "-D"@ && first[2 * k
                + 1] == name;
        assert(whole[2 * k] == "-D"@ && whole[2 * k + 1] == name);
    }
    if defines(second, name) {
        let k = choose|k: int|
            0 <= k && 2 * k + 1 < second.len() && #[trigger] second[2 * k] == "-D"@ && second[2 * k
                + 1] == name;
        assert(whole[2 * (k + half)] == second[2 * k]);
        assert(whole[2 * (k + half) + 1] == second[2 * k + 1]);
    }
}

proof fn lemma_one_definition(list: Seq<Seq<char>>, made: Seq<char>, name: Seq<char>, present: bool)
    requires
        list == if present {
            seq!["-D"@, made]
        } else {
            Seq::empty()
        },
    ensures
        are_definitions(list),
        defines(list, name) <==> present && name == made,
{
    if present {
        let zero = 0int;
        assert(list[2 * zero] == "-D"@ && list[2 * zero + 1] == made);
        assert forall|k: int| 0 <= k && 2 * k < list.len() implies #[trigger] list[2 * k]
            == "-D"@ by {
            assert(k == 0);
        }
    }
}

/// The macros that a module is expanded with: one for the policy type where it has levels, one for
/// the distribution where there is one, one for each switch that is on, one that hides what is broken,
/// and the three numbers. There are no others.
pub proof fn macros_follow_the_settings(settings: Settings, name: Seq<char>)
    ensures
        are_definitions(definitions(settings)),
        defines(definitions(settings), name) <==> {
            ||| settings.policy_type == "mcs"@ && name == "enable_mcs"@
            ||| settings.policy_type == "mls"@ && name == "enable_mls"@
            ||| settings.distribution is Some && name == "distro_"@ + settings.distribution->Some_0
            ||| settings.direct_initrc && name == "direct_sysadm_daemon"@
            ||| settings.ubac && name == "enable_ubac"@
            ||| name == "hide_broken_symptoms"@
            ||| name == "mls_num_sens="@ + decimal(settings.mls_sensitivities as nat)
            ||| name == "mls_num_cats="@ + decimal(settings.mls_categories as nat)
            ||| name == "mcs_num_cats="@ + decimal(settings.mcs_categories as nat)
        },
{
    reveal_strlit("mcs");
    reveal_strlit("mls");
    assert("mcs"@[1] == 'c' && "mls"@[1] == 'l');
    let a = definition_if(settings.policy_type == "mcs"@, "enable_mcs"@);
    let b = definition_if(
        settings.policy_type != "mcs"@ && settings.policy_type == "mls"@,
        "enable_mls"@,
    );
    let token = settings.distribution->Some_0;
    let c = match settings.distribution {
        Some(distribution) => definition("distro_"@ + distribution),
        None => Seq::empty(),
    };
    let d = definition_if(settings.direct_initrc, "direct_sysadm_daemon"@);
    let e = definition_if(settings.ubac, "enable_ubac"@);
    let f = definition("hide_broken_symptoms"@);
    let g = definition("mls_num_sens="@ + decimal(settings.mls_sensitivities as nat));
    let h = definition("mls_num_cats="@ + decimal(settings.mls_categories as nat));
    let i = definition("mcs_num_cats="@ + decimal(settings.mcs_categories as nat));
    lemma_one_definition(a, "enable_mcs"@, name, settings.policy_type == "mcs"@);
    lemma_one_definition(b, "enable_mls"@, name, settings.policy_type == "mls"@);
    lemma_one_definition(c, "distro_"@ + token, name, settings.distribution is Some);
    lemma_one_definition(d, "direct_sysadm_daemon"@, name, settings.direct_initrc);
    lemma_one_definition(e, "enable_ubac"@, name, settings.ubac);
    lemma_one_definition(f, "hide_broken_symptoms"@, name, true);
    lemma_one_definition(
        g,
        "mls_num_sens="@ + decimal(settings.mls_sensitivities as nat),
        name,
        true,
    );
    lemma_one_definition(
        h,
        "mls_num_cats="@ + decimal(settings.mls_categories as nat),
        name,
        true,
    );
    lemma_one_definition(
        i,
        "mcs_num_cats="@ + decimal(settings.mcs_categories as nat),
        name,
        true,
    );
    lemma_defines_concat(a, b, name);
    lemma_defines_concat(a + b, c, name);
    lemma_defines_concat(a + b + c, d, name);
    lemma_defines_concat(a + b + c + d, e, name);
    lemma_defines_concat(a + b + c + d + e, f, name);
    lemma_defines_concat(a + b + c + d + e + f, g, name);
    lemma_defines_concat(a + b + c + d + e + f + g, h, name);
    lemma_defines_concat(a + b + c + d + e + f + g + h, i, name);
}

/// Whether a value is a switch, and on.
pub open spec fn switch_of(value: Seq<char>) -> Option<bool> {
    if value == seq!['y'] {
        Some(true)
    } else if value == seq!['n'] {
        Some(false)
    } else {
        None
    }
}

/// Whether a value is a number in the supported range.
pub open spec fn count_of(value: Seq<char>) -> Option<u32> {
    match parsed_number(value) {
        Some(number) => if 1 <= number <= 65536 {
            Some(number)
        } else {
            None
        },
        None => None,
    }
}

/// What an assignment does: it sets the one setting that it names to the value that it gives, where
/// that is a value for it, and refuses it otherwise. An assignment of anything else changes nothing.
pub proof fn assignments_set_what_they_name(settings: Settings, key: Seq<char>, value: Seq<char>)
    ensures
        ({
            let result = assigned(settings, key, value);
            &&& key == "TYPE"@ ==> if value == "standard"@ || value == "mcs"@ || value == "mls"@ {
                result == Ok::<Settings, Seq<char>>(Settings { policy_type: value, ..settings })
            } else {
                result is Err
            }
            &&& key == "DISTRO"@ ==> if value.len() > 64 || exists|i: int|
                0 <= i < value.len() && !is_word_character(#[trigger] value[i]) {
                result is Err
            } else if value.len() == 0 {
                result == Ok::<Settings, Seq<char>>(Settings { distribution: None, ..settings })
            } else {
                result == Ok::<Settings, Seq<char>>(
                    Settings { distribution: Some(value), ..settings },
                )
            }
            &&& key == "DIRECT_INITRC"@ ==> match switch_of(value) {
                Some(direct_initrc) => result == Ok::<Settings, Seq<char>>(
                    Settings { direct_initrc, ..settings },
                ),
                None => result is Err,
            }
            &&& key == "UBAC"@ ==> match switch_of(value) {
                Some(ubac) => result == Ok::<Settings, Seq<char>>(Settings { ubac, ..settings }),
                None => result is Err,
            }
            &&& key == "MLS_SENS"@ ==> match count_of(value) {
                Some(mls_sensitivities) => result == Ok::<Settings, Seq<char>>(
                    Settings { mls_sensitivities, ..settings },
                ),
                None => result is Err,
            }
            &&& key == "MLS_CATS"@ ==> match count_of(value) {
                Some(mls_categories) => result == Ok::<Settings, Seq<char>>(
                    Settings { mls_categories, ..settings },
                ),
                None => result is Err,
            }
            &&& key == "MCS_CATS"@ ==> match count_of(value) {
                Some(mcs_categories) => result == Ok::<Settings, Seq<char>>(
                    Settings { mcs_categories, ..settings },
                ),
                None => result is Err,
            }
            &&& !is_setting(key) ==> result == Ok::<Settings, Seq<char>>(settings)
        }),
{
    lemma_keys();
    reveal_strlit("y");
    reveal_strlit("n");
    assert("y"@ =~= seq!['y']);
    assert("n"@ =~= seq!['n']);
    assert(seq!['y'][0] != seq!['n'][0]);
    if exists|i: int| 0 <= i < value.len() && !is_word_character(#[trigger] value[i]) {
        assert(!is_build_token(value));
    }
}

/// Whether a text names a setting that is used.
pub open spec fn is_setting(key: Seq<char>) -> bool {
    key == "TYPE"@ || key == "DISTRO"@ || key == "DIRECT_INITRC"@ || key == "UBAC"@ || key
        == "MLS_SENS"@ || key == "MLS_CATS"@ || key == "MCS_CATS"@
}

pub proof fn lemma_keys()
    ensures
        "TYPE"@ != "DISTRO"@ && "TYPE"@ != "DIRECT_INITRC"@ && "TYPE"@ != "UBAC"@ && "TYPE"@
            != "MLS_SENS"@ && "TYPE"@ != "MLS_CATS"@ && "TYPE"@ != "MCS_CATS"@,
        "DISTRO"@ != "DIRECT_INITRC"@ && "DISTRO"@ != "UBAC"@ && "DISTRO"@ != "MLS_SENS"@
            && "DISTRO"@ != "MLS_CATS"@ && "DISTRO"@ != "MCS_CATS"@,
        "DIRECT_INITRC"@ != "UBAC"@ && "DIRECT_INITRC"@ != "MLS_SENS"@ && "DIRECT_INITRC"@
            != "MLS_CATS"@ && "DIRECT_INITRC"@ != "MCS_CATS"@,
        "UBAC"@ != "MLS_SENS"@ && "UBAC"@ != "MLS_CATS"@ && "UBAC"@ != "MCS_CATS"@,
        "MLS_SENS"@ != "MLS_CATS"@ && "MLS_SENS"@ != "MCS_CATS"@ && "MLS_CATS"@ != "MCS_CATS"@,
{
    reveal_strlit("TYPE");
    reveal_strlit("DISTRO");
    reveal_strlit("DIRECT_INITRC");
    reveal_strlit("UBAC");
    reveal_strlit("MLS_SENS");
    reveal_strlit("MLS_CATS");
    reveal_strlit("MCS_CATS");
    assert("TYPE"@.len() == 4 && "DISTRO"@.len() == 6 && "DIRECT_INITRC"@.len() == 13);
    assert("UBAC"@.len() == 4 && "MLS_SENS"@.len() == 8);
    assert("MLS_CATS"@.len() == 8 && "MCS_CATS"@.len() == 8);
    assert("TYPE"@[0] == 'T' && "UBAC"@[0] == 'U');
    assert("MLS_SENS"@[4] == 'S' && "MLS_CATS"@[4] == 'C' && "MCS_CATS"@[4] == 'C');
    assert("MLS_CATS"@[1] == 'L' && "MCS_CATS"@[1] == 'C');
}

/// Without a settings file that says otherwise, the policy has no levels, no distribution and no
/// switch set, sixteen sensitivities, and 1024 categories of each sort.
pub proof fn settings_start_from_the_defaults()
    ensures
        parsed_settings(Seq::<char>::empty()) == Ok::<Settings, Seq<char>>(
            Settings {
                policy_type: "standard"@,
                distribution: None,
                direct_initrc: false,
                ubac: false,
                mls_sensitivities: 16,
                mls_categories: 1024,
                mcs_categories: 1024,
            },
        ),
        forall|settings: Settings| #[trigger]
            is_multilevel(settings) <==> (settings.policy_type == "mcs"@ || settings.policy_type
                == "mls"@),
{
}

/// Whether a text can be a side of an assignment: it is empty or begins and ends with something
/// visible, and holds no sign of an assignment or a comment.
pub open spec fn is_side(text: Seq<char>) -> bool {
    &&& text.len() == 0 || is_tight(text)
    &&& !text.contains('=') && !text.contains(':') && !text.contains('?') && !text.contains('#')
}

pub open spec fn is_operator(operator: Seq<char>) -> bool {
    operator == seq![':', '='] || operator == seq!['?', '='] || operator == seq!['=']
}

/// An assignment as it can be written: with space around its parts.
pub open spec fn written(
    key: Seq<char>,
    gap: Seq<char>,
    operator: Seq<char>,
    space: Seq<char>,
    value: Seq<char>,
) -> Seq<char> {
    key + gap + operator + space + value
}

proof fn lemma_no_sign(text: Seq<char>, sign: Seq<char>)
    requires
        sign.len() > 0,
        !text.contains(sign.last()),
    ensures
        !occurs(text, sign),
{
    if occurs(text, sign) {
        let at = choose|at: int| occurs_at(text, sign, at);
        let found = text.subrange(at, at + sign.len());
        assert(found[sign.len() - 1] == text[at + sign.len() - 1]);
        assert(text.contains(sign.last()));
    }
}

proof fn lemma_sides(
    key: Seq<char>,
    gap: Seq<char>,
    operator: Seq<char>,
    space: Seq<char>,
    value: Seq<char>,
)
    requires
        is_side(key),
        is_side(value),
        is_blank(gap),
        is_blank(space),
        is_operator(operator),
    ensures
        assignment(written(key, gap, operator, space, value)) == Some((key + gap, space + value)),
{
    let left = key + gap;
    let right = space + value;
    let text = written(key, gap, operator, space, value);
    reveal_strlit(":=");
    reveal_strlit("?=");
    reveal_strlit("=");
    assert(":="@ =~= seq![':', '=']);
    assert("?="@ =~= seq!['?', '=']);
    assert("="@ =~= seq!['=']);
    assert(text =~= left + operator + right);
    lemma_blank_misses(gap);
    lemma_blank_misses(space);
    lemma_misses(key, gap);
    lemma_misses(space, value);
    lemma_no_sign(left, ":="@);
    lemma_no_sign(left, "?="@);
    lemma_no_sign(left, "="@);
    if operator == seq![':', '='] {
        splitting_takes_the_first_separator(left, ":="@, right);
    } else {
        lemma_other_sign(left, operator, right, ':', ":="@);
        lemma_occurrence(text, ":="@, 0);
        if operator == seq!['?', '='] {
            splitting_takes_the_first_separator(left, "?="@, right);
        } else {
            lemma_other_sign(left, operator, right, '?', "?="@);
            lemma_occurrence(text, "?="@, 0);
            splitting_takes_the_first_separator(left, "="@, right);
        }
    }
}

proof fn lemma_other_sign(
    left: Seq<char>,
    operator: Seq<char>,
    right: Seq<char>,
    first: char,
    sign: Seq<char>,
)
    requires
        sign == seq![first, '='],
        !left.contains(first),
        !operator.contains(first),
        !right.contains(first),
    ensures
        !occurs(left + operator + right, sign),
{
    let text = left + operator + right;
    if occurs(text, sign) {
        let at = choose|at: int| occurs_at(text, sign, at);
        assert(text.subrange(at, at + 2)[0] == text[at]);
        assert(text[at] == first);
        if at < left.len() {
            assert(left[at] == first);
        } else if at < left.len() + operator.len() {
            assert(operator[at - left.len()] == first);
        } else {
            assert(right[at - left.len() - operator.len()] == first);
        }
    }
}

proof fn lemma_blank_misses(text: Seq<char>)
    requires
        is_blank(text),
    ensures
        !text.contains('='),
        !text.contains(':'),
        !text.contains('?'),
        !text.contains('#'),
{
    assert(!is_space('=') && !is_space(':') && !is_space('?') && !is_space('#'));
}

proof fn lemma_misses(left: Seq<char>, right: Seq<char>)
    requires
        !left.contains('=') && !left.contains(':') && !left.contains('?') && !left.contains('#'),
        !right.contains('=') && !right.contains(':') && !right.contains('?') && !right.contains('#'),
    ensures
        ({
            let text = left + right;
            !text.contains('=') && !text.contains(':') && !text.contains('?') && !text.contains('#')
        }),
{
    let text = left + right;
    assert forall|i: int| 0 <= i < text.len() implies text[i] != '=' && text[i] != ':' && text[i]
        != '?' && text[i] != '#' by {
        if i < left.len() {
            assert(left.contains(left[i]));
            assert(text[i] == left[i]);
        } else {
            assert(right.contains(right[i - left.len()]));
            assert(text[i] == right[i - left.len()]);
        }
    }
}

proof fn lemma_uncommented(text: Seq<char>, comment: Seq<char>)
    requires
        !text.contains('#'),
    ensures
        ({
            let line = text + seq!['#'] + comment;
            line.take(position(line, '#') as int) == text
        }),
        text.take(position(text, '#') as int) == text,
{
    let line = text + seq!['#'] + comment;
    lemma_position(line, '#');
    lemma_position(text, '#');
    assert(line[text.len() as int] == '#');
    if position(text, '#') < text.len() {
        assert(text.contains(text[position(text, '#') as int]));
    }
    if position(line, '#') < text.len() {
        assert(line[position(line, '#') as int] == text[position(line, '#') as int]);
        assert(text.contains('#'));
    }
    assert(line.take(position(line, '#') as int) =~= text);
    assert(text.take(position(text, '#') as int) =~= text);
}

proof fn lemma_tight_written(
    key: Seq<char>,
    gap: Seq<char>,
    operator: Seq<char>,
    space: Seq<char>,
    value: Seq<char>,
)
    requires
        is_tight(key),
        is_tight(value),
        is_operator(operator),
    ensures
        is_tight(written(key, gap, operator, space, value)),
{
    let text = written(key, gap, operator, space, value);
    assert(text[0] == key[0]);
    assert(text.last() == value.last());
}

/// However an assignment is written, with `override` before it or not, with any of the three
/// operators, with space around its parts and a comment behind it: it assigns the value to the key.
pub proof fn assignments_are_read_however_written(
    key: Seq<char>,
    gap: Seq<char>,
    operator: Seq<char>,
    space: Seq<char>,
    value: Seq<char>,
    indent: Seq<char>,
    trail: Seq<char>,
    comment: Seq<char>,
)
    requires
        is_side(key) && is_tight(key),
        is_side(value) && is_tight(value),
        is_blank(gap) && is_blank(space) && is_blank(indent) && is_blank(trail),
        is_operator(operator),
        !begins(written(key, gap, operator, space, value), "override "@),
    ensures
        ({
            let text = written(key, gap, operator, space, value);
            let plain = indent + text + trail;
            let forced = indent + ("override "@ + indent + text) + trail;
            &&& entry(plain) == Some((key, value))
            &&& entry(plain + seq!['#'] + comment) == Some((key, value))
            &&& entry(forced) == Some((key, value))
            &&& entry(forced + seq!['#'] + comment) == Some((key, value))
        }),
{
    let text = written(key, gap, operator, space, value);
    let none = Seq::<char>::empty();
    let plain = indent + text + trail;
    let inner = "override "@ + indent + text;
    let forced = indent + inner + trail;
    lemma_tight_written(key, gap, operator, space, value);
    lemma_sides(key, gap, operator, space, value);
    assert(none + key + gap =~= key + gap);
    assert(space + value + none =~= space + value);
    trimming_takes_the_space_around(none, key, gap);
    trimming_takes_the_space_around(space, value, none);
    trimming_takes_the_space_around(indent, text, trail);
    reveal_strlit("override ");
    assert("override "@.len() == 9);
    assert(inner[0] == 'o');
    assert(!is_space('o'));
    assert(inner.last() == text.last());
    trimming_takes_the_space_around(indent, inner, trail);
    assert(inner.subrange(0, 9) =~= "override "@);
    assert(inner.skip(9) =~= indent + text + none);
    trimming_takes_the_space_around(indent, text, none);
    assert(text + none =~= text);
    lemma_blank_misses(gap);
    lemma_blank_misses(space);
    lemma_blank_misses(indent);
    lemma_blank_misses(trail);
    lemma_no_comment(key, gap, operator, space, value, indent, trail);
    lemma_uncommented(plain, comment);
    lemma_uncommented(forced, comment);
}

proof fn lemma_no_comment(
    key: Seq<char>,
    gap: Seq<char>,
    operator: Seq<char>,
    space: Seq<char>,
    value: Seq<char>,
    indent: Seq<char>,
    trail: Seq<char>,
)
    requires
        !key.contains('#') && !gap.contains('#') && !space.contains('#') && !value.contains('#'),
        !indent.contains('#') && !trail.contains('#'),
        is_operator(operator),
    ensures
        ({
            let text = written(key, gap, operator, space, value);
            &&& !(indent + text + trail).contains('#')
            &&& !(indent + ("override "@ + indent + text) + trail).contains('#')
        }),
{
    reveal_strlit("override ");
    let text = written(key, gap, operator, space, value);
    lemma_hash(key, gap);
    lemma_hash(key + gap, operator);
    lemma_hash(key + gap + operator, space);
    lemma_hash(key + gap + operator + space, value);
    lemma_hash(indent, text);
    lemma_hash(indent + text, trail);
    lemma_hash("override "@, indent);
    lemma_hash("override "@ + indent, text);
    lemma_hash(indent, "override "@ + indent + text);
    lemma_hash(indent + ("override "@ + indent + text), trail);
}

proof fn lemma_hash(left: Seq<char>, right: Seq<char>)
    requires
        !left.contains('#'),
        !right.contains('#'),
    ensures
        !(left + right).contains('#'),
{
    let text = left + right;
    if text.contains('#') {
        let i = choose|i: int| 0 <= i < text.len() && text[i] == '#';
        if i < left.len() {
            assert(left[i] == '#');
        } else {
            assert(right[i - left.len()] == '#');
        }
    }
}

/// A file in a directory is named by the directory, a slash and its name.
pub proof fn files_lie_in_their_directory(directory: Seq<char>, name: Seq<char>)
    ensures
        inside(directory, name) == directory + seq!['/'] + name,
{
    reveal_strlit("/");
    assert("/"@ =~= seq!['/']);
}

/// Every stage of a build works on what the stages before it made. The interfaces are expanded from
/// all support files and then all interface files, and wrapped; the module is expanded with the
/// macros of the settings, the support files, the wrapped interfaces and its own source; what comes
/// of it is compiled, with levels exactly where the policy has them; and what comes of that is
/// packaged under the name by which it is installed.
pub proof fn stages_work_on_what_was_made(
    sources: Sources,
    settings: Settings,
    profile: Profile,
    work: Seq<char>,
)
    ensures
        ({
            let module = names_of(profile.id).module;
            let stages = compilation(sources, settings, work, module);
            let file = |name: Seq<char>| work + seq!['/'] + name;
            &&& stages.len() == 6
            &&& stages[0] is Write && stages[1] is Expand && stages[2] is Wrap
            &&& stages[3] is Expand && stages[4] is Run && stages[5] is Run
            &&& stages[1]->Expand_command.program == "m4"@
            &&& stages[1]->Expand_command.arguments == sources.support + sources.interfaces + seq![
                stages[0]->Write_path,
            ]
            &&& stages[2]->Wrap_input == stages[1]->Expand_output
            &&& stages[3]->Expand_command.program == "m4"@
            &&& stages[3]->Expand_command.arguments == definitions(settings) + seq!["-s"@]
                + sources.support + seq![stages[2]->Wrap_output, file(module + ".te"@)]
            &&& stages[4]->Run_command.program == "checkmodule"@
            &&& stages[4]->Run_command.arguments == (if settings.policy_type == "mcs"@
                || settings.policy_type == "mls"@ {
                seq!["-m"@, "-M"@]
            } else {
                seq!["-m"@]
            }) + seq![stages[3]->Expand_output, "-o"@, file(module + ".mod"@)]
            &&& stages[5]->Run_command.program == "semodule_package"@
            &&& stages[5]->Run_command.arguments == seq![
                "-o"@,
                file(module + ".pp"@),
                "-m"@,
                file(module + ".mod"@),
            ]
            &&& stages[0]->Write_contents == "ifdef(`__if_error',`m4exit(1)')\n"@
            &&& installation(profile, work)[0] is InstallModule
            &&& installation(profile, work)[0]->InstallModule_module == module
            &&& installation(profile, work)[0]->InstallModule_file == file(module + ".pp"@)
        }),
{
    let module = names_of(profile.id).module;
    let stages = compilation(sources, settings, work, module);
    reveal_strlit("/");
    assert("/"@ =~= seq!['/']);
    assert(stages[1]->Expand_command.arguments =~= sources.support + sources.interfaces + seq![
        stages[0]->Write_path,
    ]);
    assert(stages[3]->Expand_command.arguments =~= definitions(settings) + seq!["-s"@]
        + sources.support + seq![stages[2]->Wrap_output, work + seq!['/'] + (module + ".te"@)]);
}

/// The files that a build writes are told apart: no stage writes over what another one made.
pub proof fn stages_write_different_files(
    sources: Sources,
    settings: Settings,
    work: Seq<char>,
    module: Seq<char>,
)
    ensures
        ({
            let stages = compilation(sources, settings, work, module);
            stages[1]->Expand_output != stages[2]->Wrap_output && stages[3]->Expand_output != work
                + seq!['/'] + (module + ".te"@) && stages[3]->Expand_output != work + seq!['/'] + (
            module + ".mod"@)
        }),
{
    let stages = compilation(sources, settings, work, module);
    reveal_strlit("/");
    reveal_strlit("all_interfaces.raw");
    reveal_strlit("all_interfaces.conf");
    reveal_strlit(".expanded");
    reveal_strlit(".te");
    reveal_strlit(".mod");
    assert("all_interfaces.raw"@.len() == 18 && "all_interfaces.conf"@.len() == 19);
    assert(".expanded"@.len() == 9 && ".te"@.len() == 3 && ".mod"@.len() == 4);
    assert(stages[1]->Expand_output.len() != stages[2]->Wrap_output.len());
    assert(stages[3]->Expand_output.len() == work.len() + 1 + module.len() + 9);
}

/// What is built of a valid profile are its two modules, in the files from which they are compiled
/// and installed. Nothing is built of a profile that is not valid.
pub proof fn modules_are_written_where_they_are_read(profile: Profile, work: Seq<char>)
    ensures
        profile_fault(profile) is None <==> module_files(profile, work) is Ok,
        module_files(profile, work) matches Ok(stages) ==> {
            let module = names_of(profile.id).module;
            &&& stages.len() == 2
            &&& stages[0] == (Stage::Write {
                path: work + seq!['/'] + (module + ".te"@),
                contents: base_module(profile),
            })
            &&& stages[1] is Write
            &&& stages[1]->Write_contents == deny_module(profile)
            &&& installation(profile, work).last() is InstallModule
            &&& installation(profile, work).last()->InstallModule_file == stages[1]->Write_path
            &&& installation(profile, work).last()->InstallModule_module == module + "_deny"@
        },
{
    reveal_strlit("/");
    assert("/"@ =~= seq!['/']);
}

/// Whether a file can be a source: a plain file of root's that nobody else can write, of at most
/// four mebibytes.
pub open spec fn is_source(facts: FileFacts) -> bool {
    !facts.symlink && facts.file && facts.uid == 0 && facts.mode & 0o022 == 0 && facts.len
        <= 4194304
}

/// Whether a directory can hold sources: one of root's that nobody else can write.
pub open spec fn is_source_directory(facts: FileFacts) -> bool {
    !facts.symlink && facts.directory && facts.uid == 0 && facts.mode & 0o022 == 0
}

proof fn lemma_wanted_paths(
    directory: Seq<char>,
    entries: Seq<Entry>,
    wanted: Seq<char>,
    count: nat,
    path: Seq<char>,
)
    requires
        count <= entries.len(),
    ensures
        wanted_paths(directory, entries, wanted, count).contains(path) <==> exists|i: int|
            0 <= i < count && is_wanted(directory, #[trigger] entries[i], wanted) && path == inside(
                directory,
                entries[i].name@,
            ),
    decreases count,
{
    let all = wanted_paths(directory, entries, wanted, count);
    if count > 0 {
        let before = wanted_paths(directory, entries, wanted, (count - 1) as nat);
        let last = entries[count - 1];
        lemma_wanted_paths(directory, entries, wanted, (count - 1) as nat, path);
        if all.contains(path) {
            let k = choose|k: int| 0 <= k < all.len() && all[k] == path;
            if k < before.len() {
                assert(before[k] == path);
            } else {
                assert(is_wanted(directory, entries[count - 1], wanted));
            }
        }
        if before.contains(path) {
            let k = choose|k: int| 0 <= k < before.len() && before[k] == path;
            assert(all[k] == path);
        }
        if is_wanted(directory, last, wanted) && path == inside(directory, last.name@) {
            assert(all[before.len() as int] == path);
        }
    }
}

/// What is collected from a directory are all its entries with the wanted extension, in the order of
/// paths. It succeeds exactly where the directory could be listed completely and each of them can be
/// a source; other entries do not matter.
pub proof fn every_wanted_file_is_collected(
    directory: Seq<char>,
    listing: Listing,
    wanted: Seq<char>,
    path: Seq<char>,
)
    ensures
        collected(directory, listing, wanted) is Ok <==> listing.failure is None && forall|i: int|
            0 <= i < listing.entries@.len() && extension_of(
                inside(directory, (#[trigger] listing.entries@[i]).name@),
            ) == Some(wanted) ==> (listing.entries@[i].inspected matches Ok(facts) && is_source(
                facts,
            )),
        collected(directory, listing, wanted) matches Ok(files) ==> in_order(files, by_path()) && (
        files.contains(path) <==> exists|i: int|
            0 <= i < listing.entries@.len() && extension_of(
                inside(directory, (#[trigger] listing.entries@[i]).name@),
            ) == Some(wanted) && path == inside(directory, listing.entries@[i].name@)),
{
    let entries = listing.entries@;
    let probe = entry_fault_at(directory, entries, wanted);
    lemma_first_of_none(entries.len(), probe);
    lemma_wanted_paths(directory, entries, wanted, entries.len(), path);
    let found = wanted_paths(directory, entries, wanted, entries.len());
    lemma_by_path();
    arranging_keeps_the_items(found, by_path());
    arranging_puts_in_order(found, by_path());
    assert forall|i: int| 0 <= i < entries.len() implies ((#[trigger] probe(i)) is None <==> (
    extension_of(inside(directory, entries[i].name@)) == Some(wanted) ==> (
    entries[i].inspected matches Ok(facts) && is_source(facts)))) by {}
    if collected(directory, listing, wanted) is Ok {
        assert forall|i: int|
            0 <= i < entries.len() && extension_of(
                inside(directory, (#[trigger] entries[i]).name@),
            ) == Some(wanted) implies (entries[i].inspected matches Ok(facts) && is_source(
            facts,
        )) by {
            assert(probe(i) is None);
        }
        if files_hold(directory, listing, wanted, path) {
            let i = choose|i: int|
                0 <= i < entries.len() && extension_of(
                    inside(directory, (#[trigger] entries[i]).name@),
                ) == Some(wanted) && path == inside(directory, entries[i].name@);
            assert(is_wanted(directory, entries[i], wanted));
        }
        if found.contains(path) {
            let i = choose|i: int|
                0 <= i < entries.len() && is_wanted(directory, #[trigger] entries[i], wanted)
                    && path == inside(directory, entries[i].name@);
            assert(extension_of(inside(directory, entries[i].name@)) == Some(wanted));
        }
    }
}

spec fn files_hold(
    directory: Seq<char>,
    listing: Listing,
    wanted: Seq<char>,
    path: Seq<char>,
) -> bool {
    exists|i: int|
        0 <= i < listing.entries@.len() && extension_of(
            inside(directory, (#[trigger] listing.entries@[i]).name@),
        ) == Some(wanted) && path == inside(directory, listing.entries@[i].name@)
}

/// Whether a layer of the tree has interfaces to offer: it is a directory, and not the one that holds
/// the support files.
pub open spec fn offers(layer: Layer) -> bool {
    layer.name@ != "support"@ && (layer.inspected matches Ok(facts) && facts.directory)
}

/// The interface files of a layer, where it has any to offer.
pub open spec fn offered(layer: Layer) -> Result<Seq<Seq<char>>, Seq<char>> {
    collected("/usr/share/selinux/devel/include/"@ + layer.name@, layer.listing, "if"@)
}

proof fn lemma_layer(layer: Layer)
    ensures
        offers(layer) && layer_interfaces(layer) is Ok ==> layer_interfaces(layer) == offered(layer)
            && is_source_directory(layer.inspected->Ok_0),
        !offers(layer) && layer_interfaces(layer) is Ok ==> layer_interfaces(layer)->Ok_0.len()
            == 0,
        layer_interfaces(layer) is Ok <==> if layer.name@ == "support"@ {
            true
        } else if layer.inspected is Err {
            false
        } else {
            offers(layer) ==> is_source_directory(layer.inspected->Ok_0) && offered(layer) is Ok
        },
{
    reveal_strlit("/usr/share/selinux/devel/include");
    reveal_strlit("/usr/share/selinux/devel/include/");
    reveal_strlit("/");
    assert(POLICY_INCLUDE_DIR@ == "/usr/share/selinux/devel/include"@);
    assert(inside(POLICY_INCLUDE_DIR@, layer.name@) =~= "/usr/share/selinux/devel/include/"@
        + layer.name@);
}

proof fn lemma_layers(layers: Seq<Layer>, count: nat, path: Seq<char>)
    requires
        count <= layers.len(),
    ensures
        interfaces_of(layers, count) is Ok <==> forall|i: int|
            0 <= i < count ==> layer_interfaces(#[trigger] layers[i]) is Ok,
        interfaces_of(layers, count) matches Ok(files) ==> (files.contains(path) <==> exists|i: int|
            0 <= i < count && layer_interfaces(#[trigger] layers[i])->Ok_0.contains(path)),
    decreases count,
{
    if count > 0 {
        lemma_layers(layers, (count - 1) as nat, path);
        let before = interfaces_of(layers, (count - 1) as nat);
        let last = layer_interfaces(layers[count - 1]);
        if before is Ok && last is Ok {
            let all = before->Ok_0 + last->Ok_0;
            assert(all.contains(path) <==> before->Ok_0.contains(path) || last->Ok_0.contains(
                path,
            )) by {
                if before->Ok_0.contains(path) {
                    let k = choose|k: int| 0 <= k < before->Ok_0.len() && before->Ok_0[k] == path;
                    assert(all[k] == path);
                }
                if last->Ok_0.contains(path) {
                    let k = choose|k: int| 0 <= k < last->Ok_0.len() && last->Ok_0[k] == path;
                    assert(all[before->Ok_0.len() + k] == path);
                }
                if all.contains(path) {
                    let k = choose|k: int| 0 <= k < all.len() && all[k] == path;
                    if k < before->Ok_0.len() {
                        assert(before->Ok_0[k] == path);
                    } else {
                        assert(last->Ok_0[k - before->Ok_0.len()] == path);
                    }
                }
            }
            if last->Ok_0.contains(path) {
                assert(layer_interfaces(layers[count - 1])->Ok_0.contains(path));
            }
        }
    }
}

/// The sources that modules are built from: all support files, and the interface files of every layer
/// that has any to offer. Both are needed, and the settings file with them.
pub proof fn every_source_is_taken(tree: PolicyTree, path: Seq<char>)
    ensures
        taken(tree) matches Ok(sources) ==> {
            &&& Ok::<Seq<Seq<char>>, Seq<char>>(sources.support) == collected(
                "/usr/share/selinux/devel/include/support"@,
                tree.support_listing,
                "spt"@,
            )
            &&& sources.support.len() > 0 && sources.interfaces.len() > 0
            &&& sources.support.len() + sources.interfaces.len() <= 4096
            &&& sources.build_config == "/usr/share/selinux/devel/include/build.conf"@
            &&& (tree.top matches Ok(facts) && is_source_directory(facts))
            &&& (tree.support matches Ok(facts) && is_source_directory(facts))
            &&& (tree.build_config matches Ok(facts) && is_source(facts))
            &&& tree.layers_failure is None
            &&& sources.interfaces.contains(path) <==> exists|i: int|
                0 <= i < tree.layers@.len() && offers(#[trigger] tree.layers@[i]) && offered(
                    tree.layers@[i],
                ) is Ok && offered(tree.layers@[i])->Ok_0.contains(path)
        },
{
    reveal_strlit("/usr/share/selinux/devel/include");
    reveal_strlit("/usr/share/selinux/devel/include/support");
    reveal_strlit("/usr/share/selinux/devel/include/build.conf");
    reveal_strlit("support");
    reveal_strlit("build.conf");
    reveal_strlit("/");
    assert(POLICY_INCLUDE_DIR@ == "/usr/share/selinux/devel/include"@);
    assert(inside(POLICY_INCLUDE_DIR@, "support"@)
        =~= "/usr/share/selinux/devel/include/support"@);
    assert(inside(POLICY_INCLUDE_DIR@, "build.conf"@)
        =~= "/usr/share/selinux/devel/include/build.conf"@);
    if taken(tree) is Ok {
        let layers = arranged(tree.layers@, by_layer_name());
        arranging_keeps_the_items(tree.layers@, by_layer_name());
        lemma_layers(layers, layers.len(), path);
        let interfaces = interfaces_of(layers, layers.len())->Ok_0;
        if interfaces.contains(path) {
            let k = choose|k: int|
                0 <= k < layers.len() && layer_interfaces(#[trigger] layers[k])->Ok_0.contains(path);
            lemma_layer(layers[k]);
            assert(layer_interfaces(layers[k]) is Ok);
            assert(layers.contains(layers[k]));
            assert(tree.layers@.contains(layers[k]));
            let i = choose|i: int| 0 <= i < tree.layers@.len() && tree.layers@[i] == layers[k];
            assert(offers(tree.layers@[i]));
        }
        if exists|i: int|
            0 <= i < tree.layers@.len() && offers(#[trigger] tree.layers@[i]) && offered(
                tree.layers@[i],
            ) is Ok && offered(tree.layers@[i])->Ok_0.contains(path) {
            let i = choose|i: int|
                0 <= i < tree.layers@.len() && offers(#[trigger] tree.layers@[i]) && offered(
                    tree.layers@[i],
                ) is Ok && offered(tree.layers@[i])->Ok_0.contains(path);
            assert(tree.layers@.contains(tree.layers@[i]));
            assert(layers.contains(tree.layers@[i]));
            let k = choose|k: int| 0 <= k < layers.len() && layers[k] == tree.layers@[i];
            lemma_layer(layers[k]);
            assert(layer_interfaces(layers[k]) is Ok);
        }
    }
}

/// Success is owed: where the directories and the settings file are root's, everything could be
/// listed, every layer and every wanted file is as it has to be, and there are neither too few nor
/// too many files, the sources are taken.
pub proof fn sound_trees_are_taken(tree: PolicyTree)
    requires
        tree.top matches Ok(facts) && is_source_directory(facts),
        tree.support matches Ok(facts) && is_source_directory(facts),
        tree.build_config matches Ok(facts) && is_source(facts),
        tree.layers_failure is None,
        ({
            let support = collected(
                inside(POLICY_INCLUDE_DIR@, "support"@),
                tree.support_listing,
                "spt"@,
            );
            let layers = arranged(tree.layers@, by_layer_name());
            let interfaces = interfaces_of(layers, layers.len());
            &&& support is Ok && support->Ok_0.len() > 0
            &&& interfaces is Ok ==> interfaces->Ok_0.len() > 0
            &&& interfaces is Ok ==> support->Ok_0.len() + interfaces->Ok_0.len() <= 4096
        }),
        forall|i: int|
            0 <= i < tree.layers@.len() && (#[trigger] tree.layers@[i]).name@ != "support"@
                ==> tree.layers@[i].inspected is Ok && (offers(tree.layers@[i])
                ==> is_source_directory(tree.layers@[i].inspected->Ok_0) && offered(
                tree.layers@[i],
            ) is Ok),
    ensures
        taken(tree) is Ok,
{
    let layers = arranged(tree.layers@, by_layer_name());
    arranging_keeps_the_items(tree.layers@, by_layer_name());
    lemma_layers(layers, layers.len(), Seq::empty());
    assert forall|k: int| 0 <= k < layers.len() implies layer_interfaces(
        #[trigger] layers[k],
    ) is Ok by {
        assert(layers.contains(layers[k]));
        assert(tree.layers@.contains(layers[k]));
        let i = choose|i: int| 0 <= i < tree.layers@.len() && tree.layers@[i] == layers[k];
        lemma_layer(tree.layers@[i]);
        assert(tree.layers@[i].name@ == layers[k].name@);
    }
}

/// A definition where it is asked for.
pub open spec fn where_defined(asked: bool, name: Seq<char>) -> Seq<Seq<char>> {
    if asked {
        seq!["-D"@, name]
    } else {
        Seq::empty()
    }
}

/// The definitions of settings stand in one order, each at most once: the sort of the policy, its
/// distribution, its switches, and then what is defined for all of them.
pub proof fn macros_stand_in_order(settings: Settings)
    ensures
        definitions(settings) == where_defined(settings.policy_type == "mcs"@, "enable_mcs"@)
            + where_defined(settings.policy_type == "mls"@, "enable_mls"@) + where_defined(
            settings.distribution is Some,
            "distro_"@ + settings.distribution->Some_0,
        ) + where_defined(settings.direct_initrc, "direct_sysadm_daemon"@) + where_defined(
            settings.ubac,
            "enable_ubac"@,
        ) + where_defined(true, "hide_broken_symptoms"@) + where_defined(
            true,
            "mls_num_sens="@ + decimal(settings.mls_sensitivities as nat),
        ) + where_defined(true, "mls_num_cats="@ + decimal(settings.mls_categories as nat))
            + where_defined(true, "mcs_num_cats="@ + decimal(settings.mcs_categories as nat)),
{
    reveal_strlit("mcs");
    reveal_strlit("mls");
    assert("mcs"@[1] == 'c' && "mls"@[1] == 'l');
}

/// Entries are collected one after the other: each that is wanted once, in its place.
pub proof fn entries_are_collected_one_by_one(
    directory: Seq<char>,
    entries: Seq<Entry>,
    wanted: Seq<char>,
    count: nat,
)
    requires
        count > 0,
    ensures
        wanted_paths(directory, entries, wanted, 0) == Seq::<Seq<char>>::empty(),
        ({
            let path = directory + seq!['/'] + entries[count - 1].name@;
            let before = wanted_paths(directory, entries, wanted, (count - 1) as nat);
            wanted_paths(directory, entries, wanted, count) == if extension_of(path) == Some(wanted) {
                before.push(path)
            } else {
                before
            }
        }),
        forall|listing: Listing| #[trigger]
            collected(directory, listing, wanted) is Ok ==> collected(directory, listing, wanted)
                == Ok::<Seq<Seq<char>>, Seq<char>>(
                arranged(
                    wanted_paths(directory, listing.entries@, wanted, listing.entries@.len()),
                    by_path(),
                ),
            ),
{
    reveal_strlit("/");
    assert("/"@ =~= seq!['/']);
}

} // verus!
