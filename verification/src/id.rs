//! Profile identifiers: UUIDs as 128-bit numbers, and their texts.

use crate::error::{in_context, Error};
use crate::text::text3;
use vstd::prelude::*;

verus! {

/// A lower-case hexadecimal digit.
pub open spec fn hex_digit(value: nat) -> char {
    if value < 10 {
        (48 + value) as char
    } else {
        (87 + value) as char
    }
}

/// The last `size` hexadecimal digits of a number.
pub open spec fn hex(value: nat, size: nat) -> Seq<char>
    decreases size,
{
    if size == 0 {
        Seq::empty()
    } else {
        hex(value / 16, (size - 1) as nat).push(hex_digit(value % 16))
    }
}

/// An identifier as 32 hexadecimal digits.
pub open spec fn compact(id: u128) -> Seq<char> {
    hex(id as nat, 32)
}

/// Thirty-two digits in groups of 8, 4, 4, 4 and 12.
pub open spec fn grouped(digits: Seq<char>) -> Seq<char> {
    digits.subrange(0, 8) + seq!['-'] + digits.subrange(8, 12) + seq!['-'] + digits.subrange(12, 16)
        + seq!['-'] + digits.subrange(16, 20) + seq!['-'] + digits.subrange(20, 32)
}

/// An identifier as it is shown to users: digits in groups.
pub open spec fn shown(id: u128) -> Seq<char> {
    grouped(compact(id))
}

/// The digits of grouped text, where the hyphens stand in their places.
pub open spec fn ungrouped(text: Seq<char>) -> Option<Seq<char>> {
    if text.len() == 36 && text[8] == '-' && text[13] == '-' && text[18] == '-' && text[23] == '-' {
        Some(
            text.subrange(0, 8) + text.subrange(9, 13) + text.subrange(14, 18) + text.subrange(
                19,
                23,
            ) + text.subrange(24, 36),
        )
    } else {
        None
    }
}

/// The value of a hexadecimal digit in either case.
pub open spec fn digit_value(character: char) -> Option<nat> {
    let code = character as int;
    if 48 <= code <= 57 {
        Some((code - 48) as nat)
    } else if 97 <= code <= 102 {
        Some((code - 87) as nat)
    } else if 65 <= code <= 70 {
        Some((code - 55) as nat)
    } else {
        None
    }
}

/// The number that hexadecimal digits stand for.
pub open spec fn hex_value(digits: Seq<char>) -> Option<nat>
    decreases digits.len(),
{
    if digits.len() == 0 {
        Some(0)
    } else {
        match (hex_value(digits.drop_last()), digit_value(digits.last())) {
            (Some(high), Some(low)) => Some(high * 16 + low),
            _ => None,
        }
    }
}

/// A character in lower case, where it is an ASCII letter.
pub open spec fn lower(character: char) -> char {
    if 65 <= character as int <= 90 {
        (character as int + 32) as char
    } else {
        character
    }
}

/// The digits of an identifier's text: plain, grouped, grouped in braces, or grouped in a URN.
pub open spec fn id_digits(text: Seq<char>) -> Option<Seq<char>> {
    if text.len() == 32 {
        Some(text)
    } else if text.len() == 36 {
        ungrouped(text)
    } else if text.len() == 38 && text[0] == '{' && text[37] == '}' {
        ungrouped(text.subrange(1, 37))
    } else if text.len() == 45 && text.take(9).map_values(|character: char| lower(character))
        == seq!['u', 'r', 'n', ':', 'u', 'u', 'i', 'd', ':'] {
        ungrouped(text.skip(9))
    } else {
        None
    }
}

/// The identifier that a text states.
pub open spec fn parsed_id(text: Seq<char>) -> Option<u128> {
    match id_digits(text) {
        Some(digits) => match hex_value(digits) {
            Some(value) => Some(value as u128),
            None => None,
        },
        None => None,
    }
}

/// What `uuid` says of a text that states no identifier.
pub uninterp spec fn id_complaint(text: Seq<char>) -> Seq<char>;

/// `Uuid::simple` and its text: the 32 hexadecimal digits of the identifier in lower case.
#[verifier::external_body]
pub(crate) fn compact_text(id: u128) -> (result: String)
    ensures
        result@ == compact(id),
{
    uuid::Uuid::from_u128(id).simple().to_string()
}

/// The text of a `Uuid`: its digits in lower case, in groups.
#[verifier::external_body]
pub(crate) fn shown_text(id: u128) -> (result: String)
    ensures
        result@ == shown(id),
{
    uuid::Uuid::from_u128(id).to_string()
}

/// `Uuid::new_v4` returns a random identifier of version 4 and of the variant of RFC 9562: the
/// bits that mark them are set, and nothing is said of the others.
#[verifier::external_body]
pub(crate) fn random_id() -> (result: u128)
    ensures
        (result >> 76) & 0xF == 4,
        (result >> 62) & 0x3 == 2,
{
    uuid::Uuid::new_v4().as_u128()
}

/// `Uuid::parse_str` reads the digits of an identifier in its four forms, in either case, and
/// refuses every other text with a message that depends on the text alone.
#[verifier::external_body]
fn read_id(text: &str) -> (result: Result<u128, String>)
    ensures
        match result {
            Ok(id) => parsed_id(text@) == Some(id),
            Err(message) => parsed_id(text@) is None && message@ == id_complaint(text@),
        },
{
    match uuid::Uuid::parse_str(text) {
        Ok(id) => Ok(id.as_u128()),
        Err(error) => Err(error.to_string()),
    }
}

/// The refusal of a text that states no identifier.
pub open spec fn invalid_id(text: Seq<char>, complaint: Seq<char>) -> Seq<char> {
    in_context(complaint, "Invalid profile ID '"@ + text + "'"@)
}

/// The outcome of reading an identifier, from what the reader said.
pub fn accept_id(text: &str, read: Result<u128, String>) -> (result: Result<u128, Error>)
    ensures
        match result {
            Ok(id) => read == Ok::<u128, String>(id),
            Err(error) => read is Err && error@ == invalid_id(text@, read->Err_0@),
        },
{
    match read {
        Ok(id) => Ok(id),
        Err(message) => Err(
            Error::new(message.as_str()).context(text3("Invalid profile ID '", text, "'").as_str()),
        ),
    }
}

/// Reads an identifier that a user wrote.
pub fn parse_id(text: &str) -> (result: Result<u128, Error>)
    ensures
        match parsed_id(text@) {
            Some(id) => result == Ok::<u128, Error>(id),
            None => result matches Err(error) && error@ == invalid_id(text@, id_complaint(text@)),
        },
{
    let read = read_id(text);
    accept_id(text, read)
}

pub open spec fn power(size: nat) -> nat
    decreases size,
{
    if size == 0 {
        1
    } else {
        16 * power((size - 1) as nat)
    }
}

pub proof fn lemma_hex_value(value: nat, size: nat)
    requires
        value < power(size),
    ensures
        hex(value, size).len() == size,
        hex_value(hex(value, size)) == Some(value),
    decreases size,
{
    if size > 0 {
        let shorter = (size - 1) as nat;
        assert(value / 16 < power(shorter)) by (nonlinear_arith)
            requires
                value < 16 * power(shorter),
        ;
        lemma_hex_value(value / 16, shorter);
        let last = hex_digit(value % 16);
        assert(hex(value, size).drop_last() == hex(value / 16, shorter));
        assert(digit_value(last) == Some(value % 16));
    }
}

pub proof fn lemma_power()
    ensures
        power(32) == 0x1_0000_0000_0000_0000_0000_0000_0000_0000,
{
    reveal_with_fuel(power, 33);
}

/// The text that users see of an identifier is read back as the same identifier.
pub proof fn shown_id_reads_back(id: u128)
    ensures
        parsed_id(shown(id)) == Some(id),
        parsed_id(compact(id)) == Some(id),
{
    lemma_power();
    lemma_hex_value(id as nat, 32);
    let digits = compact(id);
    let text = shown(id);
    assert(ungrouped(text) == Some(digits)) by {
        assert(text.len() == 36);
        assert(text.subrange(0, 8) + text.subrange(9, 13) + text.subrange(14, 18) + text.subrange(
            19,
            23,
        ) + text.subrange(24, 36) =~= digits);
    }
}

/// Different identifiers have different digits.
pub proof fn compact_is_injective(left: u128, right: u128)
    ensures
        compact(left) == compact(right) ==> left == right,
{
    shown_id_reads_back(left);
    shown_id_reads_back(right);
}

/// The characters of an identifier's digits.
pub open spec fn is_hex_digit(character: char) -> bool {
    48 <= character as int <= 57 || 97 <= character as int <= 102
}

pub proof fn lemma_hex_digits(value: nat, size: nat)
    ensures
        hex(value, size).len() == size,
        forall|i: int| 0 <= i < size ==> is_hex_digit(#[trigger] hex(value, size)[i]),
    decreases size,
{
    if size > 0 {
        lemma_hex_digits(value / 16, (size - 1) as nat);
        assert forall|i: int| 0 <= i < size implies is_hex_digit(#[trigger] hex(value, size)[i]) by {
            if i < size - 1 {
                assert(hex(value, size)[i] == hex(value / 16, (size - 1) as nat)[i]);
            }
        }
    }
}

/// The shown text of an identifier has 36 characters: digits and hyphens.
pub proof fn lemma_shown(id: u128)
    ensures
        shown(id).len() == 36,
        forall|i: int|
            0 <= i < 36 ==> is_hex_digit(#[trigger] shown(id)[i]) || shown(id)[i] == '-',
{
    lemma_hex_digits(id as nat, 32);
    let digits = compact(id);
    assert forall|i: int| 0 <= i < 36 implies is_hex_digit(#[trigger] shown(id)[i]) || shown(
        id,
    )[i] == '-' by {
        let place = if i < 8 {
            i
        } else if i < 13 {
            i - 1
        } else if i < 18 {
            i - 2
        } else if i < 23 {
            i - 3
        } else {
            i - 4
        };
        if i != 8 && i != 13 && i != 18 && i != 23 {
            assert(shown(id)[i] == digits[place]);
        }
    }
}

} // verus!
