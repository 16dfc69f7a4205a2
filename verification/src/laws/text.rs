//! Text: lines, words, trimming, splitting, replacing and numbers.

use crate::text::{
    all_digits, begins, decimal, digit, ends, is_digit, is_space, leading_word, lemma_leading_word,
    lemma_leading_space, lemma_occurrence, lemma_position, lemma_trimmed_range, lines_of, number,
    occurs, occurs_at, occurrence, parsed_number, parted, position, replaced, trimmed,
    trimmed_start, unsigned, without_return, words_of,
};
use vstd::prelude::*;

verus! {

/// Lines in a row, each with a line feed behind it.
pub open spec fn unlined(lines: Seq<Seq<char>>) -> Seq<char>
    decreases lines.len(),
{
    if lines.len() == 0 {
        Seq::empty()
    } else {
        lines[0] + seq!['\n'] + unlined(lines.skip(1))
    }
}

/// A line that ends with its own last character: it holds no line feed, and no carriage return at
/// its end.
pub open spec fn is_line(line: Seq<char>) -> bool {
    !line.contains('\n') && (line.len() > 0 ==> line.last() != '\r')
}

proof fn lemma_no_feed(line: Seq<char>)
    requires
        !line.contains('\n'),
    ensures
        position(line, '\n') == line.len(),
{
    lemma_position(line, '\n');
    if position(line, '\n') < line.len() {
        assert(line.contains(line[position(line, '\n') as int]));
    }
}

/// What stands before the first line feed of a text is its first line, without a carriage return at
/// its end. The rest of the text has the other lines. A text without a line feed is one line, and an
/// empty one has none.
pub proof fn lines_end_at_line_feeds(line: Seq<char>, rest: Seq<char>)
    requires
        !line.contains('\n'),
    ensures
        is_line(line) ==> lines_of(line + seq!['\n'] + rest) == seq![line] + lines_of(rest),
        lines_of(line + seq!['\r', '\n'] + rest) == seq![line] + lines_of(rest),
        line.len() > 0 ==> lines_of(line) == seq![line],
        lines_of(Seq::<char>::empty()) == Seq::<Seq<char>>::empty(),
{
    let text = line + seq!['\n'] + rest;
    lemma_no_feed(line);
    lemma_first_feed(line, rest);
    let returned = line.push('\r');
    assert(!returned.contains('\n')) by {
        if returned.contains('\n') {
            let i = choose|i: int| 0 <= i < returned.len() && returned[i] == '\n';
            assert(line[i] == '\n');
        }
    }
    lemma_first_feed(returned, rest);
    assert(returned + seq!['\n'] + rest =~= line + seq!['\r', '\n'] + rest);
    assert(returned.drop_last() =~= line);
}

proof fn lemma_first_feed(line: Seq<char>, rest: Seq<char>)
    requires
        !line.contains('\n'),
    ensures
        lines_of(line + seq!['\n'] + rest) == seq![without_return(line)] + lines_of(rest),
{
    let text = line + seq!['\n'] + rest;
    let end = line.len() as int;
    lemma_position(text, '\n');
    assert(text[end] == '\n');
    assert forall|i: int| 0 <= i < end implies #[trigger] text[i] != '\n' by {
        assert(text[i] == line[i]);
        assert(line.contains(line[i]));
    }
    assert(position(text, '\n') == end);
    assert(text.take(end) =~= line);
    assert(text.skip(end + 1) =~= rest);
}

/// Lines that were put in a row are read back as they were.
pub proof fn lines_read_back(lines: Seq<Seq<char>>)
    requires
        forall|i: int| 0 <= i < lines.len() ==> is_line(#[trigger] lines[i]),
    ensures
        lines_of(unlined(lines)) == lines,
    decreases lines.len(),
{
    if lines.len() == 0 {
        assert(lines =~= Seq::<Seq<char>>::empty());
    } else {
        let rest = lines.skip(1);
        assert forall|i: int| 0 <= i < rest.len() implies is_line(#[trigger] rest[i]) by {
            assert(is_line(lines[i + 1]));
        }
        lines_read_back(rest);
        assert(is_line(lines[0]));
        lines_end_at_line_feeds(lines[0], unlined(rest));
        assert(seq![lines[0]] + rest =~= lines);
    }
}

pub proof fn lemma_unlined_concat(first: Seq<Seq<char>>, second: Seq<Seq<char>>)
    ensures
        unlined(first + second) == unlined(first) + unlined(second),
    decreases first.len(),
{
    if first.len() == 0 {
        assert(first + second =~= second);
        assert(unlined(first) + unlined(second) =~= unlined(second));
    } else {
        lemma_unlined_concat(first.skip(1), second);
        assert((first + second).skip(1) =~= first.skip(1) + second);
        assert((first + second)[0] == first[0]);
        assert(unlined(first + second) =~= unlined(first) + unlined(second));
    }
}

/// What stands before a line feed in a row of lines is the end of a line.
pub proof fn lemma_line_end(lines: Seq<Seq<char>>, pattern: Seq<char>) -> (index: int)
    requires
        forall|i: int| 0 <= i < lines.len() ==> is_line(#[trigger] lines[i]),
        !pattern.contains('\n'),
        occurs(unlined(lines), pattern + seq!['\n']),
    ensures
        0 <= index < lines.len(),
        ends(lines[index], pattern),
    decreases lines.len(),
{
    let text = unlined(lines);
    let wanted = pattern + seq!['\n'];
    let at = choose|at: int| occurs_at(text, wanted, at);
    assert(text.subrange(at, at + wanted.len()) == wanted);
    let line = lines[0];
    let rest = lines.skip(1);
    let size = pattern.len() as int;
    let end = line.len() as int;
    assert(is_line(lines[0]));
    assert(wanted[size] == '\n' && text[at + size] == wanted[size]);
    if at + size < end {
        assert(text[at + size] == line[at + size]);
        assert(line.contains('\n'));
        0
    } else if at + size == end {
        assert(line.subrange(at, at + size) =~= pattern) by {
            assert forall|i: int| 0 <= i < size implies line[at + i] == pattern[i] by {
                assert(text[at + i] == line[at + i]);
                assert(wanted[i] == text[at + i]);
            }
        }
        0
    } else if at <= end {
        assert(text[end] == '\n');
        assert(wanted[end - at] == text[end]);
        assert(pattern[end - at] == '\n');
        0
    } else {
        assert forall|i: int| 0 <= i < rest.len() implies is_line(#[trigger] rest[i]) by {
            assert(is_line(lines[i + 1]));
        }
        let place = at - end - 1;
        assert(unlined(rest).subrange(place, place + wanted.len()) =~= wanted) by {
            assert forall|i: int| 0 <= i < wanted.len() implies unlined(rest)[place + i]
                == wanted[i] by {
                assert(text[at + i] == unlined(rest)[place + i]);
            }
        }
        assert(occurs_at(unlined(rest), wanted, place));
        let index = lemma_line_end(rest, pattern);
        assert(rest[index] == lines[index + 1]);
        index + 1
    }
}

/// A line of a row stands in it, with its line feed.
pub proof fn lemma_line_occurs(lines: Seq<Seq<char>>, index: int)
    requires
        0 <= index < lines.len(),
    ensures
        occurs(unlined(lines), lines[index] + seq!['\n']),
    decreases lines.len(),
{
    let text = unlined(lines);
    let rest = lines.skip(1);
    if index == 0 {
        let wanted = lines[0] + seq!['\n'];
        assert(text.subrange(0, wanted.len() as int) =~= wanted);
        assert(occurs_at(text, wanted, 0));
    } else {
        lemma_line_occurs(rest, index - 1);
        let wanted = lines[index] + seq!['\n'];
        let at = choose|at: int| occurs_at(unlined(rest), wanted, at);
        let start = lines[0].len() + 1 + at;
        assert(text.subrange(start, start + wanted.len()) =~= unlined(rest).subrange(
            at,
            at + wanted.len(),
        ));
        assert(occurs_at(text, wanted, start));
    }
}

/// A text that ends with another holds it wherever it stands.
pub proof fn lemma_ends_occurs(text: Seq<char>, whole: Seq<char>, suffix: Seq<char>)
    requires
        occurs(text, whole),
        ends(whole, suffix),
    ensures
        occurs(text, suffix),
{
    let at = choose|at: int| occurs_at(text, whole, at);
    let start = at + whole.len() - suffix.len();
    assert(text.subrange(start, start + suffix.len()) =~= suffix) by {
        let found = text.subrange(at, at + whole.len());
        assert(found == whole);
        let tail = whole.subrange(whole.len() - suffix.len(), whole.len() as int);
        assert(tail == suffix);
        assert forall|i: int| 0 <= i < suffix.len() implies text[start + i] == suffix[i] by {
            assert(found[whole.len() - suffix.len() + i] == text[start + i]);
            assert(tail[i] == whole[whole.len() - suffix.len() + i]);
        }
    }
    assert(occurs_at(text, suffix, start));
}

/// Whether a text is white space throughout.
pub open spec fn is_blank(text: Seq<char>) -> bool {
    forall|i: int| 0 <= i < text.len() ==> is_space(#[trigger] text[i])
}

/// Whether a text is not empty, and neither begins nor ends with white space.
pub open spec fn is_tight(text: Seq<char>) -> bool {
    text.len() > 0 && !is_space(text[0]) && !is_space(text.last())
}

/// Among the characters of ASCII, the white space is the space and the controls from the tab to the
/// carriage return.
pub proof fn ascii_space(character: char)
    requires
        (character as u32) < 128,
    ensures
        is_space(character) <==> character == ' ' || character == '\t' || character == '\n'
            || character == '\r' || character as u32 == 11 || character as u32 == 12,
{
}

/// Trimming takes off white space at both ends and nothing else: whatever white space is put around a
/// text that has none at its ends, the text is what is left.
pub proof fn trimming_takes_the_space_around(before: Seq<char>, text: Seq<char>, after: Seq<char>)
    requires
        is_blank(before),
        is_blank(after),
        is_tight(text) || text.len() == 0,
    ensures
        trimmed(before + text + after) == text,
        trimmed_start(before + text + after) == if text.len() > 0 {
            text + after
        } else {
            Seq::empty()
        },
{
    let whole = before + text + after;
    let range = lemma_trimmed_range(whole);
    lemma_leading_space(whole);
    let lead = crate::text::leading_space(whole) as int;
    let start = before.len() as int;
    let end = start + text.len();
    assert forall|i: int| 0 <= i < start implies is_space(#[trigger] whole[i]) by {
        assert(whole[i] == before[i]);
    }
    assert forall|i: int| end <= i < whole.len() implies is_space(#[trigger] whole[i]) by {
        assert(whole[i] == after[i - end]);
    }
    if text.len() > 0 {
        assert(whole[start] == text[0]);
        assert(whole[end - 1] == text[text.len() - 1]);
        assert(range.0 <= start && end <= range.1);
        assert(range.0 == start);
        assert(range.1 == end);
        assert(whole.subrange(start, end) =~= text);
        assert(lead == start);
        assert(whole.skip(start) =~= text + after);
    } else {
        if range.0 < range.1 {
            assert(is_space(whole[range.0]));
        }
        assert(trimmed(whole) =~= text);
        if lead < whole.len() {
            assert(is_space(whole[lead]));
        }
        assert(whole.skip(lead) =~= Seq::<char>::empty());
    }
}

/// Words are what white space separates, however much of it.
pub proof fn words_stand_between_spaces(before: Seq<char>, word: Seq<char>, rest: Seq<char>)
    requires
        is_blank(before),
        word.len() > 0,
        forall|i: int| 0 <= i < word.len() ==> !is_space(#[trigger] word[i]),
        rest.len() > 0 ==> is_space(rest[0]),
    ensures
        words_of(before + word + rest) == seq![word] + words_of(rest),
        words_of(before) == Seq::<Seq<char>>::empty(),
{
    let text = before + word + rest;
    lemma_skip_blank(before, word + rest);
    assert(before + (word + rest) =~= text);
    let tail = word + rest;
    assert(tail[0] == word[0]);
    assert(trimmed_start(text) == tail);
    lemma_leading_word(tail);
    let size = leading_word(tail) as int;
    assert(size == word.len()) by {
        if size < word.len() {
            assert(tail[size] == word[size]);
        } else if size > word.len() {
            assert(tail[word.len() as int] == rest[0]);
        }
    }
    assert(tail.take(size) =~= word);
    assert(tail.skip(size) =~= rest);
    lemma_leading_space(before);
    let lead = crate::text::leading_space(before) as int;
    if lead < before.len() {
        assert(is_space(before[lead]));
    }
    assert(trimmed_start(before).len() == 0);
}

proof fn lemma_skip_blank(before: Seq<char>, tail: Seq<char>)
    requires
        is_blank(before),
        tail.len() > 0,
        !is_space(tail[0]),
    ensures
        trimmed_start(before + tail) == tail,
{
    let text = before + tail;
    lemma_leading_space(text);
    let lead = crate::text::leading_space(text) as int;
    assert(text[before.len() as int] == tail[0]);
    if lead < before.len() {
        assert(text[lead] == before[lead]);
    }
    assert(lead == before.len());
    assert(text.skip(lead) =~= tail);
}

/// Whether a pattern is not empty, and its first character stands nowhere else in it: two of its
/// occurrences then never overlap.
pub open spec fn is_unbordered(pattern: Seq<char>) -> bool {
    pattern.len() > 0 && forall|i: int| 0 < i < pattern.len() ==> #[trigger] pattern[i] != pattern[0]
}

/// Texts in a row, with a mark between them.
pub open spec fn interleaved(pieces: Seq<Seq<char>>, mark: Seq<char>) -> Seq<char>
    decreases pieces.len(),
{
    if pieces.len() == 0 {
        Seq::empty()
    } else if pieces.len() == 1 {
        pieces[0]
    } else {
        pieces[0] + mark + interleaved(pieces.skip(1), mark)
    }
}

pub proof fn lemma_first_mark(piece: Seq<char>, mark: Seq<char>, rest: Seq<char>)
    requires
        is_unbordered(mark),
        !occurs(piece, mark),
    ensures
        occurrence(piece + mark + rest, mark, 0) == Some(piece.len() as int),
{
    let text = piece + mark + rest;
    let size = mark.len() as int;
    let place = piece.len() as int;
    assert(text.subrange(place, place + size) =~= mark);
    assert(occurs_at(text, mark, place));
    lemma_occurrence(text, mark, 0);
    let found = occurrence(text, mark, 0)->Some_0;
    if found < place {
        assert(text.subrange(found, found + size) == mark);
        if found + size <= place {
            assert(piece.subrange(found, found + size) =~= text.subrange(found, found + size));
            assert(occurs_at(piece, mark, found));
        } else {
            assert(text[place] == mark[0]);
            assert(text.subrange(found, found + size)[place - found] == text[place]);
            assert(mark[place - found] == mark[0]);
        }
    }
}

/// Replacing reaches every occurrence of a pattern, and nothing else: what stands between the
/// occurrences stays as it is.
pub proof fn replacing_reaches_every_mark(
    pieces: Seq<Seq<char>>,
    mark: Seq<char>,
    sign: Seq<char>,
)
    requires
        is_unbordered(mark),
        forall|i: int| 0 <= i < pieces.len() ==> !occurs(#[trigger] pieces[i], mark),
    ensures
        replaced(interleaved(pieces, mark), mark, sign) == interleaved(pieces, sign),
    decreases pieces.len(),
{
    let text = interleaved(pieces, mark);
    if pieces.len() == 0 {
        lemma_occurrence(text, mark, 0);
    } else if pieces.len() == 1 {
        assert(!occurs(pieces[0], mark));
        lemma_occurrence(text, mark, 0);
    } else {
        let rest = pieces.skip(1);
        assert forall|i: int| 0 <= i < rest.len() implies !occurs(#[trigger] rest[i], mark) by {
            assert(!occurs(pieces[i + 1], mark));
        }
        assert(!occurs(pieces[0], mark));
        replacing_reaches_every_mark(rest, mark, sign);
        lemma_first_mark(pieces[0], mark, interleaved(rest, mark));
        let index = pieces[0].len() as int;
        assert(text.take(index) =~= pieces[0]);
        assert(text.skip(index + mark.len()) =~= interleaved(rest, mark));
    }
}

/// A pattern that does not hold a character does not stand across it.
pub proof fn lemma_across(
    left: Seq<char>,
    character: char,
    right: Seq<char>,
    pattern: Seq<char>,
)
    requires
        pattern.len() > 0,
        !pattern.contains(character),
        occurs(left + seq![character] + right, pattern),
    ensures
        occurs(left, pattern) || occurs(right, pattern),
{
    let text = left + seq![character] + right;
    let at = choose|at: int| occurs_at(text, pattern, at);
    let size = pattern.len() as int;
    let found = text.subrange(at, at + size);
    let gap = left.len() as int;
    if at + size <= gap {
        assert(left.subrange(at, at + size) =~= found);
        assert(occurs_at(left, pattern, at));
    } else if at > gap {
        assert(right.subrange(at - gap - 1, at - gap - 1 + size) =~= found);
        assert(occurs_at(right, pattern, at - gap - 1));
    } else {
        assert(found[gap - at] == text[gap]);
        assert(pattern.contains(character));
    }
}

/// Where the replacement holds no character of a pattern, the pattern is gone after replacing.
pub proof fn replaced_marks_are_gone(text: Seq<char>, mark: Seq<char>, sign: Seq<char>)
    requires
        mark.len() > 0,
        sign.len() == 2,
        !mark.contains(sign[0]),
        !mark.contains(sign[1]),
    ensures
        !occurs(replaced(text, mark, sign), mark),
    decreases text.len(),
{
    lemma_occurrence(text, mark, 0);
    match occurrence(text, mark, 0) {
        None => {
            if occurs(text, mark) {
                let at = choose|at: int| occurs_at(text, mark, at);
                assert(0 <= at);
            }
        },
        Some(index) => {
            let rest = text.skip(index + mark.len());
            replaced_marks_are_gone(rest, mark, sign);
            let before = text.take(index);
            let after = replaced(rest, mark, sign);
            if occurs(replaced(text, mark, sign), mark) {
                assert(before + sign + after =~= before + seq![sign[0]] + (Seq::<char>::empty() + seq![
                    sign[1],
                ] + after));
                lemma_across(
                    before,
                    sign[0],
                    Seq::<char>::empty() + seq![sign[1]] + after,
                    mark,
                );
                if occurs(before, mark) {
                    let at = choose|at: int| occurs_at(before, mark, at);
                    assert(text.subrange(at, at + mark.len()) =~= before.subrange(
                        at,
                        at + mark.len(),
                    ));
                    assert(occurs_at(text, mark, at));
                } else {
                    lemma_across(Seq::<char>::empty(), sign[1], after, mark);
                    let none = Seq::<char>::empty();
                    if occurs(none, mark) {
                        let at = choose|at: int| occurs_at(none, mark, at);
                    }
                }
            }
        },
    }
}

/// Splitting at a separator gives what stands before its first occurrence and what stands behind it,
/// and nothing where it does not occur.
pub proof fn splitting_takes_the_first_separator(
    before: Seq<char>,
    separator: Seq<char>,
    after: Seq<char>,
)
    requires
        is_unbordered(separator),
        !occurs(before, separator),
    ensures
        parted(before + separator + after, separator) == Some((before, after)),
        parted(before, separator) is None,
{
    let text = before + separator + after;
    lemma_first_mark(before, separator, after);
    assert(text.take(before.len() as int) =~= before);
    assert(text.skip((before.len() + separator.len()) as int) =~= after);
    lemma_occurrence(before, separator, 0);
}

/// What begins and ends a text.
pub proof fn affixes_stand_at_the_ends(left: Seq<char>, right: Seq<char>)
    ensures
        begins(left + right, left),
        ends(left + right, right),
{
    let whole = left + right;
    assert(whole.subrange(0, left.len() as int) =~= left);
    assert(whole.subrange(left.len() as int, whole.len() as int) =~= right);
}

pub proof fn lemma_decimal(value: nat)
    ensures
        decimal(value).len() > 0,
        all_digits(decimal(value)),
        number(decimal(value)) == value,
        value > 0 ==> decimal(value)[0] != '0',
    decreases value,
{
    reveal_with_fuel(number, 2);
    if value < 10 {
        assert(decimal(value).drop_last() =~= Seq::<char>::empty());
        assert(number(decimal(value)) == value);
    } else {
        lemma_decimal(value / 10);
        let shorter = decimal(value / 10);
        let last = digit(value % 10);
        assert(decimal(value).drop_last() =~= shorter);
        assert(is_digit(last));
        assert(decimal(value)[0] == shorter[0]);
    }
}

/// A number is read back from its decimal digits, with or without a plus sign, and no two numbers
/// have the same digits. The digits never begin with a zero, but for zero itself.
pub proof fn numbers_read_back(value: u32, other: nat)
    ensures
        parsed_number(decimal(value as nat)) == Some(value),
        parsed_number(seq!['+'] + decimal(value as nat)) == Some(value),
        decimal(value as nat) == decimal(other) ==> other == value,
        all_digits(decimal(other)),
        other > 0 ==> decimal(other)[0] != '0',
        other < 10 ==> decimal(other).len() == 1,
{
    lemma_decimal(value as nat);
    lemma_decimal(other);
    let digits = decimal(value as nat);
    assert(is_digit(digits[0]));
    assert((seq!['+'] + digits).skip(1) =~= digits);
}

/// Whether a text is made of decimal digits.
pub open spec fn is_numeral(text: Seq<char>) -> bool {
    text.len() > 0 && forall|i: int| 0 <= i < text.len() ==> 48 <= (#[trigger] text[i]) as u32 <= 57
}

/// A text that states a number is made of digits, with at most one plus sign before them, and states
/// no more than the largest number of 32 bits; every such text states one.
pub proof fn numbers_are_digits(digits: Seq<char>)
    requires
        digits.len() > 0 ==> digits[0] != '+',
    ensures
        parsed_number(digits) == if is_numeral(digits) && number(digits) <= 4294967295 {
            Some(number(digits) as u32)
        } else {
            None
        },
        parsed_number(seq!['+'] + digits) == parsed_number(digits),
        parsed_number(seq!['+', '+'] + digits) is None,
        number(Seq::<char>::empty()) == 0,
{
    let signed = seq!['+'] + digits;
    let twice = seq!['+', '+'] + digits;
    assert(signed.skip(1) =~= digits);
    assert(twice.skip(1) =~= signed);
    assert(!is_digit(signed[0]));
    assert(!is_digit('+'));
    assert(unsigned(digits) == digits);
    assert(all_digits(digits) <==> forall|i: int|
        0 <= i < digits.len() ==> 48 <= (#[trigger] digits[i]) as u32 <= 57) by {
        if all_digits(digits) {
            assert forall|i: int| 0 <= i < digits.len() implies 48 <= (
            #[trigger] digits[i]) as u32 <= 57 by {
                assert(is_digit(digits[i]));
            }
        }
        if forall|i: int| 0 <= i < digits.len() ==> 48 <= (#[trigger] digits[i]) as u32 <= 57 {
            assert forall|i: int| 0 <= i < digits.len() implies is_digit(#[trigger] digits[i]) by {
                assert(48 <= digits[i] as u32 <= 57);
            }
        }
    }
}

/// A digit more means ten times as much, and the digit.
pub proof fn digits_count_by_ten(digits: Seq<char>, last: char)
    requires
        48 <= last as u32 <= 57,
    ensures
        number(digits.push(last)) == number(digits) * 10 + (last as u32 - 48),
{
    assert(digits.push(last).drop_last() =~= digits);
}

/// White space is what Unicode takes for it.
pub proof fn space_is_what_unicode_takes_for_it(character: char)
    ensures
        is_space(character) <==> {
            let code = character as u32;
            ||| code == 9 || code == 10 || code == 11 || code == 12 || code == 13
            ||| code == 32 || code == 133 || code == 160 || code == 5760
            ||| 8192 <= code <= 8202
            ||| code == 8232 || code == 8233 || code == 8239 || code == 8287 || code == 12288
        },
{
}

/// A text begins with another exactly where the rest follows it, ends with another exactly where the
/// rest goes before it, and holds another exactly where it stands between two rests.
pub proof fn texts_hold_each_other(text: Seq<char>, part: Seq<char>)
    ensures
        begins(text, part) <==> exists|rest: Seq<char>| text == #[trigger] (part + rest),
        ends(text, part) <==> exists|rest: Seq<char>| text == #[trigger] (rest + part),
        occurs(text, part) <==> exists|before: Seq<char>, after: Seq<char>|
            text == #[trigger] (before + part + after),
{
    let size = part.len() as int;
    if begins(text, part) {
        assert(text =~= part + text.skip(size)) by {
            assert(text.subrange(0, size) =~= text.take(size));
        }
    }
    if exists|rest: Seq<char>| text == #[trigger] (part + rest) {
        let rest = choose|rest: Seq<char>| text == #[trigger] (part + rest);
        assert((part + rest).subrange(0, size) =~= part);
    }
    if ends(text, part) {
        let at = text.len() - size;
        assert(text =~= text.take(at) + text.subrange(at, at + size));
    }
    if exists|rest: Seq<char>| text == #[trigger] (rest + part) {
        let rest = choose|rest: Seq<char>| text == #[trigger] (rest + part);
        assert((rest + part).subrange(rest.len() as int, text.len() as int) =~= part);
    }
    if occurs(text, part) {
        let at = choose|index: int| occurs_at(text, part, index);
        assert(text =~= text.take(at) + text.subrange(at, at + size) + text.skip(at + size));
    }
    if exists|before: Seq<char>, after: Seq<char>| text == #[trigger] (before + part + after) {
        let (before, after) = choose|before: Seq<char>, after: Seq<char>|
            text == #[trigger] (before + part + after);
        let at = before.len() as int;
        assert((before + part + after).subrange(at, at + size) =~= part);
        assert(occurs_at(text, part, at));
    }
}

} // verus!
