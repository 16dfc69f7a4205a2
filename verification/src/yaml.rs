//! The subset of YAML that is accepted. Tags, anchors, aliases, merge keys, document streams and
//! tabs are refused wherever they stand outside quotes and comments, so that a document can be
//! read without knowing how they would be resolved.

use crate::error::{outcome, Error};
use crate::policy::verdict;
use crate::search::{first_of, lemma_first_of, lemma_first_of_none};
use crate::text::{
    characters, contains, contains_char, decimal, decimal_text, is_space, lemma_leading_space,
    lemma_position, lemma_trailing_space, lemma_trimmed_range, lines, lines_of, occurs, occurs_at,
    position, reads, slices, text2, trim, trimmed, trimmed_start,
};
use vstd::prelude::*;

verus! {

/// Where a position of a line stands.
#[derive(Clone, Copy)]
pub enum Mode {
    /// Outside quotes and comments.
    Plain,
    /// Between double quotes.
    Double,
    /// Between double quotes, behind a backslash.
    Escaped,
    /// Between single quotes.
    Single,
    /// On the second of two single quotes that stand for one.
    Repeated,
    /// In a comment.
    Comment,
}

/// The mode behind a character, given the mode before it and the character that follows.
pub open spec fn mode_after(mode: Mode, character: char, next: Option<char>) -> Mode {
    match mode {
        Mode::Plain => if character == '#' {
            Mode::Comment
        } else if character == '"' {
            Mode::Double
        } else if character == '\'' {
            Mode::Single
        } else {
            Mode::Plain
        },
        Mode::Double => if character == '\\' {
            Mode::Escaped
        } else if character == '"' {
            Mode::Plain
        } else {
            Mode::Double
        },
        Mode::Escaped => Mode::Double,
        Mode::Single => if character != '\'' {
            Mode::Single
        } else if next == Some('\'') {
            Mode::Repeated
        } else {
            Mode::Plain
        },
        Mode::Repeated => Mode::Single,
        Mode::Comment => Mode::Comment,
    }
}

pub open spec fn character_at(line: Seq<char>, index: int) -> Option<char> {
    if 0 <= index < line.len() {
        Some(line[index])
    } else {
        None
    }
}

/// The mode before a position of a line.
pub open spec fn mode_at(line: Seq<char>, index: nat) -> Mode
    decreases index,
{
    if index == 0 {
        Mode::Plain
    } else {
        mode_after(
            mode_at(line, (index - 1) as nat),
            line[index - 1],
            character_at(line, index as int),
        )
    }
}

/// What the first `size` characters of a line show outside quotes and comments. A character that
/// belongs to quoted text shows as a space.
pub open spec fn visible(line: Seq<char>, size: nat) -> Seq<char>
    decreases size,
{
    if size == 0 {
        Seq::empty()
    } else {
        let before = visible(line, (size - 1) as nat);
        let mode = mode_at(line, (size - 1) as nat);
        let character = line[size - 1];
        if mode is Comment || (mode is Plain && character == '#') {
            before
        } else if mode is Plain && character != '"' && character != '\'' {
            before.push(character)
        } else {
            before.push(' ')
        }
    }
}

/// Whether a tab stands outside quotes and comments.
pub open spec fn has_tab(line: Seq<char>) -> bool {
    exists|i: int| 0 <= i < line.len() && #[trigger] line[i] == '\t' && mode_at(line, i as nat) is Plain
}

/// Whether a quoted text is still open where the line ends.
pub open spec fn is_unterminated(line: Seq<char>) -> bool {
    !(mode_at(line, line.len()) is Plain) && !(mode_at(line, line.len()) is Comment)
}

/// What is refused in a line.
pub open spec fn line_fault(line: Seq<char>) -> Option<Seq<char>> {
    let shown = trimmed(visible(line, line.len()));
    if has_tab(line) {
        Some("tabs are not allowed"@)
    } else if is_unterminated(line) {
        Some("unterminated quoted scalar"@)
    } else if shown == "---"@ || shown == "..."@ {
        Some("document stream markers are not allowed"@)
    } else if occurs(shown, "<<:"@) {
        Some("mapping merge keys are not allowed"@)
    } else if shown.contains('!') || shown.contains('&') || shown.contains('*') {
        Some("tags, anchors, and aliases are not allowed"@)
    } else {
        None
    }
}

/// What is refused in the line at an index, with the line's number.
pub open spec fn fault_at(lines: Seq<Seq<char>>) -> spec_fn(int) -> Option<Seq<char>> {
    |index: int|
        match line_fault(lines[index]) {
            Some(message) => Some(message + " at line "@ + decimal((index + 1) as nat)),
            None => None,
        }
}

/// What is refused in a text, or nothing.
pub open spec fn yaml_fault(text: Seq<char>) -> Option<Seq<char>> {
    first_of(lines_of(text).len(), fault_at(lines_of(text)))
}

fn next_mode(mode: Mode, character: char, next: Option<char>) -> (result: Mode)
    ensures
        result == mode_after(mode, character, next),
{
    match mode {
        Mode::Plain => if character == '#' {
            Mode::Comment
        } else if character == '"' {
            Mode::Double
        } else if character == '\'' {
            Mode::Single
        } else {
            Mode::Plain
        },
        Mode::Double => if character == '\\' {
            Mode::Escaped
        } else if character == '"' {
            Mode::Plain
        } else {
            Mode::Double
        },
        Mode::Escaped => Mode::Double,
        Mode::Single => if character != '\'' {
            Mode::Single
        } else {
            match next {
                Some('\'') => Mode::Repeated,
                _ => Mode::Plain,
            }
        },
        Mode::Repeated => Mode::Single,
        Mode::Comment => Mode::Comment,
    }
}

/// What is refused in a line, without the line's number.
fn check_line(line: &[char]) -> (result: Option<String>)
    ensures
        crate::text::optional(result) == line_fault(line@),
{
    let mut mode = Mode::Plain;
    let mut plain: Vec<char> = Vec::new();
    let mut index: usize = 0;
    while index < line.len()
        invariant
            index <= line@.len(),
            mode == mode_at(line@, index as nat),
            plain@ == visible(line@, index as nat),
            forall|i: int|
                0 <= i < index && #[trigger] line@[i] == '\t' ==> !(mode_at(
                    line@,
                    i as nat,
                ) is Plain),
        decreases line.len() - index,
    {
        let character: char = line[index];
        match mode {
            Mode::Plain => {
                if character == '\t' {
                    assert(line@[index as int] == '\t' && mode_at(line@, index as nat) is Plain);
                    return Some("tabs are not allowed".to_owned());
                }
                if character == '"' || character == '\'' {
                    plain.push(' ');
                } else if character != '#' {
                    plain.push(character);
                }
            },
            Mode::Comment => {},
            _ => {
                plain.push(' ');
            },
        }
        let next: Option<char> = if index + 1 < line.len() {
            Some(line[index + 1])
        } else {
            None
        };
        assert(next == character_at(line@, index + 1));
        mode = next_mode(mode, character, next);
        index += 1;
    }
    assert(!has_tab(line@));
    match mode {
        Mode::Plain | Mode::Comment => {},
        _ => {
            return Some("unterminated quoted scalar".to_owned());
        },
    }
    let shown = trim(plain.as_slice());
    if reads(shown, "---") || reads(shown, "...") {
        return Some("document stream markers are not allowed".to_owned());
    }
    let merge = characters("<<:");
    if contains(shown, merge.as_slice()) {
        return Some("mapping merge keys are not allowed".to_owned());
    }
    if contains_char(shown, '!') || contains_char(shown, '&') || contains_char(shown, '*') {
        return Some("tags, anchors, and aliases are not allowed".to_owned());
    }
    None
}

/// Refuses a text that uses more of YAML than the accepted subset. The error names the first line
/// that does.
pub fn reject_unsupported_yaml(text: &str) -> (result: Result<(), Error>)
    ensures
        outcome(result) == verdict(yaml_fault(text@)),
{
    let chars = characters(text);
    let list = lines(chars.as_slice());
    let ghost all = lines_of(text@);
    let ghost probe = fault_at(all);
    let mut index: usize = 0;
    while index < list.len()
        invariant
            index <= list@.len(),
            slices(list@) == all,
            all == lines_of(text@),
            probe == fault_at(all),
            first_of(index as nat, probe) is None,
        decreases list.len() - index,
    {
        let line = list[index];
        assert(slices(list@)[index as int] == line@);
        if let Some(complaint) = check_line(line) {
            let number = decimal_text(index as u64 + 1);
            let mut message = text2(complaint.as_str(), " at line ");
            message.append(number.as_str());
            proof {
                assert(probe(index as int) == Some(message@));
                lemma_first_of((index + 1) as nat, all.len(), probe);
            }
            return Err(Error { message });
        }
        assert(probe(index as int) is None);
        index += 1;
    }
    Ok(())
}

proof fn lemma_trimmed_keeps(text: Seq<char>, character: char)
    requires
        !is_space(character),
        text.contains(character),
    ensures
        trimmed(text).contains(character),
{
    let index = choose|i: int| 0 <= i < text.len() && text[i] == character;
    let start = trimmed_start(text);
    lemma_leading_space(text);
    lemma_trailing_space(start);
    let skipped = crate::text::leading_space(text) as int;
    assert(skipped <= index);
    assert(start[index - skipped] == character);
    assert(index - skipped < start.len() - crate::text::trailing_space(start));
    assert(trimmed(text)[index - skipped] == character);
}

proof fn lemma_visible(line: Seq<char>, index: int, size: nat)
    requires
        0 <= index < size <= line.len(),
        mode_at(line, index as nat) is Plain,
        line[index] != '#' && line[index] != '"' && line[index] != '\'',
    ensures
        visible(line, size).contains(line[index]),
    decreases size,
{
    let before = visible(line, (size - 1) as nat);
    if index == size - 1 {
        assert(visible(line, size).last() == line[index]);
        assert(visible(line, size)[before.len() as int] == line[index]);
    } else {
        lemma_visible(line, index, (size - 1) as nat);
        let place = choose|i: int| 0 <= i < before.len() && before[i] == line[index];
        assert(visible(line, size)[place] == line[index]);
    }
}

/// In an accepted text no tab and no sign of a tag, an anchor or an alias stands outside quotes
/// and comments, no quoted text runs over the end of its line, and no line shows a merge key or a
/// marker between documents.
pub proof fn accepted_text_is_plain(text: Seq<char>, line: int)
    requires
        yaml_fault(text) is None,
        0 <= line < lines_of(text).len(),
    ensures
        ({
            let content = lines_of(text)[line];
            let shown = trimmed(visible(content, content.len()));
            &&& forall|i: int|
                0 <= i < content.len() && mode_at(content, i as nat) is Plain ==> {
                    &&& #[trigger] content[i] != '\t'
                    &&& content[i] != '!'
                    &&& content[i] != '&'
                    &&& content[i] != '*'
                }
            &&& !is_unterminated(content)
            &&& !occurs(shown, "<<:"@)
            &&& shown != "---"@
            &&& shown != "..."@
        }),
{
    let all = lines_of(text);
    let content = all[line];
    lemma_first_of_none(all.len(), fault_at(all));
    assert(fault_at(all)(line) is None);
    let shown = visible(content, content.len());
    assert forall|i: int| 0 <= i < content.len() && mode_at(content, i as nat) is Plain implies {
        &&& #[trigger] content[i] != '\t'
        &&& content[i] != '!'
        &&& content[i] != '&'
        &&& content[i] != '*'
    } by {
        let character = content[i];
        if character == '!' || character == '&' || character == '*' {
            lemma_visible(content, i, content.len());
            lemma_trimmed_keeps(shown, character);
        }
    }
}

/// Whether every line of a text is accepted.
pub open spec fn is_accepted(text: Seq<char>) -> bool {
    forall|i: int| 0 <= i < lines_of(text).len() ==> line_fault(#[trigger] lines_of(text)[i]) is None
}

/// A text is refused exactly where one of its lines is.
pub proof fn lemma_accepted(text: Seq<char>)
    ensures
        yaml_fault(text) is None <==> is_accepted(text),
{
    let all = lines_of(text);
    lemma_first_of_none(all.len(), fault_at(all));
    if yaml_fault(text) is None {
        assert forall|i: int| 0 <= i < all.len() implies line_fault(#[trigger] all[i]) is None by {
            assert(fault_at(all)(i) is None);
        }
    }
    if is_accepted(text) {
        assert forall|i: int| 0 <= i < all.len() implies (#[trigger] fault_at(all)(i)) is None by {
            assert(line_fault(all[i]) is None);
        }
    }
}

/// A text with one more line in front is accepted where both are. The line ends with a line feed.
pub proof fn lemma_accepted_line(line: Seq<char>, rest: Seq<char>)
    requires
        line.len() > 0,
        line.last() == '\n',
        forall|i: int| 0 <= i < line.len() - 1 ==> #[trigger] line[i] != '\n',
        line.len() > 1 ==> line[line.len() - 2] != '\r',
        line_fault(line.drop_last()) is None,
        is_accepted(rest),
    ensures
        is_accepted(line + rest),
{
    let text = line + rest;
    let end = line.len() - 1;
    lemma_position(text, '\n');
    assert(text[end] == '\n');
    assert(position(text, '\n') == end) by {
        assert forall|i: int| 0 <= i < end implies #[trigger] text[i] != '\n' by {
            assert(text[i] == line[i]);
        }
    }
    assert(text.take(end) =~= line.drop_last());
    assert(text.skip(end + 1) =~= rest);
    assert(lines_of(text) =~= seq![line.drop_last()] + lines_of(rest));
    assert forall|i: int| 0 <= i < lines_of(text).len() implies line_fault(
        #[trigger] lines_of(text)[i],
    ) is None by {
        if i > 0 {
            assert(lines_of(text)[i] == lines_of(rest)[i - 1]);
        }
    }
}

/// The characters that mean nothing but themselves anywhere in a line.
pub open spec fn is_plain_character(character: char) -> bool {
    &&& character != '\t'
    &&& character != '\n'
    &&& character != '\r'
    &&& character != '!'
    &&& character != '&'
    &&& character != '*'
    &&& character != '"'
    &&& character != '\''
    &&& character != '#'
    &&& character != '<'
}

proof fn lemma_plain_modes(line: Seq<char>, size: nat)
    requires
        size <= line.len(),
        forall|i: int| 0 <= i < line.len() ==> is_plain_character(#[trigger] line[i]),
    ensures
        mode_at(line, size) is Plain,
        visible(line, size) == line.take(size as int),
    decreases size,
{
    if size > 0 {
        lemma_plain_modes(line, (size - 1) as nat);
        assert(is_plain_character(line[size - 1]));
        assert(line.take(size - 1).push(line[size - 1]) =~= line.take(size as int));
    } else {
        assert(line.take(0) =~= Seq::<char>::empty());
    }
}

proof fn lemma_trimmed_plain(text: Seq<char>)
    requires
        forall|i: int| 0 <= i < text.len() ==> is_plain_character(#[trigger] text[i]),
    ensures
        forall|i: int| 0 <= i < trimmed(text).len() ==> is_plain_character(#[trigger] trimmed(text)[i]),
{
    lemma_leading_space(text);
    lemma_trailing_space(trimmed_start(text));
    let skipped = crate::text::leading_space(text) as int;
    assert forall|i: int| 0 <= i < trimmed(text).len() implies is_plain_character(
        #[trigger] trimmed(text)[i],
    ) by {
        assert(trimmed(text)[i] == text[i + skipped]);
    }
}

proof fn lemma_no_merge(text: Seq<char>)
    requires
        forall|i: int| 0 <= i < text.len() ==> is_plain_character(#[trigger] text[i]),
    ensures
        !occurs(text, "<<:"@),
{
    reveal_strlit("<<:");
    if occurs(text, "<<:"@) {
        let at = choose|at: int| crate::text::occurs_at(text, "<<:"@, at);
        assert(text.subrange(at, at + 3)[0] == text[at]);
        assert("<<:"@[0] == '<');
    }
}

proof fn lemma_no_marker(text: Seq<char>, letter: char)
    requires
        text.contains(letter),
        97 <= letter as int <= 122,
    ensures
        text != "---"@,
        text != "..."@,
{
    reveal_strlit("---");
    reveal_strlit("...");
    let at = choose|at: int| 0 <= at < text.len() && text[at] == letter;
    assert(text[at] != '-' && text[at] != '.');
}

/// A line of plain characters with a letter among them is accepted.
pub proof fn lemma_plain_line(line: Seq<char>, index: int)
    requires
        forall|i: int| 0 <= i < line.len() ==> is_plain_character(#[trigger] line[i]),
        0 <= index < line.len(),
        97 <= line[index] as int <= 122,
    ensures
        line_fault(line) is None,
{
    lemma_plain_modes(line, line.len());
    assert(line.take(line.len() as int) =~= line);
    assert(line.contains(line[index]));
    lemma_trimmed_keeps(line, line[index]);
    lemma_trimmed_plain(line);
    lemma_no_merge(trimmed(line));
    lemma_no_marker(trimmed(line), line[index]);
}

proof fn lemma_comment_modes(line: Seq<char>, size: nat)
    requires
        0 < size <= line.len(),
        line[0] == '#',
    ensures
        mode_at(line, size) is Comment,
        visible(line, size).len() == 0,
    decreases size,
{
    reveal_with_fuel(mode_at, 2);
    reveal_with_fuel(visible, 2);
    if size > 1 {
        lemma_comment_modes(line, (size - 1) as nat);
    }
}

proof fn lemma_blank(text: Seq<char>)
    requires
        text.len() == 0,
    ensures
        trimmed(text).len() == 0,
        trimmed(text) != "---"@,
        trimmed(text) != "..."@,
        !occurs(trimmed(text), "<<:"@),
{
    lemma_leading_space(text);
    lemma_trailing_space(trimmed_start(text));
    assert(trimmed_start(text).len() == 0);
    reveal_strlit("---");
    reveal_strlit("...");
    reveal_strlit("<<:");
    assert("---"@.len() == 3 && "..."@.len() == 3 && "<<:"@.len() == 3);
}

proof fn lemma_comment_has_no_tab(line: Seq<char>)
    requires
        line.len() > 0,
        line[0] == '#',
    ensures
        !has_tab(line),
{
    assert forall|i: int| 0 <= i < line.len() && #[trigger] line[i] == '\t' implies !(mode_at(
        line,
        i as nat,
    ) is Plain) by {
        if i > 0 {
            lemma_comment_modes(line, i as nat);
        }
    }
}

/// A line that is a comment from its first character on is accepted.
pub proof fn lemma_comment_line(line: Seq<char>)
    requires
        line.len() > 0,
        line[0] == '#',
    ensures
        line_fault(line) is None,
{
    lemma_comment_modes(line, line.len());
    lemma_comment_has_no_tab(line);
    lemma_blank(visible(line, line.len()));
}

/// Whether a text is all white space.
pub open spec fn is_blank(text: Seq<char>) -> bool {
    forall|i: int| 0 <= i < text.len() ==> is_space(#[trigger] text[i])
}

/// Whether a pattern stands at an index of a text, and nothing but white space around it.
pub open spec fn stands_alone_at(text: Seq<char>, pattern: Seq<char>, index: int) -> bool {
    &&& occurs_at(text, pattern, index)
    &&& forall|i: int|
        0 <= i < text.len() && (i < index || i >= index + pattern.len()) ==> is_space(
            #[trigger] text[i],
        )
}

/// Whether a text is a pattern with nothing but white space around it.
pub open spec fn stands_alone(text: Seq<char>, pattern: Seq<char>) -> bool {
    exists|index: int| stands_alone_at(text, pattern, index)
}

/// Whether a pattern is not empty and holds no white space.
pub open spec fn is_solid(pattern: Seq<char>) -> bool {
    pattern.len() > 0 && forall|i: int|
        0 <= i < pattern.len() ==> !is_space(#[trigger] pattern[i])
}

proof fn lemma_trimmed_contains(text: Seq<char>, character: char)
    requires
        !is_space(character),
    ensures
        trimmed(text).contains(character) <==> text.contains(character),
{
    let range = lemma_trimmed_range(text);
    if text.contains(character) {
        lemma_trimmed_keeps(text, character);
    }
    if trimmed(text).contains(character) {
        let i = choose|i: int| 0 <= i < trimmed(text).len() && trimmed(text)[i] == character;
        assert(text[range.0 + i] == character);
    }
}

proof fn lemma_trimmed_occurs(text: Seq<char>, pattern: Seq<char>)
    requires
        is_solid(pattern),
    ensures
        occurs(trimmed(text), pattern) <==> occurs(text, pattern),
{
    let range = lemma_trimmed_range(text);
    let size = pattern.len() as int;
    if occurs(trimmed(text), pattern) {
        let i = choose|i: int| occurs_at(trimmed(text), pattern, i);
        assert(text.subrange(range.0 + i, range.0 + i + size) =~= trimmed(text).subrange(
            i,
            i + size,
        ));
        assert(occurs_at(text, pattern, range.0 + i));
    }
    if occurs(text, pattern) {
        let i = choose|i: int| occurs_at(text, pattern, i);
        let found = text.subrange(i, i + size);
        assert(found[0] == text[i] && found[size - 1] == text[i + size - 1]);
        assert(!is_space(pattern[0]) && !is_space(pattern[size - 1]));
        assert(range.0 <= i && i + size <= range.1);
        assert(trimmed(text).subrange(i - range.0, i - range.0 + size) =~= found);
        assert(occurs_at(trimmed(text), pattern, i - range.0));
    }
}

proof fn lemma_trimmed_alone(text: Seq<char>, pattern: Seq<char>)
    requires
        is_solid(pattern),
    ensures
        trimmed(text) == pattern <==> stands_alone(text, pattern),
{
    let range = lemma_trimmed_range(text);
    let size = pattern.len() as int;
    if trimmed(text) == pattern {
        assert(occurs_at(text, pattern, range.0));
        assert(stands_alone_at(text, pattern, range.0));
    }
    if stands_alone(text, pattern) {
        let k = choose|k: int| stands_alone_at(text, pattern, k);
        let found = text.subrange(k, k + size);
        assert(found[0] == text[k] && found[size - 1] == text[k + size - 1]);
        assert(!is_space(pattern[0]) && !is_space(pattern[size - 1]));
        assert(range.0 <= k && k + size <= range.1);
        assert(range.0 == k && range.1 == k + size);
    }
}

pub open spec fn spaces(size: nat) -> Seq<char> {
    Seq::new(size, |i: int| ' ')
}

/// Two texts with spaces between them.
pub open spec fn spaced(left: Seq<char>, size: nat, right: Seq<char>) -> Seq<char> {
    left + spaces(size) + right
}

proof fn lemma_spaced_contains(left: Seq<char>, size: nat, right: Seq<char>, character: char)
    requires
        !is_space(character),
    ensures
        spaced(left, size, right).contains(character) <==> left.contains(character)
            || right.contains(character),
{
    let text = spaced(left, size, right);
    if text.contains(character) {
        let i = choose|i: int| 0 <= i < text.len() && text[i] == character;
        if i < left.len() {
            assert(left[i] == character);
        } else if i >= left.len() + size {
            assert(right[i - left.len() - size] == character);
        }
    }
    if left.contains(character) {
        let i = choose|i: int| 0 <= i < left.len() && left[i] == character;
        assert(text[i] == character);
    }
    if right.contains(character) {
        let i = choose|i: int| 0 <= i < right.len() && right[i] == character;
        assert(text[left.len() + size + i] == character);
    }
}

/// A pattern without white space stands to one side of spaces.
proof fn lemma_spaced_place(
    left: Seq<char>,
    size: nat,
    right: Seq<char>,
    pattern: Seq<char>,
    index: int,
)
    requires
        is_solid(pattern),
        size > 0,
        occurs_at(spaced(left, size, right), pattern, index),
    ensures
        index + pattern.len() <= left.len() || index >= left.len() + size,
        index + pattern.len() <= left.len() ==> occurs_at(left, pattern, index),
        index >= left.len() + size ==> occurs_at(right, pattern, index - left.len() - size),
{
    let text = spaced(left, size, right);
    let length = pattern.len() as int;
    let found = text.subrange(index, index + length);
    if index < left.len() && index + length > left.len() {
        let gap = left.len() as int;
        assert(text[gap] == ' ');
        assert(found[gap - index] == text[gap]);
        assert(!is_space(pattern[gap - index]));
    } else if left.len() <= index < left.len() + size {
        assert(text[index] == ' ');
        assert(found[0] == text[index]);
        assert(!is_space(pattern[0]));
    }
    if index + length <= left.len() {
        assert(left.subrange(index, index + length) =~= found);
    } else {
        let place = index - left.len() - size;
        assert(right.subrange(place, place + length) =~= found);
    }
}

proof fn lemma_spaced_from_left(
    left: Seq<char>,
    size: nat,
    right: Seq<char>,
    pattern: Seq<char>,
    index: int,
)
    requires
        occurs_at(left, pattern, index),
    ensures
        occurs_at(spaced(left, size, right), pattern, index),
{
    let text = spaced(left, size, right);
    let length = pattern.len() as int;
    assert(text.subrange(index, index + length) =~= left.subrange(index, index + length));
}

proof fn lemma_spaced_from_right(
    left: Seq<char>,
    size: nat,
    right: Seq<char>,
    pattern: Seq<char>,
    index: int,
)
    requires
        occurs_at(right, pattern, index),
    ensures
        occurs_at(spaced(left, size, right), pattern, left.len() + size + index),
{
    let text = spaced(left, size, right);
    let length = pattern.len() as int;
    let start = left.len() + size + index;
    assert(text.subrange(start, start + length) =~= right.subrange(index, index + length));
}

proof fn lemma_spaced_occurs(left: Seq<char>, size: nat, right: Seq<char>, pattern: Seq<char>)
    requires
        is_solid(pattern),
        size > 0,
    ensures
        occurs(spaced(left, size, right), pattern) <==> occurs(left, pattern) || occurs(
            right,
            pattern,
        ),
{
    let text = spaced(left, size, right);
    if occurs(text, pattern) {
        let index = choose|index: int| occurs_at(text, pattern, index);
        lemma_spaced_place(left, size, right, pattern, index);
    }
    if occurs(left, pattern) {
        let index = choose|index: int| occurs_at(left, pattern, index);
        lemma_spaced_from_left(left, size, right, pattern, index);
    }
    if occurs(right, pattern) {
        let index = choose|index: int| occurs_at(right, pattern, index);
        lemma_spaced_from_right(left, size, right, pattern, index);
    }
}

proof fn lemma_spaced_alone(left: Seq<char>, size: nat, right: Seq<char>, pattern: Seq<char>)
    requires
        is_solid(pattern),
        size > 0,
    ensures
        stands_alone(spaced(left, size, right), pattern) <==> (stands_alone(left, pattern)
            && is_blank(right)) || (is_blank(left) && stands_alone(right, pattern)),
{
    let text = spaced(left, size, right);
    let length = pattern.len() as int;
    let gap = left.len() + size;
    if stands_alone(text, pattern) {
        let index = choose|index: int| stands_alone_at(text, pattern, index);
        lemma_spaced_place(left, size, right, pattern, index);
        if index + length <= left.len() {
            assert forall|i: int| 0 <= i < left.len() && (i < index || i >= index + length)
                implies is_space(#[trigger] left[i]) by {
                assert(text[i] == left[i]);
            }
            assert(stands_alone_at(left, pattern, index));
            assert forall|i: int| 0 <= i < right.len() implies is_space(#[trigger] right[i]) by {
                assert(text[gap + i] == right[i]);
            }
        } else {
            let place = index - gap;
            assert forall|i: int| 0 <= i < right.len() && (i < place || i >= place + length)
                implies is_space(#[trigger] right[i]) by {
                assert(text[gap + i] == right[i]);
            }
            assert(stands_alone_at(right, pattern, place));
            assert forall|i: int| 0 <= i < left.len() implies is_space(#[trigger] left[i]) by {
                assert(text[i] == left[i]);
            }
        }
    }
    if stands_alone(left, pattern) && is_blank(right) {
        let index = choose|index: int| stands_alone_at(left, pattern, index);
        lemma_spaced_from_left(left, size, right, pattern, index);
        assert forall|i: int| 0 <= i < text.len() && (i < index || i >= index + length)
            implies is_space(#[trigger] text[i]) by {
            if i < left.len() {
                assert(text[i] == left[i]);
            } else if i >= gap {
                assert(text[i] == right[i - gap]);
            }
        }
        assert(stands_alone_at(text, pattern, index));
    }
    if is_blank(left) && stands_alone(right, pattern) {
        let index = choose|index: int| stands_alone_at(right, pattern, index);
        let start = gap + index;
        lemma_spaced_from_right(left, size, right, pattern, index);
        assert forall|i: int| 0 <= i < text.len() && (i < start || i >= start + length)
            implies is_space(#[trigger] text[i]) by {
            if i < left.len() {
                assert(text[i] == left[i]);
            } else if i >= gap {
                assert(text[i] == right[i - gap]);
            }
        }
        assert(stands_alone_at(text, pattern, start));
    }
}

/// A line with a text between double quotes.
pub open spec fn quoting(before: Seq<char>, content: Seq<char>, after: Seq<char>) -> Seq<char> {
    before + seq!['"'] + content + seq!['"'] + after
}

/// Whether a text neither begins quoted text nor a comment.
pub open spec fn is_unquoted(text: Seq<char>) -> bool {
    !text.contains('"') && !text.contains('\'') && !text.contains('#')
}

/// Whether a text can stand between double quotes without ending them.
pub open spec fn is_quotable(text: Seq<char>) -> bool {
    !text.contains('"') && !text.contains('\\')
}

proof fn lemma_modes_before(before: Seq<char>, content: Seq<char>, after: Seq<char>, size: nat)
    requires
        is_unquoted(before),
        size <= before.len(),
    ensures
        mode_at(quoting(before, content, after), size) is Plain,
        visible(quoting(before, content, after), size) == before.take(size as int),
    decreases size,
{
    if size > 0 {
        lemma_modes_before(before, content, after, (size - 1) as nat);
        let line = quoting(before, content, after);
        assert(line[size - 1] == before[size - 1]);
        assert(before.contains(before[size - 1]));
        assert(before.take(size - 1).push(before[size - 1]) =~= before.take(size as int));
    } else {
        assert(before.take(0) =~= Seq::<char>::empty());
    }
}

proof fn lemma_modes_within(before: Seq<char>, content: Seq<char>, after: Seq<char>, size: nat)
    requires
        is_unquoted(before),
        is_quotable(content),
        size <= content.len(),
    ensures
        mode_at(quoting(before, content, after), before.len() + 1 + size) is Double,
        visible(quoting(before, content, after), before.len() + 1 + size) == before + spaces(
            1 + size,
        ),
    decreases size,
{
    let line = quoting(before, content, after);
    let start = before.len();
    if size > 0 {
        lemma_modes_within(before, content, after, (size - 1) as nat);
        assert(line[(start + size) as int] == content[size - 1]);
        assert(content.contains(content[size - 1]));
        assert((before + spaces(size)).push(' ') =~= before + spaces(1 + size));
    } else {
        lemma_modes_before(before, content, after, start);
        assert(line[start as int] == '"');
        assert(before.take(start as int) =~= before);
        assert(before.push(' ') =~= before + spaces(1));
    }
}

proof fn lemma_modes_behind(before: Seq<char>, content: Seq<char>, after: Seq<char>, size: nat)
    requires
        is_unquoted(before),
        is_quotable(content),
        size <= after.len(),
    ensures
        ({
            let line = quoting(before, content, after);
            let gap = content.len() + 2;
            &&& mode_at(line, before.len() + gap + size) == mode_at(after, size)
            &&& visible(line, before.len() + gap + size) == spaced(
                before,
                gap,
                visible(after, size),
            )
        }),
    decreases size,
{
    let line = quoting(before, content, after);
    let gap = content.len() + 2;
    let start = before.len() + gap;
    if size > 0 {
        lemma_modes_behind(before, content, after, (size - 1) as nat);
        assert(line[start + size - 1] == after[size - 1]);
        assert(character_at(line, start + size as int) == character_at(after, size as int));
        let shown = visible(after, (size - 1) as nat);
        assert(spaced(before, gap, shown).push(after[size - 1]) =~= spaced(
            before,
            gap,
            shown.push(after[size - 1]),
        ));
        assert(spaced(before, gap, shown).push(' ') =~= spaced(before, gap, shown.push(' ')));
    } else {
        lemma_modes_within(before, content, after, content.len());
        assert(line[start - 1] == '"');
        assert((before + spaces((gap - 1) as nat)).push(' ') =~= spaced(
            before,
            gap,
            Seq::<char>::empty(),
        ));
    }
}

proof fn lemma_quoted_tab(before: Seq<char>, content: Seq<char>, after: Seq<char>)
    requires
        is_unquoted(before),
        is_quotable(content),
    ensures
        has_tab(quoting(before, content, after)) <==> before.contains('\t') || has_tab(after),
{
    let line = quoting(before, content, after);
    let start = before.len() + content.len() + 2;
    if has_tab(line) {
        let i = choose|i: int|
            0 <= i < line.len() && #[trigger] line[i] == '\t' && mode_at(line, i as nat) is Plain;
        if i < before.len() {
            assert(before[i] == '\t');
        } else if before.len() < i < start {
            lemma_modes_within(before, content, after, (i - before.len() - 1) as nat);
        } else if i >= start {
            lemma_modes_behind(before, content, after, (i - start) as nat);
            assert(after[i - start] == '\t');
        }
    }
    if before.contains('\t') {
        let i = choose|i: int| 0 <= i < before.len() && before[i] == '\t';
        lemma_modes_before(before, content, after, i as nat);
        assert(line[i] == '\t');
    }
    if has_tab(after) {
        let i = choose|i: int|
            0 <= i < after.len() && #[trigger] after[i] == '\t' && mode_at(after, i as nat) is Plain;
        lemma_modes_behind(before, content, after, i as nat);
        assert(line[start + i] == '\t');
    }
}

/// What is refused in a line with quoted text, from what stands around it alone.
pub open spec fn surrounding_fault(before: Seq<char>, after: Seq<char>) -> Option<Seq<char>> {
    let shown = visible(after, after.len());
    if before.contains('\t') || has_tab(after) {
        Some("tabs are not allowed"@)
    } else if is_unterminated(after) {
        Some("unterminated quoted scalar"@)
    } else if stands_beside(before, shown, "---"@) || stands_beside(before, shown, "..."@) {
        Some("document stream markers are not allowed"@)
    } else if occurs(before, "<<:"@) || occurs(shown, "<<:"@) {
        Some("mapping merge keys are not allowed"@)
    } else if before.contains('!') || shown.contains('!') || before.contains('&')
        || shown.contains('&') || before.contains('*') || shown.contains('*') {
        Some("tags, anchors, and aliases are not allowed"@)
    } else {
        None
    }
}

/// Whether a pattern stands alone in one of two texts, and the other is blank.
pub open spec fn stands_beside(left: Seq<char>, right: Seq<char>, pattern: Seq<char>) -> bool {
    (stands_alone(left, pattern) && is_blank(right)) || (is_blank(left) && stands_alone(
        right,
        pattern,
    ))
}

/// What a line shows that holds spaces between two texts decides by the texts alone.
proof fn lemma_spaced_signs(left: Seq<char>, size: nat, right: Seq<char>)
    requires
        size > 0,
    ensures
        ({
            let shown = trimmed(spaced(left, size, right));
            &&& shown.contains('!') <==> left.contains('!') || right.contains('!')
            &&& shown.contains('&') <==> left.contains('&') || right.contains('&')
            &&& shown.contains('*') <==> left.contains('*') || right.contains('*')
        }),
{
    let all = spaced(left, size, right);
    lemma_trimmed_contains(all, '!');
    lemma_spaced_contains(left, size, right, '!');
    lemma_trimmed_contains(all, '&');
    lemma_spaced_contains(left, size, right, '&');
    lemma_trimmed_contains(all, '*');
    lemma_spaced_contains(left, size, right, '*');
}

proof fn lemma_solid_patterns()
    ensures
        is_solid("---"@),
        is_solid("..."@),
        is_solid("<<:"@),
{
    reveal_strlit("---");
    reveal_strlit("...");
    reveal_strlit("<<:");
}

proof fn lemma_spaced_patterns(left: Seq<char>, size: nat, right: Seq<char>)
    requires
        size > 0,
    ensures
        ({
            let shown = trimmed(spaced(left, size, right));
            &&& shown == "---"@ <==> stands_beside(left, right, "---"@)
            &&& shown == "..."@ <==> stands_beside(left, right, "..."@)
            &&& occurs(shown, "<<:"@) <==> occurs(left, "<<:"@) || occurs(right, "<<:"@)
        }),
{
    let all = spaced(left, size, right);
    lemma_solid_patterns();
    lemma_trimmed_alone(all, "---"@);
    lemma_spaced_alone(left, size, right, "---"@);
    lemma_trimmed_alone(all, "..."@);
    lemma_spaced_alone(left, size, right, "..."@);
    lemma_trimmed_occurs(all, "<<:"@);
    lemma_spaced_occurs(left, size, right, "<<:"@);
}

proof fn lemma_quoted_line(before: Seq<char>, content: Seq<char>, after: Seq<char>)
    requires
        is_unquoted(before),
        is_quotable(content),
    ensures
        line_fault(quoting(before, content, after)) == surrounding_fault(before, after),
{
    let line = quoting(before, content, after);
    let gap = content.len() + 2;
    let shown = visible(after, after.len());
    lemma_modes_behind(before, content, after, after.len());
    assert(line.len() == before.len() + gap + after.len());
    assert(visible(line, line.len()) == spaced(before, gap, shown));
    lemma_quoted_tab(before, content, after);
    lemma_spaced_patterns(before, gap, shown);
    lemma_spaced_signs(before, gap, shown);
}

proof fn lemma_single_line(line: Seq<char>)
    requires
        line.len() > 0,
        !line.contains('\n'),
    ensures
        lines_of(line) == seq![line],
{
    lemma_position(line, '\n');
    if position(line, '\n') < line.len() {
        assert(line.contains(line[position(line, '\n') as int]));
    }
}

/// What stands between double quotes never decides: two lines that differ in nothing else are
/// accepted alike, and refused for the same reason.
pub proof fn quoted_text_never_decides(
    before: Seq<char>,
    left: Seq<char>,
    right: Seq<char>,
    after: Seq<char>,
)
    requires
        is_unquoted(before),
        is_quotable(left),
        is_quotable(right),
        !before.contains('\n') && !left.contains('\n') && !right.contains('\n')
            && !after.contains('\n'),
    ensures
        yaml_fault(quoting(before, left, after)) == yaml_fault(quoting(before, right, after)),
{
    lemma_quoted_line(before, left, after);
    lemma_quoted_line(before, right, after);
    lemma_quoted_text(before, left, after);
    lemma_quoted_text(before, right, after);
}

proof fn lemma_quoted_text(before: Seq<char>, content: Seq<char>, after: Seq<char>)
    requires
        !before.contains('\n') && !content.contains('\n') && !after.contains('\n'),
    ensures
        yaml_fault(quoting(before, content, after)) == match line_fault(
            quoting(before, content, after),
        ) {
            Some(message) => Some(message + " at line "@ + decimal(1)),
            None => None,
        },
{
    let line = quoting(before, content, after);
    if line.contains('\n') {
        let i = choose|i: int| 0 <= i < line.len() && line[i] == '\n';
        let start = before.len() + 1;
        if i < before.len() {
            assert(before[i] == '\n');
        } else if start <= i < start + content.len() {
            assert(content[i - start] == '\n');
        } else if i > start + content.len() {
            assert(after[i - start - content.len() - 1] == '\n');
        }
    }
    lemma_single_line(line);
    let probe = fault_at(lines_of(line));
    reveal_with_fuel(first_of, 2);
    assert(lines_of(line)[0] == line);
    assert(first_of(1, probe) == probe(0));
}

} // verus!
