//! Character sequences: the operations on text that the other modules are stated with.

use vstd::prelude::*;
use vstd::slice::slice_subrange;

verus! {

/// `String::push` of the standard library appends the character to the end of the string.
pub assume_specification[ String::push ](text: &mut String, character: char)
    ensures
        final(text)@ == old(text)@.push(character),
;

/// What a list of character slices holds.
pub open spec fn slices(list: Seq<&[char]>) -> Seq<Seq<char>> {
    list.map_values(|item: &[char]| item@)
}

/// What a list of strings holds.
pub open spec fn strings(list: Seq<String>) -> Seq<Seq<char>> {
    list.map_values(|item: String| item@)
}

/// What an optional string holds.
pub open spec fn optional(text: Option<String>) -> Option<Seq<char>> {
    match text {
        Some(value) => Some(value@),
        None => None,
    }
}

/// The characters of a string, for random access.
pub fn characters(text: &str) -> (result: Vec<char>)
    ensures
        result@ == text@,
{
    let mut result: Vec<char> = Vec::new();
    for character in iter: text.chars()
        invariant
            result@ == iter.seq().take(iter.index()),
            iter.seq() == text@,
    {
        result.push(character);
    }
    result
}

/// The string that holds these characters.
pub fn to_text(chars: &[char]) -> (result: String)
    ensures
        result@ == chars@,
{
    let mut result = String::new();
    let mut index: usize = 0;
    while index < chars.len()
        invariant
            index <= chars.len(),
            result@ == chars@.take(index as int),
        decreases chars.len() - index,
    {
        result.push(chars[index]);
        index += 1;
    }
    assert(chars@.take(chars@.len() as int) == chars@);
    result
}

/// Whether two character slices hold the same text.
pub fn same(left: &[char], right: &[char]) -> (result: bool)
    ensures
        result == (left@ == right@),
{
    if left.len() != right.len() {
        return false;
    }
    let mut index: usize = 0;
    while index < left.len()
        invariant
            index <= left.len(),
            left.len() == right.len(),
            left@.take(index as int) == right@.take(index as int),
        decreases left.len() - index,
    {
        if left[index] != right[index] {
            return false;
        }
        assert(left@.take(index + 1) == left@.take(index as int).push(left@[index as int]));
        assert(right@.take(index + 1) == right@.take(index as int).push(right@[index as int]));
        index += 1;
    }
    assert(left@.take(left@.len() as int) == left@);
    assert(right@.take(right@.len() as int) == right@);
    true
}

/// Whether two strings hold the same text.
pub fn same_text(left: &str, right: &str) -> (result: bool)
    ensures
        result == (left@ == right@),
{
    let left = characters(left);
    let right = characters(right);
    same(left.as_slice(), right.as_slice())
}

/// Whether a character slice holds the text of a string.
pub fn reads(chars: &[char], text: &str) -> (result: bool)
    ensures
        result == (chars@ == text@),
{
    let text = characters(text);
    same(chars, text.as_slice())
}

pub fn text2(first: &str, second: &str) -> (result: String)
    ensures
        result@ == first@ + second@,
{
    let mut result = String::new();
    result.append(first);
    result.append(second);
    result
}

pub fn text3(first: &str, second: &str, third: &str) -> (result: String)
    ensures
        result@ == first@ + second@ + third@,
{
    let mut result = text2(first, second);
    result.append(third);
    result
}

pub fn text4(first: &str, second: &str, third: &str, fourth: &str) -> (result: String)
    ensures
        result@ == first@ + second@ + third@ + fourth@,
{
    let mut result = text3(first, second, third);
    result.append(fourth);
    result
}

pub fn text5(first: &str, second: &str, third: &str, fourth: &str, fifth: &str) -> (result: String)
    ensures
        result@ == first@ + second@ + third@ + fourth@ + fifth@,
{
    let mut result = text4(first, second, third, fourth);
    result.append(fifth);
    result
}

/// The characters with the Unicode property White_Space.
pub open spec fn is_space(character: char) -> bool {
    let code = character as u32;
    ||| 0x9 <= code <= 0xD
    ||| code == 0x20
    ||| code == 0x85
    ||| code == 0xA0
    ||| code == 0x1680
    ||| 0x2000 <= code <= 0x200A
    ||| code == 0x2028
    ||| code == 0x2029
    ||| code == 0x202F
    ||| code == 0x205F
    ||| code == 0x3000
}

pub fn is_whitespace(character: char) -> (result: bool)
    ensures
        result == is_space(character),
{
    let code: u32 = character as u32;
    (0x9 <= code && code <= 0xD) || code == 0x20 || code == 0x85 || code == 0xA0 || code == 0x1680
        || (0x2000 <= code && code <= 0x200A) || code == 0x2028 || code == 0x2029 || code == 0x202F
        || code == 0x205F || code == 0x3000
}

/// How many characters of whitespace the text begins with.
pub open spec fn leading_space(text: Seq<char>) -> nat
    decreases text.len(),
{
    if text.len() > 0 && is_space(text[0]) {
        1 + leading_space(text.skip(1))
    } else {
        0
    }
}

/// How many characters of whitespace the text ends with.
pub open spec fn trailing_space(text: Seq<char>) -> nat
    decreases text.len(),
{
    if text.len() > 0 && is_space(text.last()) {
        1 + trailing_space(text.drop_last())
    } else {
        0
    }
}

/// How many characters other than whitespace the text begins with.
pub open spec fn leading_word(text: Seq<char>) -> nat
    decreases text.len(),
{
    if text.len() > 0 && !is_space(text[0]) {
        1 + leading_word(text.skip(1))
    } else {
        0
    }
}

pub open spec fn trimmed_start(text: Seq<char>) -> Seq<char> {
    text.skip(leading_space(text) as int)
}

pub open spec fn trimmed_end(text: Seq<char>) -> Seq<char> {
    text.take(text.len() - trailing_space(text))
}

/// The text without the whitespace around it.
pub open spec fn trimmed(text: Seq<char>) -> Seq<char> {
    trimmed_end(trimmed_start(text))
}

pub proof fn lemma_leading_space(text: Seq<char>)
    ensures
        leading_space(text) <= text.len(),
        forall|i: int| 0 <= i < leading_space(text) ==> is_space(#[trigger] text[i]),
        leading_space(text) < text.len() ==> !is_space(text[leading_space(text) as int]),
    decreases text.len(),
{
    if text.len() > 0 && is_space(text[0]) {
        lemma_leading_space(text.skip(1));
        assert forall|i: int| 0 <= i < leading_space(text) implies is_space(#[trigger] text[i]) by {
            if i > 0 {
                assert(text.skip(1)[i - 1] == text[i]);
            }
        }
    }
}

pub proof fn lemma_trailing_space(text: Seq<char>)
    ensures
        trailing_space(text) <= text.len(),
        forall|i: int|
            text.len() - trailing_space(text) <= i < text.len() ==> is_space(#[trigger] text[i]),
        trailing_space(text) < text.len() ==> !is_space(
            text[text.len() - trailing_space(text) - 1],
        ),
    decreases text.len(),
{
    if text.len() > 0 && is_space(text.last()) {
        lemma_trailing_space(text.drop_last());
        assert forall|i: int| text.len() - trailing_space(text) <= i < text.len() implies is_space(
            #[trigger] text[i],
        ) by {
            if i < text.len() - 1 {
                assert(text.drop_last()[i] == text[i]);
            }
        }
    }
}

/// Where the text without the whitespace around it stands.
pub proof fn lemma_trimmed_range(text: Seq<char>) -> (range: (int, int))
    ensures
        0 <= range.0 <= range.1 <= text.len(),
        trimmed(text) == text.subrange(range.0, range.1),
        forall|i: int| 0 <= i < range.0 ==> is_space(#[trigger] text[i]),
        forall|i: int| range.1 <= i < text.len() ==> is_space(#[trigger] text[i]),
        range.0 < range.1 ==> !is_space(text[range.0]) && !is_space(text[range.1 - 1]),
{
    let start = trimmed_start(text);
    lemma_leading_space(text);
    lemma_trailing_space(start);
    let first = leading_space(text) as int;
    let size = start.len() - trailing_space(start);
    assert(trimmed(text) =~= text.subrange(first, first + size));
    assert forall|i: int| first + size <= i < text.len() implies is_space(#[trigger] text[i]) by {
        assert(start[i - first] == text[i]);
    }
    if size > 0 {
        assert(start[0] == text[first]);
        assert(start[size - 1] == text[first + size - 1]);
    }
    (first, first + size)
}

/// Whitespace at the end does not count.
pub proof fn lemma_trimmed_push(text: Seq<char>, character: char)
    requires
        is_space(character),
    ensures
        trimmed(text.push(character)) == trimmed(text),
{
    let longer = text.push(character);
    let short = lemma_trimmed_range(text);
    let long = lemma_trimmed_range(longer);
    if short.0 < short.1 {
        assert(longer[short.0] == text[short.0] && longer[short.1 - 1] == text[short.1 - 1]);
        assert(long.0 <= short.0 && short.1 <= long.1);
        assert(longer[long.0] == text[long.0]);
        assert(long.1 <= text.len());
        assert(longer[long.1 - 1] == text[long.1 - 1]);
        assert(trimmed(longer) =~= trimmed(text));
    } else {
        if long.0 < long.1 {
            assert(long.0 < text.len());
            assert(longer[long.0] == text[long.0]);
        }
        assert(trimmed(longer) =~= trimmed(text));
    }
}

pub proof fn lemma_leading_word(text: Seq<char>)
    ensures
        leading_word(text) <= text.len(),
        forall|i: int| 0 <= i < leading_word(text) ==> !is_space(#[trigger] text[i]),
        leading_word(text) < text.len() ==> is_space(text[leading_word(text) as int]),
    decreases text.len(),
{
    if text.len() > 0 && !is_space(text[0]) {
        lemma_leading_word(text.skip(1));
        assert forall|i: int| 0 <= i < leading_word(text) implies !is_space(#[trigger] text[i]) by {
            if i > 0 {
                assert(text.skip(1)[i - 1] == text[i]);
            }
        }
    }
}

/// `str::trim_start` on characters.
pub fn trim_start(text: &[char]) -> (result: &[char])
    ensures
        result@ == trimmed_start(text@),
{
    let mut index: usize = 0;
    proof {
        lemma_leading_space(text@);
        assert(text@.skip(0) == text@);
    }
    while index < text.len() && is_whitespace(text[index])
        invariant
            index <= text.len(),
            leading_space(text@) == index + leading_space(text@.skip(index as int)),
        decreases text.len() - index,
    {
        assert(text@.skip(index as int).skip(1) == text@.skip(index + 1));
        index += 1;
    }
    slice_subrange(text, index, text.len())
}

/// `str::trim_end` on characters.
pub fn trim_end(text: &[char]) -> (result: &[char])
    ensures
        result@ == trimmed_end(text@),
{
    let mut end: usize = text.len();
    proof {
        lemma_trailing_space(text@);
        assert(text@.take(end as int) == text@);
    }
    while end > 0 && is_whitespace(text[end - 1])
        invariant
            end <= text.len(),
            trailing_space(text@) == text.len() - end + trailing_space(text@.take(end as int)),
        decreases end,
    {
        assert(text@.take(end as int).drop_last() == text@.take(end - 1));
        end -= 1;
    }
    slice_subrange(text, 0, end)
}

/// `str::trim` on characters.
pub fn trim(text: &[char]) -> (result: &[char])
    ensures
        result@ == trimmed(text@),
{
    trim_end(trim_start(text))
}

/// The string without the whitespace around it.
pub fn trim_text(text: &str) -> (result: String)
    ensures
        result@ == trimmed(text@),
{
    let chars = characters(text);
    to_text(trim(chars.as_slice()))
}

/// The position of the first occurrence of a character, or the length where there is none.
pub open spec fn position(text: Seq<char>, character: char) -> nat
    decreases text.len(),
{
    if text.len() == 0 || text[0] == character {
        0
    } else {
        1 + position(text.skip(1), character)
    }
}

pub proof fn lemma_position(text: Seq<char>, character: char)
    ensures
        position(text, character) <= text.len(),
        forall|i: int| 0 <= i < position(text, character) ==> #[trigger] text[i] != character,
        position(text, character) < text.len() ==> text[position(text, character) as int]
            == character,
    decreases text.len(),
{
    if text.len() > 0 && text[0] != character {
        lemma_position(text.skip(1), character);
        assert forall|i: int| 0 <= i < position(text, character) implies #[trigger] text[i]
            != character by {
            if i > 0 {
                assert(text.skip(1)[i - 1] == text[i]);
            }
        }
    }
}

/// The position of a character at or after `from`, or the length where there is none.
pub fn find_char(text: &[char], from: usize, character: char) -> (result: usize)
    requires
        from <= text@.len(),
    ensures
        from <= result <= text@.len(),
        result == from + position(text@.skip(from as int), character),
{
    let mut index: usize = from;
    proof {
        lemma_position(text@.skip(from as int), character);
    }
    while index < text.len() && text[index] != character
        invariant
            from <= index <= text.len(),
            position(text@.skip(from as int), character) == index - from + position(
                text@.skip(index as int),
                character,
            ),
        decreases text.len() - index,
    {
        assert(text@.skip(index as int).skip(1) == text@.skip(index + 1));
        index += 1;
    }
    index
}

/// A line without the carriage return that stood before its line feed.
pub open spec fn without_return(line: Seq<char>) -> Seq<char> {
    if line.len() > 0 && line.last() == '\r' {
        line.drop_last()
    } else {
        line
    }
}

/// The lines of a text: each ends at a line feed, with or without a carriage return before it;
/// the last may end with the text.
pub open spec fn lines_of(text: Seq<char>) -> Seq<Seq<char>>
    decreases text.len(),
{
    let end = position(text, '\n');
    if text.len() == 0 {
        Seq::empty()
    } else if end >= text.len() {
        seq![text]
    } else {
        seq![without_return(text.take(end as int))] + lines_of(text.skip((end + 1) as int))
    }
}

/// `str::lines` on characters.
pub fn lines(text: &[char]) -> (result: Vec<&[char]>)
    ensures
        slices(result@) == lines_of(text@),
{
    let mut result: Vec<&[char]> = Vec::new();
    let mut start: usize = 0;
    assert(text@.skip(0) == text@);
    assert(slices(result@) == Seq::<Seq<char>>::empty());
    assert(slices(result@) + lines_of(text@) == lines_of(text@));
    while start < text.len()
        invariant
            start <= text.len(),
            slices(result@) + lines_of(text@.skip(start as int)) == lines_of(text@),
        decreases text.len() - start,
    {
        let end = find_char(text, start, '\n');
        let ghost before = result@;
        let ghost rest = text@.skip(start as int);
        if end == text.len() {
            let line = slice_subrange(text, start, end);
            result.push(line);
            assert(line@ == rest);
            assert(slices(result@) == slices(before).push(rest));
            assert(text@.skip(end as int).len() == 0);
            assert(slices(result@) + lines_of(text@.skip(end as int)) == lines_of(text@));
            start = end;
        } else {
            let mut stop: usize = end;
            if stop > start && text[stop - 1] == '\r' {
                stop -= 1;
            }
            let line = slice_subrange(text, start, stop);
            result.push(line);
            assert(rest.take(end - start) == text@.subrange(start as int, end as int));
            assert(line@ == without_return(rest.take(end - start)));
            assert(slices(result@) == slices(before).push(line@));
            assert(rest.skip(end - start + 1) == text@.skip(end + 1));
            assert(slices(result@) + lines_of(text@.skip(end + 1)) == slices(before) + (seq![line@]
                + lines_of(text@.skip(end + 1))));
            start = end + 1;
        }
    }
    assert(text@.skip(start as int).len() == 0);
    assert(slices(result@) + Seq::<Seq<char>>::empty() == slices(result@));
    result
}

/// The words of a text: what stands between its whitespace.
pub open spec fn words_of(text: Seq<char>) -> Seq<Seq<char>>
    decreases text.len(),
    via words_of_decreases
{
    let rest = trimmed_start(text);
    let size = leading_word(rest);
    if rest.len() == 0 {
        Seq::empty()
    } else {
        seq![rest.take(size as int)] + words_of(rest.skip(size as int))
    }
}

#[via_fn]
proof fn words_of_decreases(text: Seq<char>) {
    lemma_leading_space(text);
    lemma_leading_word(trimmed_start(text));
}

/// `str::split_whitespace` on characters.
pub fn words(text: &[char]) -> (result: Vec<&[char]>)
    ensures
        slices(result@) == words_of(text@),
{
    let mut result: Vec<&[char]> = Vec::new();
    let mut rest: &[char] = trim_start(text);
    assert(slices(result@) == Seq::<Seq<char>>::empty());
    proof {
        lemma_leading_space(text@);
        lemma_trim_start_twice(text@);
        assert(words_of(rest@) == words_of(text@));
        assert(slices(result@) + words_of(rest@) == words_of(text@));
    }
    while rest.len() > 0
        invariant
            trimmed_start(rest@) == rest@,
            slices(result@) + words_of(rest@) == words_of(text@),
        decreases rest.len(),
    {
        let ghost before = result@;
        let size = word_length(rest);
        proof {
            lemma_leading_space(rest@);
            lemma_leading_word(rest@);
        }
        let word = slice_subrange(rest, 0, size);
        result.push(word);
        let tail = slice_subrange(rest, size, rest.len());
        let next = trim_start(tail);
        proof {
            lemma_leading_space(tail@);
            lemma_trim_start_twice(tail@);
            assert(word@ == rest@.take(size as int));
            assert(tail@ == rest@.skip(size as int));
            assert(words_of(next@) == words_of(tail@));
            assert(slices(result@) == slices(before).push(word@));
            assert(slices(result@) + words_of(next@) == slices(before) + (seq![word@] + words_of(
                tail@,
            )));
        }
        rest = next;
    }
    assert(slices(result@) + Seq::<Seq<char>>::empty() == slices(result@));
    result
}

proof fn lemma_trim_start_twice(text: Seq<char>)
    ensures
        trimmed_start(trimmed_start(text)) == trimmed_start(text),
{
    lemma_leading_space(text);
    lemma_leading_space(trimmed_start(text));
    let rest = trimmed_start(text);
    if rest.len() > 0 {
        assert(rest[0] == text[leading_space(text) as int]);
    }
    assert(leading_space(rest) == 0);
    assert(rest.skip(0) == rest);
}

fn word_length(text: &[char]) -> (result: usize)
    ensures
        result == leading_word(text@),
        result <= text@.len(),
{
    let mut index: usize = 0;
    proof {
        lemma_leading_word(text@);
        assert(text@.skip(0) == text@);
    }
    while index < text.len() && !is_whitespace(text[index])
        invariant
            index <= text.len(),
            leading_word(text@) == index + leading_word(text@.skip(index as int)),
        decreases text.len() - index,
    {
        assert(text@.skip(index as int).skip(1) == text@.skip(index + 1));
        index += 1;
    }
    index
}

/// Whether `pattern` stands in `text` at `index`.
pub open spec fn occurs_at(text: Seq<char>, pattern: Seq<char>, index: int) -> bool {
    &&& 0 <= index
    &&& index + pattern.len() <= text.len()
    &&& text.subrange(index, index + pattern.len()) == pattern
}

/// Whether `text` begins with `prefix`.
pub open spec fn begins(text: Seq<char>, prefix: Seq<char>) -> bool {
    occurs_at(text, prefix, 0)
}

/// Whether `text` ends with `suffix`.
pub open spec fn ends(text: Seq<char>, suffix: Seq<char>) -> bool {
    occurs_at(text, suffix, text.len() - suffix.len())
}

/// Whether `pattern` stands anywhere in `text`.
pub open spec fn occurs(text: Seq<char>, pattern: Seq<char>) -> bool {
    exists|index: int| occurs_at(text, pattern, index)
}

/// What stands in a text stands in every text around it.
pub proof fn lemma_occurs_within(left: Seq<char>, text: Seq<char>, right: Seq<char>, pattern: Seq<char>)
    requires
        occurs(text, pattern),
    ensures
        occurs(left + text + right, pattern),
{
    let index = choose|index: int| occurs_at(text, pattern, index);
    let whole = left + text + right;
    let place = left.len() + index;
    assert(whole.subrange(place, place + pattern.len()) =~= text.subrange(
        index,
        index + pattern.len(),
    ));
    assert(occurs_at(whole, pattern, place));
}

/// Every text stands in itself.
pub proof fn lemma_occurs_self(text: Seq<char>)
    ensures
        occurs(text, text),
{
    assert(text.subrange(0, text.len() as int) =~= text);
    assert(occurs_at(text, text, 0));
}

fn matches_at(text: &[char], pattern: &[char], index: usize) -> (result: bool)
    requires
        index + pattern@.len() <= text@.len(),
    ensures
        result == occurs_at(text@, pattern@, index as int),
{
    assert(text.len() == text@.len() && pattern.len() == pattern@.len());
    let part = slice_subrange(text, index, index + pattern.len());
    same(part, pattern)
}

/// `str::starts_with` on characters.
pub fn starts_with(text: &[char], prefix: &[char]) -> (result: bool)
    ensures
        result == begins(text@, prefix@),
{
    text.len() >= prefix.len() && matches_at(text, prefix, 0)
}

/// `str::ends_with` on characters.
pub fn ends_with(text: &[char], suffix: &[char]) -> (result: bool)
    ensures
        result == ends(text@, suffix@),
{
    text.len() >= suffix.len() && matches_at(text, suffix, text.len() - suffix.len())
}

/// The first position at or after `from` at which `pattern` stands.
pub open spec fn occurrence(text: Seq<char>, pattern: Seq<char>, from: int) -> Option<int>
    decreases text.len() - from + 1,
{
    if from < 0 || from + pattern.len() > text.len() {
        None
    } else if occurs_at(text, pattern, from) {
        Some(from)
    } else {
        occurrence(text, pattern, from + 1)
    }
}

pub proof fn lemma_occurrence(text: Seq<char>, pattern: Seq<char>, from: int)
    requires
        from >= 0,
    ensures
        match occurrence(text, pattern, from) {
            Some(index) => {
                &&& from <= index
                &&& occurs_at(text, pattern, index)
                &&& forall|i: int| from <= i < index ==> !occurs_at(text, pattern, i)
            },
            None => forall|i: int| from <= i ==> !occurs_at(text, pattern, i),
        },
    decreases text.len() - from + 1,
{
    if from + pattern.len() <= text.len() && !occurs_at(text, pattern, from) {
        lemma_occurrence(text, pattern, from + 1);
    }
}

/// `str::find` on characters, from a given position.
pub fn find(text: &[char], pattern: &[char], from: usize) -> (result: Option<usize>)
    ensures
        match result {
            Some(index) => occurrence(text@, pattern@, from as int) == Some(index as int),
            None => occurrence(text@, pattern@, from as int) is None,
        },
{
    if pattern.len() > text.len() {
        return None;
    }
    let last: usize = text.len() - pattern.len();
    let mut index: usize = from;
    while index <= last
        invariant
            from <= index,
            last == text@.len() - pattern@.len(),
            occurrence(text@, pattern@, from as int) == occurrence(text@, pattern@, index as int),
        decreases last + 1 - index,
    {
        if matches_at(text, pattern, index) {
            return Some(index);
        }
        if index == last {
            return None;
        }
        index += 1;
    }
    None
}

/// `str::contains` on characters.
pub fn contains(text: &[char], pattern: &[char]) -> (result: bool)
    ensures
        result == occurs(text@, pattern@),
{
    proof {
        lemma_occurrence(text@, pattern@, 0);
    }
    find(text, pattern, 0).is_some()
}

/// Whether a character stands in the text.
pub fn contains_char(text: &[char], character: char) -> (result: bool)
    ensures
        result == text@.contains(character),
{
    proof {
        lemma_position(text@, character);
        assert(text@.skip(0) == text@);
        if text@.contains(character) {
            let index = choose|index: int| 0 <= index < text@.len() && text@[index] == character;
            assert(position(text@, character) <= index);
        }
    }
    find_char(text, 0, character) < text.len()
}

/// The text with every occurrence of `pattern` replaced, from left to right.
pub open spec fn replaced(text: Seq<char>, pattern: Seq<char>, replacement: Seq<char>) -> Seq<char>
    decreases text.len(),
    via replaced_decreases
{
    match occurrence(text, pattern, 0) {
        Some(index) => if pattern.len() == 0 {
            text
        } else {
            text.take(index) + replacement + replaced(
                text.skip(index + pattern.len()),
                pattern,
                replacement,
            )
        },
        None => text,
    }
}

#[via_fn]
proof fn replaced_decreases(text: Seq<char>, pattern: Seq<char>, replacement: Seq<char>) {
    lemma_occurrence(text, pattern, 0);
}

/// `str::replace` on characters.
pub fn replace(text: &[char], pattern: &[char], replacement: &[char]) -> (result: Vec<char>)
    requires
        pattern@.len() > 0,
    ensures
        result@ == replaced(text@, pattern@, replacement@),
{
    let mut result: Vec<char> = Vec::new();
    let mut rest: &[char] = text;
    let mut finished = false;
    assert(result@ + replaced(rest@, pattern@, replacement@) == replaced(
        text@,
        pattern@,
        replacement@,
    ));
    while !finished
        invariant
            pattern@.len() > 0,
            !finished ==> result@ + replaced(rest@, pattern@, replacement@) == replaced(
                text@,
                pattern@,
                replacement@,
            ),
            finished ==> result@ == replaced(text@, pattern@, replacement@),
        decreases (if finished { 0nat } else { rest@.len() + 1 }),
    {
        proof {
            lemma_occurrence(rest@, pattern@, 0);
        }
        let ghost before = result@;
        match find(rest, pattern, 0) {
            Some(index) => {
                assert(rest.len() == rest@.len() && pattern.len() == pattern@.len());
                let head = slice_subrange(rest, 0, index);
                append_chars(&mut result, head);
                append_chars(&mut result, replacement);
                let tail = slice_subrange(rest, index + pattern.len(), rest.len());
                proof {
                    assert(head@ == rest@.take(index as int));
                    assert(tail@ == rest@.skip(index + pattern@.len()));
                    assert(result@ + replaced(tail@, pattern@, replacement@) =~= before + replaced(
                        rest@,
                        pattern@,
                        replacement@,
                    ));
                }
                rest = tail;
            },
            None => {
                append_chars(&mut result, rest);
                finished = true;
            },
        }
    }
    result
}

/// Appends the characters of a slice.
pub fn append_chars(result: &mut Vec<char>, more: &[char])
    ensures
        final(result)@ == old(result)@ + more@,
{
    let ghost before = result@;
    let mut index: usize = 0;
    while index < more.len()
        invariant
            index <= more@.len(),
            result@ == before + more@.take(index as int),
        decreases more.len() - index,
    {
        result.push(more[index]);
        assert(result@ =~= before + more@.take(index + 1));
        index += 1;
    }
    assert(more@.take(more@.len() as int) == more@);
}

/// A text parted at the first occurrence of a separator.
pub open spec fn parted(text: Seq<char>, separator: Seq<char>) -> Option<(Seq<char>, Seq<char>)> {
    match occurrence(text, separator, 0) {
        Some(index) => Some((text.take(index), text.skip(index + separator.len()))),
        None => None,
    }
}

/// `str::split_once` on characters.
pub fn split_once<'a>(text: &'a [char], separator: &[char]) -> (result: Option<
    (&'a [char], &'a [char]),
>)
    ensures
        match result {
            Some((before, after)) => parted(text@, separator@) == Some((before@, after@)),
            None => parted(text@, separator@) is None,
        },
{
    proof {
        lemma_occurrence(text@, separator@, 0);
    }
    match find(text, separator, 0) {
        Some(index) => {
            assert(text.len() == text@.len() && separator.len() == separator@.len());
            let before = slice_subrange(text, 0, index);
            let after = slice_subrange(text, index + separator.len(), text.len());
            Some((before, after))
        },
        None => None,
    }
}

pub open spec fn is_digit(character: char) -> bool {
    48 <= character as u32 <= 57
}

pub open spec fn digit(value: nat) -> char {
    (48 + value) as char
}

/// A number in decimal digits, without leading zeros.
pub open spec fn decimal(value: nat) -> Seq<char>
    decreases value,
{
    if value < 10 {
        seq![digit(value)]
    } else {
        decimal(value / 10).push(digit(value % 10))
    }
}

pub fn decimal_text(value: u64) -> (result: String)
    ensures
        result@ == decimal(value as nat),
    decreases value,
{
    let last: u8 = (value % 10) as u8;
    let character: char = (48 + last) as char;
    assert(character == digit((value % 10) as nat));
    if value < 10 {
        let mut result = String::new();
        result.push(character);
        result
    } else {
        let mut result = decimal_text(value / 10);
        result.push(character);
        result
    }
}

/// The number that decimal digits stand for.
pub open spec fn number(digits: Seq<char>) -> nat
    decreases digits.len(),
{
    if digits.len() == 0 {
        0
    } else {
        (number(digits.drop_last()) * 10 + (digits.last() as u32 - 48)) as nat
    }
}

pub open spec fn all_digits(text: Seq<char>) -> bool {
    forall|i: int| 0 <= i < text.len() ==> is_digit(#[trigger] text[i])
}

/// The text without one leading plus sign.
pub open spec fn unsigned(text: Seq<char>) -> Seq<char> {
    if text.len() > 0 && text[0] == '+' {
        text.skip(1)
    } else {
        text
    }
}

/// The 32-bit number that a text states: an optional plus sign and decimal digits.
pub open spec fn parsed_number(text: Seq<char>) -> Option<u32> {
    let digits = unsigned(text);
    if digits.len() > 0 && all_digits(digits) && number(digits) <= u32::MAX {
        Some(number(digits) as u32)
    } else {
        None
    }
}

proof fn lemma_number_grows(digits: Seq<char>, size: int)
    requires
        0 <= size <= digits.len(),
        all_digits(digits),
    ensures
        number(digits.take(size)) <= number(digits),
    decreases digits.len(),
{
    if size < digits.len() {
        lemma_number_grows(digits.drop_last(), size);
        assert(digits.drop_last().take(size) == digits.take(size));
        assert(is_digit(digits[digits.len() - 1]));
    } else {
        assert(digits.take(size) == digits);
    }
}

/// The number that characters state, where they state one.
pub fn parse_number(text: &[char]) -> (result: Option<u32>)
    ensures
        result == parsed_number(text@),
{
    let mut index: usize = 0;
    if text.len() > 0 && text[0] == '+' {
        index = 1;
    }
    let ghost digits = unsigned(text@);
    let start: usize = index;
    if index == text.len() {
        return None;
    }
    let mut value: u64 = 0;
    assert(digits == text@.skip(start as int));
    assert(digits.take(0) == Seq::<char>::empty());
    while index < text.len()
        invariant
            start <= index <= text.len(),
            digits == text@.skip(start as int),
            digits == unsigned(text@),
            forall|i: int| 0 <= i < index - start ==> is_digit(#[trigger] digits[i]),
            value == number(digits.take(index - start)),
            value <= u32::MAX,
        decreases text.len() - index,
    {
        let character: char = text[index];
        let code: u32 = character as u32;
        assert(digits[index - start] == character);
        if code < 48 || code > 57 {
            return None;
        }
        proof {
            assert(digits.take(index - start + 1).drop_last() == digits.take(index - start));
            assert(digits.take(index - start + 1).last() == character);
        }
        value = value * 10 + (code - 48) as u64;
        if value > 0xFFFF_FFFF {
            proof {
                if all_digits(digits) {
                    lemma_number_grows(digits, index - start + 1);
                }
            }
            return None;
        }
        index += 1;
    }
    assert(digits.take(digits.len() as int) == digits);
    Some(value as u32)
}

/// What `std::num::ParseIntError` says of text that states no number of 32 bits.
pub uninterp spec fn number_complaint(text: Seq<char>) -> Seq<char>;

/// `str::parse::<u32>` reads an optional plus sign and decimal digits, where the number fits. Of
/// other text the error says something that depends on the text alone.
#[verifier::external_body]
pub(crate) fn read_number(text: &str) -> (result: Result<u32, String>)
    ensures
        match result {
            Ok(value) => parsed_number(text@) == Some(value),
            Err(complaint) => parsed_number(text@) is None && complaint@ == number_complaint(
                text@,
            ),
        },
{
    match text.parse::<u32>() {
        Ok(value) => Ok(value),
        Err(error) => Err(error.to_string()),
    }
}

} // verus!
