//! What decides whether a configuration is plain enough to be read: its unquoted text, line by line.

use crate::search::{lemma_first_of_none, lemma_first_of_some};
use crate::text::{decimal, lines_of, occurs, trimmed};
use crate::yaml::{
    character_at, fault_at, has_tab, is_unterminated, line_fault, mode_after, mode_at, visible,
    yaml_fault, Mode,
};
use vstd::prelude::*;

verus! {

/// Whether a text has neither quotes nor a number sign.
pub open spec fn is_bare(text: Seq<char>) -> bool {
    forall|i: int|
        0 <= i < text.len() ==> #[trigger] text[i] != '"' && text[i] != '\'' && text[i] != '#'
}

/// A text is refused for the first line that is refused, with the number of that line, counted from
/// one, and accepted where no line is.
pub proof fn the_first_refused_line_is_told(text: Seq<char>, index: int)
    requires
        0 <= index < lines_of(text).len(),
    ensures
        line_fault(lines_of(text)[index]) is Some && (forall|i: int|
            0 <= i < index ==> line_fault(#[trigger] lines_of(text)[i]) is None) ==> yaml_fault(text)
            == Some(
            line_fault(lines_of(text)[index])->Some_0 + " at line "@ + decimal((index + 1) as nat),
        ),
        yaml_fault(text) is None ==> line_fault(lines_of(text)[index]) is None,
        (forall|i: int|
            0 <= i < lines_of(text).len() ==> line_fault(#[trigger] lines_of(text)[i]) is None)
            ==> yaml_fault(text) is None,
{
    let lines = lines_of(text);
    let probe = fault_at(lines);
    lemma_first_of_none(lines.len(), probe);
    if line_fault(lines[index]) is Some {
        assert(probe(index) is Some);
    }
    if line_fault(lines[index]) is Some && (forall|i: int|
        0 <= i < index ==> line_fault(#[trigger] lines[i]) is None) {
        let hit = lemma_first_of_some(lines.len(), probe);
        lemma_first_of_none(hit as nat, probe);
        if hit > index {
            assert(probe(index) is None);
        }
        if hit < index {
            assert(line_fault(lines[hit]) is None);
        }
    }
    if forall|i: int| 0 <= i < lines.len() ==> line_fault(#[trigger] lines[i]) is None {
        assert forall|i: int| 0 <= i < lines.len() implies (#[trigger] probe(i)) is None by {
            assert(line_fault(lines[i]) is None);
        }
    }
}

proof fn lemma_bare_modes(line: Seq<char>, size: nat, index: nat)
    requires
        index <= size <= line.len(),
        is_bare(line.take(size as int)),
    ensures
        mode_at(line, index) is Plain,
    decreases index,
{
    if index > 0 {
        lemma_bare_modes(line, size, (index - 1) as nat);
        assert(line.take(size as int)[index - 1] == line[index - 1]);
    }
}

proof fn lemma_bare_visible(line: Seq<char>, size: nat, index: nat)
    requires
        index <= size <= line.len(),
        is_bare(line.take(size as int)),
    ensures
        visible(line, index) == line.take(index as int),
    decreases index,
{
    if index == 0 {
        assert(line.take(0) =~= Seq::<char>::empty());
    } else {
        lemma_bare_visible(line, size, (index - 1) as nat);
        lemma_bare_modes(line, size, (index - 1) as nat);
        assert(line.take(size as int)[index - 1] == line[index - 1]);
        assert(line.take(index - 1).push(line[index - 1]) =~= line.take(index as int));
    }
}

/// What a line without quotes or comments is refused for: tabs, then the markers of a document, then
/// merge keys, then the signs of tags, anchors and aliases.
pub proof fn bare_lines_are_judged_by_their_text(line: Seq<char>)
    requires
        is_bare(line),
    ensures
        line_fault(line) == if line.contains('\t') {
            Some("tabs are not allowed"@)
        } else if trimmed(line) == "---"@ || trimmed(line) == "..."@ {
            Some("document stream markers are not allowed"@)
        } else if occurs(trimmed(line), "<<:"@) {
            Some("mapping merge keys are not allowed"@)
        } else if trimmed(line).contains('!') || trimmed(line).contains('&') || trimmed(
            line,
        ).contains('*') {
            Some("tags, anchors, and aliases are not allowed"@)
        } else {
            None
        },
{
    assert(line.take(line.len() as int) =~= line);
    lemma_bare_visible(line, line.len(), line.len());
    lemma_bare_modes(line, line.len(), line.len());
    if line.contains('\t') {
        let i = choose|i: int| 0 <= i < line.len() && line[i] == '\t';
        lemma_bare_modes(line, line.len(), i as nat);
        assert(has_tab(line));
    }
    if has_tab(line) {
        let i = choose|i: int|
            0 <= i < line.len() && #[trigger] line[i] == '\t' && mode_at(line, i as nat) is Plain;
        assert(line.contains(line[i]));
    }
}

proof fn lemma_same_start(left: Seq<char>, right: Seq<char>, size: nat, index: nat)
    requires
        index <= size,
        size < left.len(),
        size < right.len(),
        left.take(size as int) == right.take(size as int),
        is_bare(left.take(size as int)),
    ensures
        mode_at(left, index) is Plain,
        mode_at(right, index) is Plain,
        visible(left, index) == visible(right, index),
{
    lemma_bare_modes(left, size, index);
    lemma_bare_modes(right, size, index);
    lemma_bare_visible(left, size, index);
    lemma_bare_visible(right, size, index);
    assert(left.take(index as int) =~= left.take(size as int).take(index as int));
    assert(right.take(index as int) =~= right.take(size as int).take(index as int));
}

proof fn lemma_comment(line: Seq<char>, start: nat, index: nat)
    requires
        start < line.len(),
        is_bare(line.take(start as int)),
        line[start as int] == '#',
        start < index <= line.len(),
    ensures
        mode_at(line, index) is Comment,
        visible(line, index) == line.take(start as int),
    decreases index,
{
    if index == start + 1 {
        lemma_bare_modes(line, start, start);
        lemma_bare_visible(line, start, start);
    } else {
        lemma_comment(line, start, (index - 1) as nat);
    }
}

proof fn lemma_alike(left: Seq<char>, right: Seq<char>)
    requires
        visible(left, left.len()) == visible(right, right.len()),
        has_tab(left) == has_tab(right),
        is_unterminated(left) == is_unterminated(right),
    ensures
        line_fault(left) == line_fault(right),
{
}

proof fn lemma_comment_tabs(line: Seq<char>, before: Seq<char>)
    requires
        before.len() < line.len(),
        is_bare(before),
        line.take(before.len() as int) == before,
        line[before.len() as int] == '#',
    ensures
        has_tab(line) == has_tab(before),
{
    let size = before.len();
    assert(before.take(size as int) =~= before);
    if has_tab(line) {
        let i = choose|i: int|
            0 <= i < line.len() && #[trigger] line[i] == '\t' && mode_at(line, i as nat) is Plain;
        if i > size {
            lemma_comment(line, size, i as nat);
        }
        assert(line.take(size as int)[i] == line[i]);
        lemma_bare_modes(before, size, i as nat);
        assert(before[i] == '\t');
    }
    if has_tab(before) {
        let i = choose|i: int|
            0 <= i < before.len() && #[trigger] before[i] == '\t' && mode_at(before, i as nat) is Plain;
        lemma_bare_modes(line, size, i as nat);
        assert(line.take(size as int)[i] == line[i]);
        assert(line[i] == '\t');
    }
}

/// What stands behind a number sign never decides: a line with a comment is judged as without it.
pub proof fn comments_never_decide(before: Seq<char>, comment: Seq<char>)
    requires
        is_bare(before),
    ensures
        line_fault(before + "#"@ + comment) == line_fault(before),
{
    reveal_strlit("#");
    let line = before + "#"@ + comment;
    let size = before.len();
    assert(line.take(size as int) =~= before);
    assert(before.take(size as int) =~= before);
    lemma_comment(line, size, line.len());
    lemma_bare_modes(before, size, size);
    lemma_bare_visible(before, size, size);
    lemma_comment_tabs(line, before);
    lemma_alike(line, before);
}

/// Whether a text can stand between double quotes: a quote or a backslash in it follows a backslash.
pub open spec fn fits_double(text: Seq<char>) -> bool
    decreases text.len(),
{
    if text.len() == 0 {
        true
    } else if text[0] == '\\' {
        text.len() > 1 && fits_double(text.skip(2))
    } else {
        text[0] != '"' && fits_double(text.skip(1))
    }
}

/// Whether a text can stand between single quotes: a quote in it is written twice.
pub open spec fn fits_single(text: Seq<char>) -> bool
    decreases text.len(),
{
    if text.len() == 0 {
        true
    } else if text[0] == '\'' {
        text.len() > 1 && text[1] == '\'' && fits_single(text.skip(2))
    } else {
        fits_single(text.skip(1))
    }
}

spec fn is_within(mode: Mode) -> bool {
    mode is Double || mode is Escaped || mode is Single || mode is Repeated
}

proof fn lemma_double_modes(line: Seq<char>, start: nat, content: Seq<char>)
    requires
        start + content.len() <= line.len(),
        line.subrange(start as int, (start + content.len()) as int) == content,
        mode_at(line, start) is Double,
        fits_double(content),
    ensures
        mode_at(line, (start + content.len()) as nat) is Double,
        forall|i: int|
            start <= i <= start + content.len() ==> is_within(#[trigger] mode_at(line, i as nat)),
    decreases content.len(),
{
    if content.len() > 0 {
        let piece = line.subrange(start as int, (start + content.len()) as int);
        assert(piece[0] == line[start as int]);
        let taken: nat = if content[0] == '\\' {
            2
        } else {
            1
        };
        let rest = content.skip(taken as int);
        assert(line.subrange((start + taken) as int, (start + content.len()) as int) =~= rest);
        assert(mode_at(line, start + 1) == mode_after(
            mode_at(line, start),
            line[start as int],
            character_at(line, (start + 1) as int),
        ));
        if taken == 2 {
            assert(mode_at(line, start + 2) == mode_after(
                mode_at(line, start + 1),
                line[(start + 1) as int],
                character_at(line, (start + 2) as int),
            ));
        }
        lemma_double_modes(line, start + taken, rest);
        assert forall|i: int| start <= i <= start + content.len() implies is_within(
            #[trigger] mode_at(line, i as nat),
        ) by {
            if i < start + taken {
                assert(i == start || i == start + 1);
            }
        }
    }
}

proof fn lemma_single_modes(line: Seq<char>, start: nat, content: Seq<char>)
    requires
        start + content.len() <= line.len(),
        line.subrange(start as int, (start + content.len()) as int) == content,
        mode_at(line, start) is Single,
        fits_single(content),
    ensures
        mode_at(line, (start + content.len()) as nat) is Single,
        forall|i: int|
            start <= i <= start + content.len() ==> is_within(#[trigger] mode_at(line, i as nat)),
    decreases content.len(),
{
    if content.len() > 0 {
        let piece = line.subrange(start as int, (start + content.len()) as int);
        assert(piece[0] == line[start as int]);
        let taken: nat = if content[0] == '\'' {
            2
        } else {
            1
        };
        let rest = content.skip(taken as int);
        assert(line.subrange((start + taken) as int, (start + content.len()) as int) =~= rest);
        assert(mode_at(line, start + 1) == mode_after(
            mode_at(line, start),
            line[start as int],
            character_at(line, (start + 1) as int),
        ));
        if taken == 2 {
            assert(piece[1] == line[(start + 1) as int]);
            assert(mode_at(line, start + 2) == mode_after(
                mode_at(line, start + 1),
                line[(start + 1) as int],
                character_at(line, (start + 2) as int),
            ));
        }
        lemma_single_modes(line, start + taken, rest);
        assert forall|i: int| start <= i <= start + content.len() implies is_within(
            #[trigger] mode_at(line, i as nat),
        ) by {
            if i < start + taken {
                assert(i == start || i == start + 1);
            }
        }
    }
}

proof fn lemma_same_end(left: Seq<char>, right: Seq<char>, start: nat, index: nat)
    requires
        left.len() == right.len(),
        start <= index <= left.len(),
        forall|i: int| start <= i < left.len() ==> left[i] == #[trigger] right[i],
        mode_at(left, start) == mode_at(right, start),
        visible(left, start) == visible(right, start),
    ensures
        mode_at(left, index) == mode_at(right, index),
        visible(left, index) == visible(right, index),
    decreases index,
{
    if start < index {
        lemma_same_end(left, right, start, (index - 1) as nat);
        assert(left[index - 1] == right[index - 1]);
        if index < left.len() {
            assert(left[index as int] == right[index as int]);
        }
    }
}

proof fn lemma_spaces(left: Seq<char>, right: Seq<char>, start: nat, index: nat, end: nat)
    requires
        left.len() == right.len(),
        start < index <= end <= left.len(),
        mode_at(left, start) is Plain,
        left[start as int] == '"' || left[start as int] == '\'',
        forall|i: int| start < i < end ==> is_within(#[trigger] mode_at(left, i as nat)),
        mode_at(right, start) is Plain,
        forall|i: int| start <= i < end ==> #[trigger] right[i] == ' ',
        visible(left, start) == visible(right, start),
    ensures
        mode_at(right, index) is Plain,
        visible(left, index) == visible(right, index),
    decreases index,
{
    assert(right[index - 1] == ' ');
    if index > start + 1 {
        lemma_spaces(left, right, start, (index - 1) as nat, end);
        assert(is_within(mode_at(left, (index - 1) as nat)));
    }
}

proof fn lemma_covered_tabs(left: Seq<char>, right: Seq<char>, start: nat, close: nat)
    requires
        left.len() == right.len(),
        start < close < left.len(),
        left.take(start as int) == right.take(start as int),
        is_bare(left.take(start as int)),
        left[start as int] != '\t',
        forall|i: int| start < i < close + 1 ==> is_within(#[trigger] mode_at(left, i as nat)),
        forall|i: int| start <= i < close + 1 ==> #[trigger] right[i] == ' ',
        forall|i: int| close + 1 <= i < left.len() ==> left[i] == #[trigger] right[i],
        mode_at(left, close + 1) == mode_at(right, close + 1),
        visible(left, close + 1) == visible(right, close + 1),
    ensures
        has_tab(left) == has_tab(right),
{
    if has_tab(left) {
        let i = choose|i: int|
            0 <= i < left.len() && #[trigger] left[i] == '\t' && mode_at(left, i as nat) is Plain;
        if i < start {
            lemma_same_start(left, right, start, i as nat);
            assert(left.take(start as int)[i] == left[i]);
            assert(right.take(start as int)[i] == right[i]);
        } else if i > close {
            lemma_same_end(left, right, close + 1, i as nat);
            assert(left[i] == right[i]);
        } else {
            assert(i == start || is_within(mode_at(left, i as nat)));
        }
        assert(right[i] == '\t' && mode_at(right, i as nat) is Plain);
    }
    if has_tab(right) {
        let i = choose|i: int|
            0 <= i < right.len() && #[trigger] right[i] == '\t' && mode_at(right, i as nat) is Plain;
        if i < start {
            lemma_same_start(left, right, start, i as nat);
            assert(left.take(start as int)[i] == left[i]);
            assert(right.take(start as int)[i] == right[i]);
        } else {
            assert(i > close);
            lemma_same_end(left, right, close + 1, i as nat);
            assert(left[i] == right[i]);
        }
        assert(left[i] == '\t' && mode_at(left, i as nat) is Plain);
    }
}

proof fn lemma_covered(
    before: Seq<char>,
    content: Seq<char>,
    after: Seq<char>,
    quote: char,
)
    requires
        is_bare(before),
        quote == '"' && fits_double(content) || (quote == '\'' && fits_single(content)
            && !(after.len() > 0 && after[0] == '\'')),
    ensures
        line_fault(before + seq![quote] + content + seq![quote] + after) == line_fault(
            before + Seq::new(content.len() + 2, |i: int| ' ') + after,
        ),
{
    let left = before + seq![quote] + content + seq![quote] + after;
    let right = before + Seq::new(content.len() + 2, |i: int| ' ') + after;
    let start = before.len();
    let close = (start + content.len() + 1) as nat;
    assert(left.len() == right.len());
    assert(left.take(start as int) =~= before);
    assert(right.take(start as int) =~= before);
    lemma_same_start(left, right, start, start);
    assert(left[start as int] == quote && left[close as int] == quote);
    assert(left.subrange((start + 1) as int, close as int) =~= content);
    assert(mode_at(left, start + 1) == mode_after(
        mode_at(left, start),
        left[start as int],
        character_at(left, (start + 1) as int),
    ));
    if quote == '"' {
        lemma_double_modes(left, start + 1, content);
    } else {
        lemma_single_modes(left, start + 1, content);
        if after.len() > 0 {
            assert(left[(close + 1) as int] == after[0]);
        }
    }
    assert(mode_at(left, close + 1) == mode_after(
        mode_at(left, close),
        left[close as int],
        character_at(left, (close + 1) as int),
    ));
    assert(mode_at(left, close + 1) is Plain);
    assert forall|i: int| start < i < close + 1 implies is_within(
        #[trigger] mode_at(left, i as nat),
    ) by {}
    assert forall|i: int| start <= i < close + 1 implies #[trigger] right[i] == ' ' by {}
    lemma_spaces(left, right, start, close + 1, close + 1);
    assert forall|i: int| close + 1 <= i < left.len() implies left[i] == #[trigger] right[i] by {}
    lemma_same_end(left, right, close + 1, left.len());
    lemma_covered_tabs(left, right, start, close);
    lemma_alike(left, right);
}

/// Quoted text never decides: it counts as white space, whatever it holds, and with its quotes. In
/// double quotes a backslash takes the next character along, in single quotes a quote is written
/// twice.
pub proof fn quoted_text_counts_as_space(before: Seq<char>, content: Seq<char>, after: Seq<char>)
    requires
        is_bare(before),
    ensures
        fits_double(content) ==> line_fault(before + "\""@ + content + "\""@ + after) == line_fault(
            before + Seq::new(content.len() + 2, |i: int| ' ') + after,
        ),
        fits_single(content) && !(after.len() > 0 && after[0] == '\'') ==> line_fault(
            before + "'"@ + content + "'"@ + after,
        ) == line_fault(before + Seq::new(content.len() + 2, |i: int| ' ') + after),
{
    reveal_strlit("\"");
    reveal_strlit("'");
    assert("\""@ =~= seq!['"']);
    assert("'"@ =~= seq!['\'']);
    if fits_double(content) {
        lemma_covered(before, content, after, '"');
    }
    if fits_single(content) && !(after.len() > 0 && after[0] == '\'') {
        lemma_covered(before, content, after, '\'');
    }
}

/// A quote that is opened and not closed on its line is refused, unless a tab stands before it.
pub proof fn open_quotes_are_refused(before: Seq<char>, content: Seq<char>, quote: char)
    requires
        is_bare(before),
        quote == '"' && fits_double(content) || (quote == '\'' && fits_single(content)),
    ensures
        line_fault(before + seq![quote] + content) == Some(
            if before.contains('\t') {
                "tabs are not allowed"@
            } else {
                "unterminated quoted scalar"@
            },
        ),
{
    let line = before + seq![quote] + content;
    let start = before.len();
    assert(line.take(start as int) =~= before);
    lemma_bare_modes(line, start, start);
    assert(line[start as int] == quote);
    assert(line.subrange((start + 1) as int, line.len() as int) =~= content);
    assert(mode_at(line, start + 1) == mode_after(
        mode_at(line, start),
        line[start as int],
        character_at(line, (start + 1) as int),
    ));
    if quote == '"' {
        lemma_double_modes(line, start + 1, content);
    } else {
        lemma_single_modes(line, start + 1, content);
    }
    if before.contains('\t') {
        let i = choose|i: int| 0 <= i < before.len() && before[i] == '\t';
        lemma_bare_modes(line, start, i as nat);
        assert(line[i] == '\t');
        assert(has_tab(line));
    }
    if has_tab(line) {
        let i = choose|i: int|
            0 <= i < line.len() && #[trigger] line[i] == '\t' && mode_at(line, i as nat) is Plain;
        if i > start {
            assert(is_within(mode_at(line, i as nat)));
        }
        assert(before[i] == '\t');
        assert(before.contains('\t'));
    }
}

} // verus!
