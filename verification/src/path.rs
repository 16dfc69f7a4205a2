//! File system paths: components, containment, order and names.

use crate::order::{
    by_code, dictionary, lemma_by_code, lemma_dictionary_ranks, lemma_prefix_first,
    lemma_ranks_order, orders, ranks, text_before, text_precedes,
};
use crate::text::{
    characters, find_char, lemma_position, optional, position, same_text, to_text,
};
use vstd::prelude::*;
use vstd::slice::slice_subrange;

verus! {

/// One component of a path.
#[derive(Debug)]
pub enum Component {
    RootDir,
    CurDir,
    ParentDir,
    Normal(String),
}

/// One component of a path, as a value.
pub enum Part {
    Root,
    Current,
    Parent,
    Name(Seq<char>),
}

impl View for Component {
    type V = Part;

    open spec fn view(&self) -> Part {
        match self {
            Component::RootDir => Part::Root,
            Component::CurDir => Part::Current,
            Component::ParentDir => Part::Parent,
            Component::Normal(name) => Part::Name(name@),
        }
    }
}

pub open spec fn component_views(list: Seq<Component>) -> Seq<Part> {
    list.map_values(|item: Component| item@)
}

/// What stands between the slashes of a path.
pub open spec fn segments(path: Seq<char>) -> Seq<Seq<char>>
    decreases path.len(),
{
    let end = position(path, '/');
    if end >= path.len() {
        seq![path]
    } else {
        seq![path.take(end as int)] + segments(path.skip((end + 1) as int))
    }
}

/// The components that segments stand for: nothing for an empty one or a single dot.
pub open spec fn named(segments: Seq<Seq<char>>) -> Seq<Part>
    decreases segments.len(),
{
    if segments.len() == 0 {
        Seq::empty()
    } else {
        let rest = named(segments.drop_last());
        let last = segments.last();
        if last.len() == 0 || last == seq!['.'] {
            rest
        } else if last == seq!['.', '.'] {
            rest.push(Part::Parent)
        } else {
            rest.push(Part::Name(last))
        }
    }
}

pub open spec fn is_absolute(path: Seq<char>) -> bool {
    path.len() > 0 && path[0] == '/'
}

/// What a path begins with before its names: the root, or a leading dot.
pub open spec fn lead(path: Seq<char>) -> Seq<Part> {
    if is_absolute(path) {
        seq![Part::Root]
    } else if segments(path)[0] == seq!['.'] {
        seq![Part::Current]
    } else {
        Seq::empty()
    }
}

/// The components of a path. Repeated slashes, trailing slashes and inner dots do not count.
pub open spec fn parts(path: Seq<char>) -> Seq<Part> {
    lead(path) + named(segments(path))
}

/// Whether two paths have the same components.
pub open spec fn path_equal(left: Seq<char>, right: Seq<char>) -> bool {
    parts(left) == parts(right)
}

/// Whether `path` is `directory` or lies below it.
pub open spec fn path_under(path: Seq<char>, directory: Seq<char>) -> bool {
    parts(directory).is_prefix_of(parts(path))
}

/// Whether one of two paths contains the other.
pub open spec fn overlapping(first: Seq<char>, second: Seq<char>) -> bool {
    path_under(first, second) || path_under(second, first)
}

/// What stands before the first slash of a path is its first segment.
pub proof fn lemma_first_segment(segment: Seq<char>, rest: Seq<char>)
    requires
        !segment.contains('/'),
    ensures
        segments(segment + seq!['/'] + rest) == seq![segment] + segments(rest),
{
    let path = segment + seq!['/'] + rest;
    let end = segment.len() as int;
    lemma_position(path, '/');
    assert(path[end] == '/');
    assert forall|i: int| 0 <= i < end implies #[trigger] path[i] != '/' by {
        assert(path[i] == segment[i]);
        assert(segment.contains(segment[i]));
    }
    assert(position(path, '/') == end);
    assert(path.take(end) =~= segment);
    assert(path.skip(end + 1) =~= rest);
}

/// A path without a slash is its only segment.
pub proof fn lemma_only_segment(segment: Seq<char>)
    requires
        !segment.contains('/'),
    ensures
        segments(segment) == seq![segment],
{
    lemma_position(segment, '/');
    if position(segment, '/') < segment.len() {
        assert(segment.contains(segment[position(segment, '/') as int]));
    }
}

pub proof fn lemma_named_push(segments: Seq<Seq<char>>, segment: Seq<char>)
    ensures
        named(segments.push(segment)) == if segment.len() == 0 || segment == seq!['.'] {
            named(segments)
        } else if segment == seq!['.', '.'] {
            named(segments).push(Part::Parent)
        } else {
            named(segments).push(Part::Name(segment))
        },
{
    assert(segments.push(segment).drop_last() == segments);
}

fn is_dot(segment: &[char]) -> (result: bool)
    ensures
        result == (segment@ == seq!['.']),
{
    let answer = segment.len() == 1 && segment[0] == '.';
    assert(answer ==> segment@ =~= seq!['.']);
    answer
}

fn is_dot_dot(segment: &[char]) -> (result: bool)
    ensures
        result == (segment@ == seq!['.', '.']),
{
    let answer = segment.len() == 2 && segment[0] == '.' && segment[1] == '.';
    assert(answer ==> segment@ =~= seq!['.', '.']);
    answer
}

/// The components of a path.
pub fn components(path: &str) -> (result: Vec<Component>)
    ensures
        component_views(result@) == parts(path@),
{
    let chars = characters(path);
    let text: &[char] = chars.as_slice();
    let mut result: Vec<Component> = Vec::new();
    if text.len() > 0 && text[0] == '/' {
        result.push(Component::RootDir);
    } else {
        let end = find_char(text, 0, '/');
        proof {
            assert(text@.skip(0) == text@);
            assert(text@.take(text@.len() as int) == text@);
        }
        let first = slice_subrange(text, 0, end);
        assert(first@ == segments(text@)[0]);
        if is_dot(first) {
            result.push(Component::CurDir);
        }
    }
    assert(component_views(result@) == lead(text@));
    let mut start: usize = 0;
    let mut finished = false;
    let ghost mut done: Seq<Seq<char>> = Seq::empty();
    assert(text@.skip(0) == text@);
    assert(done + segments(text@) == segments(text@));
    assert(component_views(result@) == lead(text@) + named(done));
    while !finished
        invariant
            start <= text@.len(),
            component_views(result@) == lead(text@) + named(done),
            !finished ==> done + segments(text@.skip(start as int)) == segments(text@),
            finished ==> done == segments(text@),
        decreases (if finished { 0int } else { text@.len() - start + 1 }),
    {
        let end = find_char(text, start, '/');
        let ghost rest = text@.skip(start as int);
        let segment = slice_subrange(text, start, end);
        assert(segment@ == rest.take(end - start));
        let ghost before = result@;
        if segment.len() == 0 || is_dot(segment) {
        } else if is_dot_dot(segment) {
            result.push(Component::ParentDir);
            assert(component_views(result@) == component_views(before).push(Part::Parent));
        } else {
            result.push(Component::Normal(to_text(segment)));
            assert(component_views(result@) == component_views(before).push(
                Part::Name(segment@),
            ));
        }
        proof {
            lemma_named_push(done, segment@);
            assert(component_views(result@) == lead(text@) + named(done.push(segment@)));
            if end == text@.len() {
                assert(rest.take(end - start) == rest);
                assert(done.push(segment@) == done + segments(rest));
            } else {
                assert(rest.skip(end - start + 1) == text@.skip(end + 1));
                assert(done.push(segment@) + segments(text@.skip(end + 1)) == done + segments(rest));
            }
            done = done.push(segment@);
        }
        if end == text.len() {
            finished = true;
        } else {
            start = end + 1;
        }
    }
    result
}

fn same_component(left: &Component, right: &Component) -> (result: bool)
    ensures
        result == (left@ == right@),
{
    match (left, right) {
        (Component::RootDir, Component::RootDir) => true,
        (Component::CurDir, Component::CurDir) => true,
        (Component::ParentDir, Component::ParentDir) => true,
        (Component::Normal(first), Component::Normal(second)) => same_text(
            first.as_str(),
            second.as_str(),
        ),
        _ => false,
    }
}

fn has_prefix(whole: &Vec<Component>, prefix: &Vec<Component>) -> (result: bool)
    ensures
        result == component_views(prefix@).is_prefix_of(component_views(whole@)),
{
    if prefix.len() > whole.len() {
        return false;
    }
    let mut index: usize = 0;
    while index < prefix.len()
        invariant
            index <= prefix@.len() <= whole@.len(),
            forall|i: int| 0 <= i < index ==> #[trigger] prefix@[i]@ == whole@[i]@,
        decreases prefix.len() - index,
    {
        if !same_component(&prefix[index], &whole[index]) {
            assert(component_views(prefix@)[index as int] != component_views(whole@)[index as int]);
            assert(component_views(whole@).subrange(0, prefix@.len() as int)[index as int]
                == component_views(whole@)[index as int]);
            return false;
        }
        index += 1;
    }
    assert(component_views(prefix@) == component_views(whole@).subrange(0, prefix@.len() as int));
    true
}

/// Whether two paths have the same components.
pub fn same_path(left: &str, right: &str) -> (result: bool)
    ensures
        result == path_equal(left@, right@),
{
    let left = components(left);
    let right = components(right);
    let answer = left.len() == right.len() && has_prefix(&left, &right);
    assert(answer ==> component_views(left@).subrange(0, left@.len() as int) == component_views(
        left@,
    ));
    assert(component_views(left@) == component_views(right@) ==> component_views(left@).subrange(
        0,
        left@.len() as int,
    ) == component_views(left@));
    answer
}

/// Whether `path` is `directory` or lies below it.
pub fn path_starts_with(path: &str, directory: &str) -> (result: bool)
    ensures
        result == path_under(path@, directory@),
{
    let whole = components(path);
    let prefix = components(directory);
    has_prefix(&whole, &prefix)
}

/// Whether one of two paths contains the other.
pub fn paths_overlap(first: &str, second: &str) -> (result: bool)
    ensures
        result == overlapping(first@, second@),
{
    path_starts_with(first, second) || path_starts_with(second, first)
}

/// How many of the components are names.
pub open spec fn names(parts: Seq<Part>) -> nat
    decreases parts.len(),
{
    if parts.len() == 0 {
        0
    } else {
        names(parts.drop_last()) + if parts.last() is Name {
            1nat
        } else {
            0nat
        }
    }
}

/// How many components of a path are names, not the root or dots.
pub fn normal_component_count(path: &str) -> (result: usize)
    ensures
        result == names(parts(path@)),
{
    let list = components(path);
    let mut count: usize = 0;
    let mut index: usize = 0;
    let ghost all = component_views(list@);
    assert(all.take(0) == Seq::<Part>::empty());
    while index < list.len()
        invariant
            index <= list@.len(),
            count <= index,
            all == component_views(list@),
            count == names(all.take(index as int)),
        decreases list.len() - index,
    {
        assert(all.take(index + 1).drop_last() == all.take(index as int));
        assert(all.take(index + 1).last() == list@[index as int]@);
        match &list[index] {
            Component::Normal(_) => {
                count += 1;
            },
            _ => {},
        }
        index += 1;
    }
    assert(all.take(all.len() as int) == all);
    count
}

proof fn lemma_position_is(text: Seq<char>, character: char, index: int)
    requires
        0 <= index < text.len(),
        text[index] == character,
        forall|i: int| 0 <= i < index ==> #[trigger] text[i] != character,
    ensures
        position(text, character) == index,
{
    lemma_position(text, character);
}

pub proof fn lemma_segments_below(directory: Seq<char>, name: Seq<char>)
    requires
        !name.contains('/'),
    ensures
        segments(directory + seq!['/'] + name) == segments(directory).push(name),
    decreases directory.len(),
{
    let whole = directory + seq!['/'] + name;
    lemma_position(directory, '/');
    lemma_position(name, '/');
    let end = position(directory, '/');
    if end < directory.len() {
        lemma_position_is(whole, '/', end as int);
        let rest = directory.skip((end + 1) as int);
        lemma_segments_below(rest, name);
        assert(whole.skip((end + 1) as int) =~= rest + seq!['/'] + name);
        assert(whole.take(end as int) =~= directory.take(end as int));
        assert(segments(whole) =~= segments(directory).push(name));
    } else {
        lemma_position_is(whole, '/', directory.len() as int);
        assert(whole.take(directory.len() as int) =~= directory);
        assert(whole.skip((directory.len() + 1) as int) =~= name);
        if position(name, '/') < name.len() {
            assert(name.contains(name[position(name, '/') as int]));
        }
        assert(segments(name) == seq![name]);
        assert(segments(whole) =~= segments(directory).push(name));
    }
}

/// A name below a directory is the last component of its path.
pub proof fn lemma_last_part(directory: Seq<char>, name: Seq<char>)
    requires
        !name.contains('/'),
        name.len() > 2,
    ensures
        parts(directory + seq!['/'] + name).len() > 0,
        parts(directory + seq!['/'] + name).last() == Part::Name(name),
{
    lemma_segments_below(directory, name);
    lemma_named_push(segments(directory), name);
}

/// The position of the last dot of a name.
pub open spec fn last_dot(name: Seq<char>) -> Option<int>
    decreases name.len(),
{
    if name.len() == 0 {
        None
    } else if name.last() == '.' {
        Some(name.len() - 1)
    } else {
        last_dot(name.drop_last())
    }
}

/// The extension of a name: what stands behind its last dot, unless the dot comes first.
pub open spec fn name_extension(name: Seq<char>) -> Option<Seq<char>> {
    match last_dot(name) {
        Some(index) => if index > 0 {
            Some(name.skip(index + 1))
        } else {
            None
        },
        None => None,
    }
}

/// The extension of the name that a path ends with.
pub open spec fn extension_of(path: Seq<char>) -> Option<Seq<char>> {
    if parts(path).len() > 0 {
        match parts(path).last() {
            Part::Name(name) => name_extension(name),
            _ => None,
        }
    } else {
        None
    }
}

/// The extension of the name that a path ends with.
pub fn extension(path: &str) -> (result: Option<String>)
    ensures
        optional(result) == extension_of(path@),
{
    let list = components(path);
    if list.len() == 0 {
        return None;
    }
    assert(component_views(list@).last() == list@.last()@);
    match &list[list.len() - 1] {
        Component::Normal(name) => {
            let chars = characters(name.as_str());
            let mut end: usize = chars.len();
            assert(chars@.take(end as int) == chars@);
            while end > 0
                invariant
                    end <= chars@.len(),
                    last_dot(chars@) == last_dot(chars@.take(end as int)),
                    name@ == chars@,
                    extension_of(path@) == name_extension(name@),
                decreases end,
            {
                if chars[end - 1] == '.' {
                    if end == 1 {
                        return None;
                    }
                    return Some(to_text(slice_subrange(chars.as_slice(), end, chars.len())));
                }
                assert(chars@.take(end as int).drop_last() == chars@.take(end - 1));
                end -= 1;
            }
            None
        },
        _ => None,
    }
}

pub open spec fn part_rank(part: Part) -> int {
    match part {
        Part::Root => 0,
        Part::Current => 1,
        Part::Parent => 2,
        Part::Name(_) => 3,
    }
}

/// The strict order of components: the root, dots, then names by their text.
pub open spec fn by_part() -> spec_fn(Part, Part) -> bool {
    |left: Part, right: Part|
        match (left, right) {
            (Part::Name(first), Part::Name(second)) => text_before(first, second),
            _ => part_rank(left) < part_rank(right),
        }
}

proof fn lemma_by_part()
    ensures
        ranks(by_part()),
{
    lemma_by_code();
    lemma_dictionary_ranks(by_code());
    let texts = |left: Seq<char>, right: Seq<char>| dictionary(left, right, by_code());
    let order = by_part();
    assert forall|a: Part, b: Part| #[trigger] order(a, b) implies !order(b, a) by {
        if let (Part::Name(first), Part::Name(second)) = (a, b) {
            assert(texts(first, second));
        }
    }
    assert forall|a: Part, b: Part| a != b implies (#[trigger] order(a, b)) || order(b, a) by {
        if let (Part::Name(first), Part::Name(second)) = (a, b) {
            assert(texts(first, second) || texts(second, first));
        }
    }
    assert forall|a: Part, b: Part, c: Part| #[trigger]
        order(a, b) && #[trigger] order(b, c) implies order(a, c) by {
        if let (Part::Name(first), Part::Name(second)) = (a, b) {
            if let Part::Name(third) = c {
                assert(texts(first, second) && texts(second, third));
            }
        }
    }
}

/// Whether a path comes before another in the order of components.
pub open spec fn path_before(left: Seq<char>, right: Seq<char>) -> bool {
    dictionary(parts(left), parts(right), by_part())
}

/// The order of paths as a function.
pub open spec fn by_path() -> spec_fn(Seq<char>, Seq<char>) -> bool {
    |left: Seq<char>, right: Seq<char>| path_before(left, right)
}

pub proof fn lemma_by_path()
    ensures
        orders(by_path()),
{
    lemma_by_part();
    lemma_dictionary_ranks(by_part());
    let order = |left: Seq<Part>, right: Seq<Part>| dictionary(left, right, by_part());
    lemma_ranks_order(order);
    assert forall|a: Seq<char>, b: Seq<char>| #[trigger] by_path()(a, b) implies !by_path()(b, a) by {
        assert(order(parts(a), parts(b)));
    }
    assert forall|a: Seq<char>, b: Seq<char>, c: Seq<char>|
        !(#[trigger] by_path()(a, b)) && !(#[trigger] by_path()(b, c)) implies !by_path()(a, c) by {
        assert(!order(parts(a), parts(b)) && !order(parts(b), parts(c)));
        assert(!order(parts(a), parts(c)));
    }
}

/// What lies strictly below a directory comes after it.
pub proof fn lemma_container_first(directory: Seq<char>, path: Seq<char>)
    requires
        path_under(path, directory),
        !path_equal(path, directory),
    ensures
        path_before(directory, path),
{
    let whole = parts(path);
    let prefix = parts(directory);
    if prefix.len() == whole.len() {
        assert(whole.subrange(0, whole.len() as int) == whole);
    }
    assert(whole.take(prefix.len() as int) == prefix);
    lemma_prefix_first(prefix, whole, by_part());
}

fn component_precedes(left: &Component, right: &Component) -> (result: bool)
    ensures
        result == by_part()(left@, right@),
{
    match (left, right) {
        (Component::Normal(first), Component::Normal(second)) => {
            let first = characters(first.as_str());
            let second = characters(second.as_str());
            text_precedes(first.as_slice(), second.as_slice())
        },
        _ => component_rank(left) < component_rank(right),
    }
}

fn component_rank(component: &Component) -> (result: u8)
    ensures
        result == part_rank(component@),
{
    match component {
        Component::RootDir => 0,
        Component::CurDir => 1,
        Component::ParentDir => 2,
        Component::Normal(_) => 3,
    }
}

/// Whether a path comes before another in the order of components.
pub fn path_precedes(left: &str, right: &str) -> (result: bool)
    ensures
        result == path_before(left@, right@),
{
    let first = components(left);
    let second = components(right);
    let ghost a = component_views(first@);
    let ghost b = component_views(second@);
    let mut index: usize = 0;
    assert(a.skip(0) == a && b.skip(0) == b);
    while index < first.len() && index < second.len() && same_component(
        &first[index],
        &second[index],
    )
        invariant
            index <= first@.len(),
            index <= second@.len(),
            a == component_views(first@),
            b == component_views(second@),
            dictionary(a, b, by_part()) == dictionary(
                a.skip(index as int),
                b.skip(index as int),
                by_part(),
            ),
        decreases first.len() - index,
    {
        assert(a.skip(index as int).skip(1) == a.skip(index + 1));
        assert(b.skip(index as int).skip(1) == b.skip(index + 1));
        index += 1;
    }
    if index == second.len() {
        return false;
    }
    if index == first.len() {
        return true;
    }
    component_precedes(&first[index], &second[index])
}

} // verus!
