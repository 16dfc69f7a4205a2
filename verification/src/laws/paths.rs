//! Paths: their components, which contains which, their order and their extensions.

use crate::order::{by_code, dictionary, inserted, text_before};
use crate::path::{
    by_part, extension_of, last_dot, lemma_named_push, lemma_only_segment, lemma_segments_below,
    named, names, parts, path_before, path_equal, path_under, segments, Part,
};
use vstd::prelude::*;

verus! {

/// Whether a text can be the name of a file.
pub open spec fn is_name(text: Seq<char>) -> bool {
    !text.contains('/') && text.len() > 0 && text != "."@ && text != ".."@
}

proof fn lemma_below(directory: Seq<char>, segment: Seq<char>)
    requires
        directory.len() > 0,
        !segment.contains('/'),
    ensures
        parts(directory + "/"@ + segment) == parts(directory) + named(seq![segment]),
{
    reveal_strlit("/");
    assert("/"@ =~= seq!['/']);
    let whole = directory + "/"@ + segment;
    lemma_segments_below(directory, segment);
    lemma_named_push(segments(directory), segment);
    lemma_named_push(Seq::empty(), segment);
    assert(Seq::<Seq<char>>::empty().push(segment) =~= seq![segment]);
    assert(whole[0] == directory[0]);
    assert(segments(directory).len() > 0);
    assert(segments(whole)[0] == segments(directory)[0]);
    assert(parts(whole) =~= parts(directory) + named(seq![segment]));
}

proof fn lemma_named_once(segment: Seq<char>)
    ensures
        named(seq![segment]) == if segment.len() == 0 || segment == seq!['.'] {
            Seq::empty()
        } else if segment == seq!['.', '.'] {
            seq![Part::Parent]
        } else {
            seq![Part::Name(segment)]
        },
{
    let none = Seq::<Seq<char>>::empty();
    lemma_named_push(none, segment);
    assert(none.push(segment) =~= seq![segment]);
    assert(named(none) =~= Seq::<Part>::empty());
    assert(named(none).push(Part::Parent) =~= seq![Part::Parent]);
    assert(named(none).push(Part::Name(segment)) =~= seq![Part::Name(segment)]);
}

/// What a path is made of. A name below a directory comes behind its components, a double dot is a
/// component of its own, and a trailing slash or a single dot adds nothing.
pub proof fn components_follow_the_directory(directory: Seq<char>, name: Seq<char>)
    requires
        directory.len() > 0,
        is_name(name),
    ensures
        parts(directory + "/"@ + name) == parts(directory).push(Part::Name(name)),
        parts(directory + "/"@) == parts(directory),
        parts(directory + "/."@) == parts(directory),
        parts(directory + "/.."@) == parts(directory).push(Part::Parent),
{
    reveal_strlit("/");
    reveal_strlit("/.");
    reveal_strlit("/..");
    reveal_strlit(".");
    reveal_strlit("..");
    assert("."@ =~= seq!['.']);
    assert(".."@ =~= seq!['.', '.']);
    let none = Seq::<char>::empty();
    lemma_below(directory, name);
    lemma_below(directory, none);
    lemma_below(directory, "."@);
    lemma_below(directory, ".."@);
    lemma_named_once(name);
    lemma_named_once(none);
    lemma_named_once("."@);
    lemma_named_once(".."@);
    assert(directory + "/"@ + none =~= directory + "/"@);
    assert("/."@ =~= "/"@ + "."@);
    assert("/.."@ =~= "/"@ + ".."@);
    assert(directory + "/"@ + "."@ =~= directory + "/."@);
    assert(directory + "/"@ + ".."@ =~= directory + "/.."@);
    assert(parts(directory) + Seq::<Part>::empty() =~= parts(directory));
    assert(parts(directory) + seq![Part::Parent] =~= parts(directory).push(Part::Parent));
    assert(parts(directory) + seq![Part::Name(name)] =~= parts(directory).push(Part::Name(name)));
}

/// What the shortest paths are made of.
pub proof fn components_begin_somewhere(name: Seq<char>)
    requires
        is_name(name),
    ensures
        parts(name) == seq![Part::Name(name)],
        parts("/"@ + name) == seq![Part::Root, Part::Name(name)],
        parts("/"@) == seq![Part::Root],
        parts("."@) == seq![Part::Current],
        parts(".."@) == seq![Part::Parent],
        parts(""@) == Seq::<Part>::empty(),
{
    reveal_strlit("/");
    reveal_strlit(".");
    reveal_strlit("..");
    reveal_strlit("");
    assert("."@ =~= seq!['.']);
    assert(".."@ =~= seq!['.', '.']);
    assert("/"@ =~= seq!['/']);
    let none = Seq::<char>::empty();
    assert(""@ =~= none);
    lemma_only_segment(name);
    lemma_only_segment("."@);
    lemma_only_segment(".."@);
    lemma_only_segment(none);
    lemma_named_once(name);
    lemma_named_once(none);
    lemma_named_once("."@);
    lemma_named_once(".."@);
    if name[0] == '/' {
        assert(name.contains(name[0]));
    }
    assert(parts(name) =~= seq![Part::Name(name)]);
    assert(parts("."@) =~= seq![Part::Current]);
    assert(parts(".."@) =~= seq![Part::Parent]);
    assert(parts(none) =~= Seq::<Part>::empty());
    lemma_segments_below(none, name);
    lemma_segments_below(none, none);
    lemma_named_push(segments(none), name);
    lemma_named_push(segments(none), none);
    assert(none + seq!['/'] + name =~= "/"@ + name);
    assert(none + seq!['/'] + none =~= "/"@);
    assert(parts("/"@ + name) =~= seq![Part::Root, Part::Name(name)]);
    assert(parts("/"@) =~= seq![Part::Root]);
}

/// A path lies in a directory exactly where it has the components of the directory and perhaps some
/// behind them, and two paths are the same where each lies in the other. A path that only begins with
/// the characters of another lies beside it.
pub proof fn paths_lie_in_their_directories(path: Seq<char>, directory: Seq<char>)
    ensures
        path_under(path, directory) <==> exists|rest: Seq<Part>|
            parts(path) == #[trigger] (parts(directory) + rest),
        path_equal(path, directory) <==> path_under(path, directory) && path_under(directory, path),
{
    let whole = parts(path);
    let prefix = parts(directory);
    if path_under(path, directory) {
        let rest = whole.skip(prefix.len() as int);
        assert(whole =~= prefix + rest);
    }
    if exists|rest: Seq<Part>| whole == #[trigger] (prefix + rest) {
        let rest = choose|rest: Seq<Part>| whole == #[trigger] (prefix + rest);
        assert(whole.subrange(0, prefix.len() as int) =~= prefix);
    }
    if path_equal(path, directory) {
        assert(whole.subrange(0, whole.len() as int) =~= whole);
    }
    if path_under(path, directory) && path_under(directory, path) {
        assert(whole.len() == prefix.len());
        assert(whole.subrange(0, whole.len() as int) =~= whole);
    }
}

/// How many names a path has: each name counts, the root and the dots do not.
pub proof fn names_are_counted(list: Seq<Part>, part: Part)
    ensures
        names(Seq::<Part>::empty()) == 0,
        names(list.push(part)) == names(list) + if part is Name {
            1nat
        } else {
            0nat
        },
{
    assert(list.push(part).drop_last() =~= list);
    assert(list.push(part).last() == part);
}

proof fn lemma_dictionary<T>(
    common: Seq<T>,
    left: Seq<T>,
    right: Seq<T>,
    before: spec_fn(T, T) -> bool,
)
    ensures
        dictionary(common + left, common + right, before) == dictionary(left, right, before),
    decreases common.len(),
{
    if common.len() == 0 {
        assert(common + left =~= left && common + right =~= right);
    } else {
        lemma_dictionary(common.skip(1), left, right, before);
        assert((common + left).skip(1) =~= common.skip(1) + left);
        assert((common + right).skip(1) =~= common.skip(1) + right);
    }
}

/// Texts are ordered by the first character in which they differ, and a text comes before all that go
/// on behind it.
pub proof fn texts_are_ordered_by_the_first_difference(
    common: Seq<char>,
    left: Seq<char>,
    right: Seq<char>,
    first: char,
    second: char,
)
    requires
        first != second,
    ensures
        text_before(common + seq![first] + left, common + seq![second] + right) <==> (first as int)
            < (second as int),
        text_before(common, common + seq![first] + left),
        !text_before(common + left, common),
{
    lemma_dictionary(common, seq![first] + left, seq![second] + right, by_code());
    assert(common + (seq![first] + left) =~= common + seq![first] + left);
    assert(common + (seq![second] + right) =~= common + seq![second] + right);
    let none = Seq::<char>::empty();
    lemma_dictionary(common, none, seq![first] + left, by_code());
    lemma_dictionary(common, left, none, by_code());
    assert(common + none =~= common);
}

/// Paths are ordered by the first component in which they differ: the root before a single dot, that
/// before a double dot, that before every name, and names by their text. A directory comes before all
/// that lies in it.
pub proof fn paths_are_ordered_by_the_first_difference(
    one: Seq<char>,
    other: Seq<char>,
    common: Seq<Part>,
    left: Seq<Part>,
    right: Seq<Part>,
    first: Part,
    second: Part,
)
    requires
        first != second,
        parts(one) == common + seq![first] + left,
        parts(other) == common + seq![second] + right || (parts(other) == common),
    ensures
        parts(other) == common ==> path_before(other, one) && !path_before(one, other),
        parts(other) != common ==> (path_before(one, other) <==> match (first, second) {
            (Part::Root, _) => true,
            (_, Part::Root) => false,
            (Part::Current, _) => true,
            (_, Part::Current) => false,
            (Part::Parent, _) => true,
            (_, Part::Parent) => false,
            (Part::Name(left_name), Part::Name(right_name)) => text_before(left_name, right_name),
        }),
{
    let order = by_part();
    lemma_dictionary(common, seq![first] + left, seq![second] + right, order);
    assert(common + (seq![first] + left) =~= common + seq![first] + left);
    assert(common + (seq![second] + right) =~= common + seq![second] + right);
    let none = Seq::<Part>::empty();
    lemma_dictionary(common, none, seq![first] + left, order);
    lemma_dictionary(common, seq![first] + left, none, order);
    assert(common + none =~= common);
    assert((seq![first] + left)[0] == first && (seq![second] + right)[0] == second);
}

/// A new item goes behind all that it does not come before, and in front of the others.
pub proof fn items_are_inserted_in_their_place<T>(
    list: Seq<T>,
    later: Seq<T>,
    item: T,
    before: spec_fn(T, T) -> bool,
)
    requires
        list.len() > 0 ==> !before(item, list.last()),
        forall|i: int| 0 <= i < later.len() ==> before(item, #[trigger] later[i]),
    ensures
        inserted(list + later, item, before) == list + seq![item] + later,
    decreases later.len(),
{
    if later.len() == 0 {
        assert(list + later =~= list);
        assert(list.push(item) =~= list + seq![item] + later);
    } else {
        let whole = list + later;
        items_are_inserted_in_their_place(list, later.drop_last(), item, before);
        assert(whole.last() == later[later.len() - 1]);
        assert(whole.drop_last() =~= list + later.drop_last());
        assert((list + seq![item] + later.drop_last()).push(later.last()) =~= list + seq![item]
            + later);
    }
}

proof fn lemma_last_dot(stem: Seq<char>, rest: Seq<char>)
    requires
        !rest.contains('.'),
    ensures
        last_dot(stem + seq!['.'] + rest) == Some(stem.len() as int),
    decreases rest.len(),
{
    let whole = stem + seq!['.'] + rest;
    if rest.len() > 0 {
        assert(rest.contains(rest.last()));
        assert(!rest.drop_last().contains('.')) by {
            if rest.drop_last().contains('.') {
                let i = choose|i: int|
                    0 <= i < rest.drop_last().len() && rest.drop_last()[i] == '.';
                assert(rest[i] == '.');
            }
        }
        lemma_last_dot(stem, rest.drop_last());
        assert(whole.last() == rest.last());
        assert(whole.drop_last() =~= stem + seq!['.'] + rest.drop_last());
    } else {
        assert(whole.last() == '.');
    }
}

proof fn lemma_no_dot(name: Seq<char>)
    requires
        !name.contains('.'),
    ensures
        last_dot(name) is None,
    decreases name.len(),
{
    if name.len() > 0 {
        assert(name.contains(name.last()));
        assert(!name.drop_last().contains('.')) by {
            if name.drop_last().contains('.') {
                let i = choose|i: int|
                    0 <= i < name.drop_last().len() && name.drop_last()[i] == '.';
                assert(name[i] == '.');
            }
        }
        lemma_no_dot(name.drop_last());
    }
}

/// The extension of a path is what stands behind the last dot of its last name, wherever the file
/// lies. A name without a dot has none, nor one whose only dot comes first.
pub proof fn extensions_follow_the_last_dot(
    path: Seq<char>,
    directory: Seq<Part>,
    stem: Seq<char>,
    extension: Seq<char>,
)
    requires
        !extension.contains('.'),
    ensures
        parts(path) == directory.push(Part::Name(stem + "."@ + extension)) ==> extension_of(path)
            == if stem.len() > 0 {
            Some(extension)
        } else {
            None
        },
        parts(path) == directory.push(Part::Name(extension)) ==> extension_of(path) is None,
        parts(path).len() == 0 ==> extension_of(path) is None,
        parts(path).len() > 0 && !(parts(path).last() is Name) ==> extension_of(path) is None,
{
    reveal_strlit(".");
    assert("."@ =~= seq!['.']);
    let name = stem + "."@ + extension;
    lemma_last_dot(stem, extension);
    lemma_no_dot(extension);
    assert(name.skip((stem.len() + 1) as int) =~= extension);
    assert(directory.push(Part::Name(name)).last() == Part::Name(name));
    assert(directory.push(Part::Name(extension)).last() == Part::Name(extension));
}

} // verus!
