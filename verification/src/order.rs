//! Ordering: lexicographic comparison and stable sorting.

use vstd::prelude::*;

verus! {

/// Whether `before` is a strict order in which equal rank is transitive.
pub open spec fn orders<T>(before: spec_fn(T, T) -> bool) -> bool {
    &&& forall|a: T, b: T| #[trigger] before(a, b) ==> !before(b, a)
    &&& forall|a: T, b: T, c: T|
        !(#[trigger] before(a, b)) && !(#[trigger] before(b, c)) ==> !before(a, c)
}

/// Whether no item stands after one that it belongs before.
pub open spec fn in_order<T>(list: Seq<T>, before: spec_fn(T, T) -> bool) -> bool {
    forall|i: int, j: int| 0 <= i < j < list.len() ==> !before(#[trigger] list[j], #[trigger] list[i])
}

/// An item put into a list behind everything that it does not belong before.
pub open spec fn inserted<T>(list: Seq<T>, item: T, before: spec_fn(T, T) -> bool) -> Seq<T>
    decreases list.len(),
{
    if list.len() == 0 || !before(item, list.last()) {
        list.push(item)
    } else {
        inserted(list.drop_last(), item, before).push(list.last())
    }
}

/// A list in stable order.
pub open spec fn arranged<T>(list: Seq<T>, before: spec_fn(T, T) -> bool) -> Seq<T>
    decreases list.len(),
{
    if list.len() == 0 {
        list
    } else {
        inserted(arranged(list.drop_last(), before), list.last(), before)
    }
}

proof fn lemma_inserted<T>(list: Seq<T>, item: T, before: spec_fn(T, T) -> bool)
    ensures
        inserted(list, item, before).to_multiset() == list.to_multiset().insert(item),
        inserted(list, item, before).len() == list.len() + 1,
    decreases list.len(),
{
    broadcast use vstd::seq_lib::group_to_multiset_ensures;

    if list.len() == 0 || !before(item, list.last()) {
    } else {
        lemma_inserted(list.drop_last(), item, before);
        assert(list.drop_last().push(list.last()) == list);
        assert(inserted(list, item, before).to_multiset() =~= list.to_multiset().insert(item));
    }
}

proof fn lemma_inserted_in_order<T>(list: Seq<T>, item: T, before: spec_fn(T, T) -> bool)
    requires
        orders(before),
        in_order(list, before),
    ensures
        in_order(inserted(list, item, before), before),
        forall|i: int|
            0 <= i < list.len() + 1 ==> (#[trigger] inserted(list, item, before)[i] == item
                || list.contains(inserted(list, item, before)[i])),
        inserted(list, item, before).len() == list.len() + 1,
    decreases list.len(),
{
    let result = inserted(list, item, before);
    if list.len() == 0 || !before(item, list.last()) {
        assert forall|i: int, j: int| 0 <= i < j < result.len() implies !before(
            #[trigger] result[j],
            #[trigger] result[i],
        ) by {
            if j == list.len() {
                if i < list.len() - 1 {
                    assert(!before(list[list.len() - 1], list[i]));
                    assert(!before(item, list.last()));
                }
            } else {
                assert(!before(list[j], list[i]));
            }
        }
    } else {
        let shorter = list.drop_last();
        assert forall|i: int, j: int| 0 <= i < j < shorter.len() implies !before(
            #[trigger] shorter[j],
            #[trigger] shorter[i],
        ) by {
            assert(!before(list[j], list[i]));
        }
        lemma_inserted_in_order(shorter, item, before);
        let inner = inserted(shorter, item, before);
        let bound = list.last();
        assert(result == inner.push(bound));
        assert forall|i: int| 0 <= i < inner.len() implies !before(bound, #[trigger] inner[i]) && (
        inner[i] == item || list.contains(inner[i])) by {
            if inner[i] != item {
                let k = choose|k: int| 0 <= k < shorter.len() && shorter[k] == inner[i];
                assert(list[k] == inner[i]);
                assert(!before(list[list.len() - 1], list[k]));
            }
        }
        assert forall|i: int, j: int| 0 <= i < j < result.len() implies !before(
            #[trigger] result[j],
            #[trigger] result[i],
        ) by {
            if j == inner.len() {
                assert(!before(bound, inner[i]));
            } else {
                assert(!before(inner[j], inner[i]));
            }
        }
        assert forall|i: int| 0 <= i < list.len() + 1 implies (#[trigger] result[i] == item
            || list.contains(result[i])) by {
            if i < inner.len() {
                assert(result[i] == inner[i]);
            } else {
                assert(result[i] == list[list.len() - 1]);
            }
        }
    }
}

/// Sorting keeps exactly the items that were there.
pub proof fn arranging_keeps_the_items<T>(list: Seq<T>, before: spec_fn(T, T) -> bool)
    ensures
        arranged(list, before).to_multiset() == list.to_multiset(),
        arranged(list, before).len() == list.len(),
        forall|item: T| arranged(list, before).contains(item) <==> list.contains(item),
    decreases list.len(),
{
    broadcast use vstd::seq_lib::group_to_multiset_ensures;

    if list.len() > 0 {
        arranging_keeps_the_items(list.drop_last(), before);
        lemma_inserted(arranged(list.drop_last(), before), list.last(), before);
        assert(list.drop_last().push(list.last()) == list);
    }
    assert forall|item: T| arranged(list, before).contains(item) <==> list.contains(item) by {
        assert(arranged(list, before).to_multiset().count(item) == list.to_multiset().count(item));
    }
}

/// Sorting by an order leaves no item after one that it belongs before.
pub proof fn arranging_puts_in_order<T>(list: Seq<T>, before: spec_fn(T, T) -> bool)
    requires
        orders(before),
    ensures
        in_order(arranged(list, before), before),
    decreases list.len(),
{
    if list.len() > 0 {
        arranging_puts_in_order(list.drop_last(), before);
        lemma_inserted_in_order(arranged(list.drop_last(), before), list.last(), before);
    }
}

/// Sorting what is in order changes nothing.
pub proof fn arranging_keeps_order<T>(list: Seq<T>, before: spec_fn(T, T) -> bool)
    requires
        in_order(list, before),
    ensures
        arranged(list, before) == list,
    decreases list.len(),
{
    if list.len() > 0 {
        let shorter = list.drop_last();
        assert(in_order(shorter, before)) by {
            assert forall|i: int, j: int| 0 <= i < j < shorter.len() implies !before(
                #[trigger] shorter[j],
                #[trigger] shorter[i],
            ) by {
                assert(!before(list[j], list[i]));
            }
        }
        arranging_keeps_order(shorter, before);
        if shorter.len() > 0 {
            assert(!before(list[list.len() - 1], list[list.len() - 2]));
        }
        assert(shorter.push(list.last()) == list);
    }
}

/// The items of a list that rank with `item`, in their places.
pub open spec fn peers<T>(list: Seq<T>, item: T, before: spec_fn(T, T) -> bool) -> Seq<T> {
    list.filter(|other: T| !before(item, other) && !before(other, item))
}

proof fn lemma_inserted_peers<T>(list: Seq<T>, added: T, item: T, before: spec_fn(T, T) -> bool)
    requires
        orders(before),
        in_order(list, before),
    ensures
        peers(inserted(list, added, before), item, before) == peers(list.push(added), item, before),
    decreases list.len(),
{
    let keep = |other: T| !before(item, other) && !before(other, item);
    broadcast use Seq::lemma_filter_push;

    if list.len() == 0 || !before(added, list.last()) {
    } else {
        let shorter = list.drop_last();
        let last = list.last();
        assert(in_order(shorter, before)) by {
            assert forall|i: int, j: int| 0 <= i < j < shorter.len() implies !before(
                #[trigger] shorter[j],
                #[trigger] shorter[i],
            ) by {
                assert(!before(list[j], list[i]));
            }
        }
        lemma_inserted_peers(shorter, added, item, before);
        assert(shorter.push(last) == list);
        assert(!(keep(added) && keep(last))) by {
            if keep(added) && keep(last) {
                assert(!before(added, item) && !before(item, last));
                assert(!before(added, last));
            }
        }
        assert(list.push(added).filter(keep) == if keep(added) {
            list.filter(keep).push(added)
        } else {
            list.filter(keep)
        });
    }
}

/// Lists with the same items, in whatever places.
pub proof fn lemma_same_items<T>(left: Seq<T>, right: Seq<T>)
    requires
        left.to_multiset() == right.to_multiset(),
    ensures
        left.len() == right.len(),
        forall|item: T| #[trigger] left.contains(item) <==> right.contains(item),
        left.no_duplicates() ==> right.no_duplicates(),
{
    left.to_multiset_ensures();
    right.to_multiset_ensures();
    assert(left.to_multiset().len() == right.to_multiset().len());
    assert forall|item: T| #[trigger] left.contains(item) <==> right.contains(item) by {
        assert(left.contains(item) <==> left.to_multiset().count(item) > 0);
        assert(right.contains(item) <==> right.to_multiset().count(item) > 0);
    }
    if left.no_duplicates() {
        left.lemma_multiset_has_no_duplicates();
        right.lemma_multiset_has_no_duplicates_conv();
    }
}

/// Whether any two items of a list are of different rank.
pub open spec fn all_ranked<T>(list: Seq<T>, before: spec_fn(T, T) -> bool) -> bool {
    forall|a: T, b: T|
        #[trigger] list.contains(a) && #[trigger] list.contains(b) && a != b ==> before(a, b)
            || before(b, a)
}

proof fn lemma_one_order<T>(left: Seq<T>, right: Seq<T>, before: spec_fn(T, T) -> bool)
    requires
        in_order(left, before),
        in_order(right, before),
        all_ranked(left, before),
        left.no_duplicates(),
        right.no_duplicates(),
        left.len() == right.len(),
        forall|item: T| #[trigger] left.contains(item) <==> right.contains(item),
    ensures
        left == right,
    decreases left.len(),
{
    if left.len() == 0 {
        assert(left =~= right);
    } else {
        let first = left.drop_last();
        let second = right.drop_last();
        let end = left.len() - 1;
        assert(left.contains(left[end]));
        let j = choose|j: int| 0 <= j < right.len() && right[j] == left[end];
        if j < end {
            assert(right.contains(right[end]));
            assert(left.contains(right[end]));
            let i = choose|i: int| 0 <= i < left.len() && left[i] == right[end];
            assert(!before(right[end], right[j]));
            assert(!before(left[end], left[i]));
        }
        assert(left.last() == right.last());
        assert forall|item: T| #[trigger] first.contains(item) <==> second.contains(item) by {
            lemma_but_last(left, item);
            lemma_but_last(right, item);
            assert(left.contains(item) <==> right.contains(item));
        }
        assert forall|a: T, b: T|
            #[trigger] first.contains(a) && #[trigger] first.contains(b) && a != b implies before(
            a,
            b,
        ) || before(b, a) by {
            lemma_but_last(left, a);
            lemma_but_last(left, b);
        }
        lemma_one_order(first, second, before);
        assert(left =~= first.push(left.last()));
        assert(right =~= second.push(right.last()));
    }
}

proof fn lemma_but_last<T>(list: Seq<T>, item: T)
    requires
        list.len() > 0,
        list.no_duplicates(),
    ensures
        list.drop_last().contains(item) <==> list.contains(item) && item != list.last(),
{
    let shorter = list.drop_last();
    if shorter.contains(item) {
        let i = choose|i: int| 0 <= i < shorter.len() && shorter[i] == item;
        assert(list[i] == item);
    }
    if list.contains(item) && item != list.last() {
        let i = choose|i: int| 0 <= i < list.len() && list[i] == item;
        assert(shorter[i] == item);
    }
}

/// A list in order has no item twice where the list it was made of had none.
pub proof fn lemma_arranged_once<T>(list: Seq<T>, before: spec_fn(T, T) -> bool)
    requires
        list.no_duplicates(),
    ensures
        arranged(list, before).no_duplicates(),
{
    arranging_keeps_the_items(list, before);
    list.lemma_multiset_has_no_duplicates();
    arranged(list, before).lemma_multiset_has_no_duplicates_conv();
}

/// Sorting forgets where items stood: where all are of different rank, two lists of the same items
/// are sorted into one.
pub proof fn arranging_forgets_places<T>(
    left: Seq<T>,
    right: Seq<T>,
    before: spec_fn(T, T) -> bool,
)
    requires
        orders(before),
        all_ranked(left, before),
        left.no_duplicates(),
        right.no_duplicates(),
        left.len() == right.len(),
        forall|item: T| #[trigger] left.contains(item) <==> right.contains(item),
    ensures
        arranged(left, before) == arranged(right, before),
{
    let first = arranged(left, before);
    let second = arranged(right, before);
    arranging_keeps_the_items(left, before);
    arranging_keeps_the_items(right, before);
    arranging_puts_in_order(left, before);
    arranging_puts_in_order(right, before);
    lemma_arranged_once(left, before);
    lemma_arranged_once(right, before);
    assert forall|item: T| #[trigger] first.contains(item) <==> second.contains(item) by {
        assert(left.contains(item) <==> right.contains(item));
    }
    assert forall|a: T, b: T|
        #[trigger] first.contains(a) && #[trigger] first.contains(b) && a != b implies before(a, b)
        || before(b, a) by {
        assert(left.contains(a) && left.contains(b));
    }
    lemma_one_order(first, second, before);
}

/// Sorting is stable: items of equal rank keep their places among each other.
pub proof fn arranging_is_stable<T>(list: Seq<T>, item: T, before: spec_fn(T, T) -> bool)
    requires
        orders(before),
    ensures
        peers(arranged(list, before), item, before) == peers(list, item, before),
    decreases list.len(),
{
    if list.len() > 0 {
        let shorter = list.drop_last();
        arranging_is_stable(shorter, item, before);
        arranging_puts_in_order(shorter, before);
        lemma_inserted_peers(arranged(shorter, before), list.last(), item, before);
        let keep = |other: T| !before(item, other) && !before(other, item);
        broadcast use Seq::lemma_filter_push;

        assert(shorter.push(list.last()) == list);
        assert(peers(arranged(shorter, before).push(list.last()), item, before) == arranged(
            shorter,
            before,
        ).push(list.last()).filter(keep));
        assert(peers(list, item, before) == list.filter(keep));
    }
}

proof fn lemma_inserted_map<T, U>(
    list: Seq<T>,
    item: T,
    before: spec_fn(T, T) -> bool,
    image: spec_fn(T) -> U,
    rank: spec_fn(U, U) -> bool,
)
    requires
        forall|a: T, b: T| #[trigger] before(a, b) == rank(image(a), image(b)),
    ensures
        inserted(list, item, before).map_values(image) == inserted(
            list.map_values(image),
            image(item),
            rank,
        ),
    decreases list.len(),
{
    if list.len() == 0 || !before(item, list.last()) {
        assert(list.push(item).map_values(image) == list.map_values(image).push(image(item)));
    } else {
        lemma_inserted_map(list.drop_last(), item, before, image, rank);
        assert(list.drop_last().map_values(image) == list.map_values(image).drop_last());
        let inner = inserted(list.drop_last(), item, before);
        assert(inner.push(list.last()).map_values(image) == inner.map_values(image).push(
            image(list.last()),
        ));
    }
}

pub proof fn lemma_arranged_map<T, U>(
    list: Seq<T>,
    before: spec_fn(T, T) -> bool,
    image: spec_fn(T) -> U,
    rank: spec_fn(U, U) -> bool,
)
    requires
        forall|a: T, b: T| #[trigger] before(a, b) == rank(image(a), image(b)),
    ensures
        arranged(list, before).map_values(image) == arranged(list.map_values(image), rank),
    decreases list.len(),
{
    if list.len() > 0 {
        lemma_arranged_map(list.drop_last(), before, image, rank);
        lemma_inserted_map(arranged(list.drop_last(), before), list.last(), before, image, rank);
        assert(list.drop_last().map_values(image) == list.map_values(image).drop_last());
    }
}

/// Sorts a list by insertion. Items of equal rank keep their places among each other.
pub(crate) fn arrange<T, F: Fn(&T, &T) -> bool>(
    list: Vec<T>,
    precedes: F,
    Ghost(before): Ghost<spec_fn(T, T) -> bool>,
) -> (result: Vec<T>)
    requires
        forall|a: &T, b: &T| precedes.requires((a, b)),
        forall|a: &T, b: &T, answer: bool|
            precedes.ensures((a, b), answer) ==> answer == before(*a, *b),
    ensures
        result@ == arranged(list@, before),
{
    let mut result: Vec<T> = Vec::new();
    let mut rest: Vec<T> = list;
    assert(list@.take(0) == result@);
    while rest.len() > 0
        invariant
            forall|a: &T, b: &T| precedes.requires((a, b)),
            forall|a: &T, b: &T, answer: bool|
                precedes.ensures((a, b), answer) ==> answer == before(*a, *b),
            rest@.len() <= list@.len(),
            rest@ == list@.skip(list@.len() - rest@.len()),
            result@ == arranged(list@.take(list@.len() - rest@.len()), before),
            result@.len() + rest@.len() == list@.len(),
        decreases rest.len(),
    {
        let ghost done = list@.len() - rest@.len();
        let ghost sorted = result@;
        let item = rest.remove(0);
        assert(item == list@[done as int]);
        let mut place: usize = result.len();
        assert(result@.take(place as int) == result@);
        assert(result@.skip(place as int) == Seq::<T>::empty());
        assert(inserted(result@.take(place as int), item, before) + result@.skip(place as int)
            == inserted(result@, item, before));
        while place > 0 && precedes(&item, &result[place - 1])
            invariant
                place <= result@.len(),
                forall|a: &T, b: &T| precedes.requires((a, b)),
                forall|a: &T, b: &T, answer: bool|
                    precedes.ensures((a, b), answer) ==> answer == before(*a, *b),
                inserted(result@.take(place as int), item, before) + result@.skip(place as int)
                    == inserted(result@, item, before),
            decreases place,
        {
            proof {
                let head = result@.take(place as int);
                assert(head.last() == result@[place - 1]);
                assert(head.drop_last() == result@.take(place - 1));
                let inner = inserted(head.drop_last(), item, before);
                assert(inner.push(head.last()) + result@.skip(place as int) == inner
                    + result@.skip(place - 1));
            }
            place -= 1;
        }
        proof {
            let head = result@.take(place as int);
            if place > 0 {
                assert(head.last() == result@[place - 1]);
            }
            assert(inserted(head, item, before) == head.push(item));
            assert(result@.insert(place as int, item) == head.push(item) + result@.skip(
                place as int,
            ));
            assert(list@.take(done + 1).drop_last() == list@.take(done as int));
        }
        result.insert(place, item);
        proof {
            assert(result@ == inserted(sorted, item, before));
            assert(rest@ == list@.skip(done + 1));
        }
    }
    assert(list@.take(list@.len() as int) == list@);
    result
}

/// Lexicographic order: the first difference decides, and a prefix comes first.
pub open spec fn dictionary<T>(left: Seq<T>, right: Seq<T>, before: spec_fn(T, T) -> bool) -> bool
    decreases left.len(),
{
    if right.len() == 0 {
        false
    } else if left.len() == 0 {
        true
    } else if left[0] == right[0] {
        dictionary(left.skip(1), right.skip(1), before)
    } else {
        before(left[0], right[0])
    }
}

/// Whether `before` is a strict order of distinct values.
pub open spec fn ranks<T>(before: spec_fn(T, T) -> bool) -> bool {
    &&& forall|a: T, b: T| #[trigger] before(a, b) ==> !before(b, a)
    &&& forall|a: T, b: T| a != b ==> (#[trigger] before(a, b)) || before(b, a)
    &&& forall|a: T, b: T, c: T| #[trigger] before(a, b) && #[trigger] before(b, c) ==> before(a, c)
}

pub proof fn lemma_dictionary_asymmetric<T>(
    left: Seq<T>,
    right: Seq<T>,
    before: spec_fn(T, T) -> bool,
)
    requires
        ranks(before),
        dictionary(left, right, before),
    ensures
        !dictionary(right, left, before),
        left != right,
    decreases left.len(),
{
    if left.len() > 0 && left[0] == right[0] {
        lemma_dictionary_asymmetric(left.skip(1), right.skip(1), before);
    }
}

pub proof fn lemma_dictionary_total<T>(left: Seq<T>, right: Seq<T>, before: spec_fn(T, T) -> bool)
    requires
        ranks(before),
        !dictionary(left, right, before),
        !dictionary(right, left, before),
    ensures
        left == right,
    decreases left.len(),
{
    if left.len() > 0 && right.len() > 0 {
        if left[0] == right[0] {
            lemma_dictionary_total(left.skip(1), right.skip(1), before);
            assert(left == seq![left[0]] + left.skip(1));
            assert(right == seq![right[0]] + right.skip(1));
        } else {
            assert(before(left[0], right[0]) || before(right[0], left[0]));
        }
    } else {
        assert(left == right);
    }
}

pub proof fn lemma_dictionary_transitive<T>(
    first: Seq<T>,
    second: Seq<T>,
    third: Seq<T>,
    before: spec_fn(T, T) -> bool,
)
    requires
        ranks(before),
        dictionary(first, second, before),
        dictionary(second, third, before),
    ensures
        dictionary(first, third, before),
    decreases first.len(),
{
    if first.len() > 0 && second.len() > 0 && third.len() > 0 {
        if first[0] == second[0] && second[0] == third[0] {
            lemma_dictionary_transitive(first.skip(1), second.skip(1), third.skip(1), before);
        }
    }
}

/// Lexicographic order over a strict order of distinct values is one again.
pub proof fn lemma_dictionary_ranks<T>(before: spec_fn(T, T) -> bool)
    requires
        ranks(before),
    ensures
        ranks(|left: Seq<T>, right: Seq<T>| dictionary(left, right, before)),
{
    let order = |left: Seq<T>, right: Seq<T>| dictionary(left, right, before);
    assert forall|a: Seq<T>, b: Seq<T>| #[trigger] order(a, b) implies !order(b, a) by {
        lemma_dictionary_asymmetric(a, b, before);
    }
    assert forall|a: Seq<T>, b: Seq<T>| a != b implies (#[trigger] order(a, b)) || order(b, a) by {
        if !order(a, b) && !order(b, a) {
            lemma_dictionary_total(a, b, before);
        }
    }
    assert forall|a: Seq<T>, b: Seq<T>, c: Seq<T>| #[trigger]
        order(a, b) && #[trigger] order(b, c) implies order(a, c) by {
        lemma_dictionary_transitive(a, b, c, before);
    }
}

pub proof fn lemma_ranks_order<T>(before: spec_fn(T, T) -> bool)
    requires
        ranks(before),
    ensures
        orders(before),
{
    assert forall|a: T, b: T, c: T|
        !(#[trigger] before(a, b)) && !(#[trigger] before(b, c)) implies !before(a, c) by {
        if before(a, c) {
            if a == b || b == c {
            } else {
                assert(before(b, a));
                assert(before(c, b));
                assert(before(b, c));
            }
        }
    }
}

pub proof fn lemma_prefix_first<T>(prefix: Seq<T>, whole: Seq<T>, before: spec_fn(T, T) -> bool)
    requires
        prefix.len() < whole.len(),
        whole.take(prefix.len() as int) == prefix,
    ensures
        dictionary(prefix, whole, before),
    decreases prefix.len(),
{
    if prefix.len() > 0 {
        assert(whole[0] == whole.take(prefix.len() as int)[0]);
        assert(whole.skip(1).take(prefix.skip(1).len() as int) == prefix.skip(1));
        lemma_prefix_first(prefix.skip(1), whole.skip(1), before);
    }
}

/// The strict order of characters by code point.
pub open spec fn by_code() -> spec_fn(char, char) -> bool {
    |left: char, right: char| (left as int) < (right as int)
}

pub proof fn lemma_by_code()
    ensures
        ranks(by_code()),
{
    assert forall|a: char, b: char| a != b implies (#[trigger] by_code()(a, b)) || by_code()(b, a) by {
        assert(a as int != b as int);
    }
}

/// Whether a text comes before another in the order of code points.
pub open spec fn text_before(left: Seq<char>, right: Seq<char>) -> bool {
    dictionary(left, right, by_code())
}

fn code_precedes(left: char, right: char) -> (result: bool)
    ensures
        result == by_code()(left, right),
{
    (left as u32) < (right as u32)
}

pub fn text_precedes(left: &[char], right: &[char]) -> (result: bool)
    ensures
        result == text_before(left@, right@),
{
    let mut index: usize = 0;
    assert(left@.skip(0) == left@ && right@.skip(0) == right@);
    while index < left.len() && index < right.len() && left[index] == right[index]
        invariant
            index <= left@.len(),
            index <= right@.len(),
            text_before(left@, right@) == text_before(
                left@.skip(index as int),
                right@.skip(index as int),
            ),
        decreases left.len() - index,
    {
        assert(left@.skip(index as int).skip(1) == left@.skip(index + 1));
        assert(right@.skip(index as int).skip(1) == right@.skip(index + 1));
        index += 1;
    }
    if index == right.len() {
        return false;
    }
    if index == left.len() {
        return true;
    }
    code_precedes(left[index], right[index])
}

} // verus!
