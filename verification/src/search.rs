//! The first hit of a search, from left to right.

use vstd::prelude::*;

verus! {

/// The first answer that a probe gives on the indices below `size`.
pub open spec fn first_of<T>(size: nat, probe: spec_fn(int) -> Option<T>) -> Option<T>
    decreases size,
{
    if size == 0 {
        None
    } else {
        match first_of((size - 1) as nat, probe) {
            Some(answer) => Some(answer),
            None => probe(size - 1),
        }
    }
}

/// A hit stays the answer however much further the search would go.
pub proof fn lemma_first_of<T>(hit: nat, size: nat, probe: spec_fn(int) -> Option<T>)
    requires
        hit <= size,
        first_of(hit, probe) is Some,
    ensures
        first_of(size, probe) == first_of(hit, probe),
    decreases size,
{
    if hit < size {
        lemma_first_of(hit, (size - 1) as nat, probe);
    }
}

/// A search finds nothing exactly where no index has an answer.
pub proof fn lemma_first_of_none<T>(size: nat, probe: spec_fn(int) -> Option<T>)
    ensures
        first_of(size, probe) is None <==> (forall|i: int|
            0 <= i < size ==> (#[trigger] probe(i)) is None),
    decreases size,
{
    if size > 0 {
        lemma_first_of_none((size - 1) as nat, probe);
        if first_of(size, probe) is None {
            assert forall|i: int| 0 <= i < size implies (#[trigger] probe(i)) is None by {
                if i == size - 1 {
                    assert(probe(size - 1) is None);
                }
            }
        } else if first_of((size - 1) as nat, probe) is Some {
            let i = choose|i: int| 0 <= i < size - 1 && !((#[trigger] probe(i)) is None);
            assert(0 <= i < size && !(probe(i) is None));
        } else {
            assert(!(probe(size - 1) is None));
        }
    }
}

/// What a search finds is the answer of some index, and no index before it has one.
pub proof fn lemma_first_of_some<T>(size: nat, probe: spec_fn(int) -> Option<T>) -> (index: int)
    requires
        first_of(size, probe) is Some,
    ensures
        0 <= index < size,
        probe(index) == first_of(size, probe),
        first_of(index as nat, probe) is None,
    decreases size,
{
    if first_of((size - 1) as nat, probe) is Some {
        lemma_first_of_some((size - 1) as nat, probe)
    } else {
        size - 1
    }
}

/// Probes that agree below `size` find the same.
pub proof fn lemma_first_of_same<T>(
    size: nat,
    left: spec_fn(int) -> Option<T>,
    right: spec_fn(int) -> Option<T>,
)
    requires
        forall|i: int| 0 <= i < size ==> #[trigger] left(i) == right(i),
    ensures
        first_of(size, left) == first_of(size, right),
    decreases size,
{
    if size > 0 {
        lemma_first_of_same((size - 1) as nat, left, right);
        assert(left(size - 1) == right(size - 1));
    }
}

} // verus!
