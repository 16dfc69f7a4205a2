//! What the overview of desired and applied profiles shows, and in which order.

use crate::engine::reconcile::{
    applied_lines, by_line, entered, entered_all, line_at, supervised, Supervised,
};
use crate::model::{same_profile, Profile};
use crate::order::{
    all_ranked, arranging_forgets_places, arranging_keeps_the_items,
    arranging_puts_in_order, lemma_arranged_once, lemma_same_items, orders,
};
use crate::search::{first_of, lemma_first_of_none, lemma_first_of_some};
use vstd::prelude::*;

verus! {

/// Whether no two profiles of a list have one identifier.
pub open spec fn distinct_ids(list: Seq<Profile>) -> bool {
    forall|i: int, j: int|
        0 <= i < list.len() && 0 <= j < list.len() && i != j ==> (#[trigger] list[i]).id != (
        #[trigger] list[j]).id
}

/// Whether a profile is desired in this form.
pub open spec fn is_desired(profile: Profile, desired: Seq<Profile>) -> bool {
    exists|k: int| 0 <= k < desired.len() && same_profile(profile, #[trigger] desired[k])
}

/// Whether a profile is applied in this form.
pub open spec fn is_applied(profile: Profile, applied: Seq<Profile>) -> bool {
    exists|i: int| 0 <= i < applied.len() && same_profile(#[trigger] applied[i], profile)
}

/// The line of an applied profile.
pub open spec fn applied_line(profile: Profile, desired: Seq<Profile>) -> Supervised {
    Supervised { profile, applied: true, desired: is_desired(profile, desired) }
}

/// The line of a profile that is desired, but not applied in this form.
pub open spec fn desired_line(profile: Profile) -> Supervised {
    Supervised { profile, applied: false, desired: true }
}

/// Whether a line belongs into the overview: it is that of an applied profile, or of one that is
/// desired and not applied in this form.
pub open spec fn belongs(line: Supervised, desired: Seq<Profile>, applied: Seq<Profile>) -> bool {
    ||| exists|i: int|
        0 <= i < applied.len() && line == applied_line(#[trigger] applied[i], desired)
    ||| exists|k: int|
        0 <= k < desired.len() && !is_applied(#[trigger] desired[k], applied) && line
            == desired_line(desired[k])
}

/// Whether lines are those of the applied profiles, followed by those of the first `count` desired
/// ones that are not applied in this form.
spec fn is_entered(
    lines: Seq<Supervised>,
    desired: Seq<Profile>,
    applied: Seq<Profile>,
    count: int,
) -> bool {
    let size = applied.len();
    &&& lines.len() >= size
    &&& forall|i: int|
        0 <= i < size ==> #[trigger] lines[i] == applied_line(applied[i], desired.take(count))
    &&& forall|i: int|
        size <= i < lines.len() ==> is_line_of(#[trigger] lines[i], desired, applied, count)
    &&& forall|k: int|
        0 <= k < count && !is_applied(#[trigger] desired[k], applied) ==> has_line(
            lines,
            desired[k],
            size as int,
        )
    &&& forall|i: int, j: int|
        size <= i < lines.len() && size <= j < lines.len() && i != j ==> (
        #[trigger] lines[i]).profile.id != (#[trigger] lines[j]).profile.id
}

spec fn is_line_of(
    line: Supervised,
    desired: Seq<Profile>,
    applied: Seq<Profile>,
    count: int,
) -> bool {
    exists|k: int|
        0 <= k < count && !is_applied(#[trigger] desired[k], applied) && line == desired_line(
            desired[k],
        )
}

spec fn has_line(lines: Seq<Supervised>, profile: Profile, start: int) -> bool {
    exists|i: int| start <= i < lines.len() && #[trigger] lines[i] == desired_line(profile)
}

proof fn lemma_is_desired_next(profile: Profile, desired: Seq<Profile>, count: int)
    requires
        0 < count <= desired.len(),
    ensures
        is_desired(profile, desired.take(count)) <==> is_desired(profile, desired.take(count - 1))
            || same_profile(profile, desired[count - 1]),
{
    let longer = desired.take(count);
    let shorter = desired.take(count - 1);
    if is_desired(profile, longer) {
        let k = choose|k: int| 0 <= k < longer.len() && same_profile(profile, #[trigger] longer[k]);
        if k < count - 1 {
            assert(shorter[k] == longer[k]);
        }
    }
    if is_desired(profile, shorter) {
        let k = choose|k: int|
            0 <= k < shorter.len() && same_profile(profile, #[trigger] shorter[k]);
        assert(longer[k] == shorter[k]);
    }
    if same_profile(profile, desired[count - 1]) {
        assert(longer[count - 1] == desired[count - 1]);
    }
}

proof fn lemma_entered_step(
    before: Seq<Supervised>,
    desired: Seq<Profile>,
    applied: Seq<Profile>,
    count: int,
)
    requires
        0 < count <= desired.len(),
        distinct_ids(desired),
        distinct_ids(applied),
        is_entered(before, desired, applied, count - 1),
    ensures
        is_entered(entered(before, desired[count - 1]), desired, applied, count),
{
    let profile = desired[count - 1];
    let after = entered(before, profile);
    let probe = line_at(before, profile);
    let size = applied.len();
    assert forall|i: int| 0 <= i < size implies is_desired(#[trigger] applied[i], desired.take(count))
        == (is_desired(applied[i], desired.take(count - 1)) || same_profile(applied[i], profile)) by {
        lemma_is_desired_next(applied[i], desired, count);
    }
    assert forall|i: int| size <= i < before.len() implies (
    #[trigger] before[i]).profile.id != profile.id by {
        assert(is_line_of(before[i], desired, applied, count - 1));
        let k = choose|k: int|
            0 <= k < count - 1 && !is_applied(#[trigger] desired[k], applied) && before[i]
                == desired_line(desired[k]);
        assert(desired[k].id != desired[count - 1].id);
    }
    if first_of(before.len(), probe) is Some {
        let index = lemma_first_of_some(before.len(), probe);
        assert(index < size) by {
            if index >= size {
                assert(before[index].profile.id != profile.id);
            }
        }
        assert(before[index] == applied_line(applied[index], desired.take(count - 1)));
        assert(same_profile(applied[index], profile));
        assert(is_applied(profile, applied));
        assert forall|i: int| 0 <= i < size implies #[trigger] after[i] == applied_line(
            applied[i],
            desired.take(count),
        ) by {
            assert(before[i] == applied_line(applied[i], desired.take(count - 1)));
            if i != index {
                assert(applied[i].id != applied[index].id);
                assert(!same_profile(applied[i], profile));
            }
        }
        assert forall|i: int| size <= i < after.len() implies is_line_of(
            #[trigger] after[i],
            desired,
            applied,
            count,
        ) by {
            assert(after[i] == before[i]);
            lemma_line_of_next(before[i], desired, applied, count);
        }
        assert forall|k: int|
            0 <= k < count && !is_applied(#[trigger] desired[k], applied) implies has_line(
            after,
            desired[k],
            size as int,
        ) by {
            assert(has_line(before, desired[k], size as int));
            let i = choose|i: int|
                size <= i < before.len() && #[trigger] before[i] == desired_line(desired[k]);
            assert(after[i] == desired_line(desired[k]));
        }
    } else {
        lemma_first_of_none(before.len(), probe);
        assert forall|i: int| 0 <= i < size implies !same_profile(#[trigger] applied[i], profile) by {
            assert(probe(i) is None);
            assert(before[i] == applied_line(applied[i], desired.take(count - 1)));
        }
        assert(!is_applied(profile, applied));
        assert forall|i: int| 0 <= i < size implies #[trigger] after[i] == applied_line(
            applied[i],
            desired.take(count),
        ) by {
            assert(before[i] == applied_line(applied[i], desired.take(count - 1)));
        }
        assert forall|i: int| size <= i < after.len() implies is_line_of(
            #[trigger] after[i],
            desired,
            applied,
            count,
        ) by {
            if i < before.len() {
                assert(after[i] == before[i]);
                lemma_line_of_next(before[i], desired, applied, count);
            } else {
                assert(!is_applied(desired[count - 1], applied));
                assert(after[i] == desired_line(desired[count - 1]));
            }
        }
        assert forall|k: int|
            0 <= k < count && !is_applied(#[trigger] desired[k], applied) implies has_line(
            after,
            desired[k],
            size as int,
        ) by {
            if k < count - 1 {
                assert(has_line(before, desired[k], size as int));
                let i = choose|i: int|
                    size <= i < before.len() && #[trigger] before[i] == desired_line(desired[k]);
                assert(after[i] == desired_line(desired[k]));
            } else {
                assert(after[before.len() as int] == desired_line(profile));
            }
        }
        assert forall|i: int, j: int|
            size <= i < after.len() && size <= j < after.len() && i != j implies (
        #[trigger] after[i]).profile.id != (#[trigger] after[j]).profile.id by {
            if i < before.len() {
                assert(after[i] == before[i]);
            }
            if j < before.len() {
                assert(after[j] == before[j]);
            }
        }
    }
}

proof fn lemma_line_of_next(
    line: Supervised,
    desired: Seq<Profile>,
    applied: Seq<Profile>,
    count: int,
)
    requires
        is_line_of(line, desired, applied, count - 1),
    ensures
        is_line_of(line, desired, applied, count),
{
    let k = choose|k: int|
        0 <= k < count - 1 && !is_applied(#[trigger] desired[k], applied) && line == desired_line(
            desired[k],
        );
    assert(!is_applied(desired[k], applied));
}

proof fn lemma_entered_so_far(desired: Seq<Profile>, applied: Seq<Profile>, count: nat)
    requires
        count <= desired.len(),
        distinct_ids(desired),
        distinct_ids(applied),
    ensures
        is_entered(
            entered_all(applied_lines(applied), desired, count),
            desired,
            applied,
            count as int,
        ),
    decreases count,
{
    if count > 0 {
        lemma_entered_so_far(desired, applied, (count - 1) as nat);
        lemma_entered_step(
            entered_all(applied_lines(applied), desired, (count - 1) as nat),
            desired,
            applied,
            count as int,
        );
    } else {
        let lines = applied_lines(applied);
        assert forall|i: int| 0 <= i < applied.len() implies #[trigger] lines[i] == applied_line(
            applied[i],
            desired.take(0),
        ) by {
            assert(!is_desired(applied[i], desired.take(0)));
        }
    }
}

/// The lines of the overview before they are put in order: each belongs there, none is missing, and
/// no two have the same rank.
proof fn lemma_lines(desired: Seq<Profile>, applied: Seq<Profile>)
    requires
        distinct_ids(desired),
        distinct_ids(applied),
    ensures
        ({
            let lines = entered_all(applied_lines(applied), desired, desired.len());
            &&& lines.no_duplicates()
            &&& all_ranked(lines, by_line())
            &&& forall|line: Supervised| #[trigger]
                lines.contains(line) <==> belongs(line, desired, applied)
        }),
{
    let lines = entered_all(applied_lines(applied), desired, desired.len());
    let size = applied.len();
    lemma_entered_so_far(desired, applied, desired.len());
    assert(desired.take(desired.len() as int) =~= desired);
    assert forall|i: int, j: int|
        0 <= i < lines.len() && 0 <= j < lines.len() && i != j implies (
    #[trigger] lines[i]).profile.id != (#[trigger] lines[j]).profile.id || lines[i].applied
        != lines[j].applied by {
        lemma_kind(lines, desired, applied, i);
        lemma_kind(lines, desired, applied, j);
        if i < size && j < size {
            assert(applied[i].id != applied[j].id);
        }
    }
    assert forall|a: Supervised, b: Supervised|
        #[trigger] lines.contains(a) && #[trigger] lines.contains(b) && a != b implies by_line()(
        a,
        b,
    ) || by_line()(b, a) by {
        let i = choose|i: int| 0 <= i < lines.len() && lines[i] == a;
        let j = choose|j: int| 0 <= j < lines.len() && lines[j] == b;
        assert(lines[i].profile.id != lines[j].profile.id || lines[i].applied != lines[j].applied);
    }
    assert forall|line: Supervised| #[trigger] lines.contains(line) implies belongs(
        line,
        desired,
        applied,
    ) by {
        let i = choose|i: int| 0 <= i < lines.len() && lines[i] == line;
        if i < size {
            assert(line == applied_line(applied[i], desired));
        } else {
            assert(is_line_of(lines[i], desired, applied, desired.len() as int));
        }
    }
    assert forall|line: Supervised| belongs(
        line,
        desired,
        applied,
    ) implies #[trigger] lines.contains(line) by {
        if exists|i: int|
            0 <= i < applied.len() && line == applied_line(#[trigger] applied[i], desired) {
            let i = choose|i: int|
                0 <= i < applied.len() && line == applied_line(#[trigger] applied[i], desired);
            assert(lines[i] == line);
        } else {
            let k = choose|k: int|
                0 <= k < desired.len() && !is_applied(#[trigger] desired[k], applied) && line
                    == desired_line(desired[k]);
            assert(has_line(lines, desired[k], size as int));
            let i = choose|i: int|
                size <= i < lines.len() && #[trigger] lines[i] == desired_line(desired[k]);
            assert(lines[i] == line);
        }
    }
}

proof fn lemma_kind(
    lines: Seq<Supervised>,
    desired: Seq<Profile>,
    applied: Seq<Profile>,
    index: int,
)
    requires
        is_entered(lines, desired, applied, desired.len() as int),
        0 <= index < lines.len(),
    ensures
        lines[index].applied == (index < applied.len()),
        index < applied.len() ==> lines[index].profile == applied[index],
{
    if index < applied.len() {
        assert(lines[index] == applied_line(
            applied[index],
            desired.take(desired.len() as int),
        ));
    } else {
        assert(is_line_of(lines[index], desired, applied, desired.len() as int));
    }
}

proof fn lemma_by_line()
    ensures
        orders(by_line()),
{
}

/// The overview shows exactly the lines that belong there, in ascending order of the identifiers;
/// of two lines for one identifier, the applied one comes first.
pub proof fn overview_is_in_order(desired: Seq<Profile>, applied: Seq<Profile>)
    requires
        distinct_ids(desired),
        distinct_ids(applied),
    ensures
        forall|line: Supervised| #[trigger]
            supervised(desired, applied).contains(line) <==> belongs(line, desired, applied),
        forall|i: int, j: int|
            0 <= i < j < supervised(desired, applied).len() ==> {
                let upper = #[trigger] supervised(desired, applied)[i];
                let lower = #[trigger] supervised(desired, applied)[j];
                upper.profile.id < lower.profile.id || (upper.profile.id == lower.profile.id
                    && upper.applied && !lower.applied)
            },
{
    let lines = entered_all(applied_lines(applied), desired, desired.len());
    let result = supervised(desired, applied);
    lemma_lines(desired, applied);
    lemma_by_line();
    arranging_keeps_the_items(lines, by_line());
    arranging_puts_in_order(lines, by_line());
    lemma_arranged_once(lines, by_line());
    assert forall|line: Supervised| #[trigger] result.contains(line) <==> belongs(
        line,
        desired,
        applied,
    ) by {
        assert(lines.contains(line) <==> belongs(line, desired, applied));
    }
    assert forall|i: int, j: int| 0 <= i < j < result.len() implies {
        let upper = #[trigger] result[i];
        let lower = #[trigger] result[j];
        upper.profile.id < lower.profile.id || (upper.profile.id == lower.profile.id
            && upper.applied && !lower.applied)
    } by {
        assert(result.contains(result[i]) && result.contains(result[j]));
        assert(lines.contains(result[i]) && lines.contains(result[j]));
        assert(!by_line()(result[j], result[i]));
    }
}

proof fn lemma_same_length<T>(left: Seq<T>, right: Seq<T>)
    requires
        left.no_duplicates(),
        right.no_duplicates(),
        forall|item: T| #[trigger] left.contains(item) <==> right.contains(item),
    ensures
        left.len() == right.len(),
{
    left.unique_seq_to_set();
    right.unique_seq_to_set();
    assert forall|item: T| #[trigger] left.to_set().contains(item) <==> right.to_set().contains(
        item,
    ) by {
        assert(left.contains(item) <==> right.contains(item));
    }
    assert(left.to_set() =~= right.to_set());
}

proof fn lemma_distinct_elsewhere(left: Seq<Profile>, right: Seq<Profile>)
    requires
        left.to_multiset() == right.to_multiset(),
        distinct_ids(left),
    ensures
        distinct_ids(right),
        forall|item: Profile| #[trigger] left.contains(item) <==> right.contains(item),
{
    assert forall|i: int, j: int|
        0 <= i < left.len() && 0 <= j < left.len() && i != j implies left[i] != left[j] by {
        assert(left[i].id != left[j].id);
    }
    lemma_same_items(left, right);
    assert forall|i: int, j: int|
        0 <= i < right.len() && 0 <= j < right.len() && i != j implies (#[trigger] right[i]).id != (
    #[trigger] right[j]).id by {
        assert(right.contains(right[i]) && right.contains(right[j]));
        assert(left.contains(right[i]) && left.contains(right[j]));
        let a = choose|a: int| 0 <= a < left.len() && left[a] == right[i];
        let b = choose|b: int| 0 <= b < left.len() && left[b] == right[j];
        assert(right[i] != right[j]);
    }
}

proof fn lemma_belongs_elsewhere(
    line: Supervised,
    desired: Seq<Profile>,
    applied: Seq<Profile>,
    other_desired: Seq<Profile>,
    other_applied: Seq<Profile>,
)
    requires
        forall|item: Profile| #[trigger] desired.contains(item) <==> other_desired.contains(item),
        forall|item: Profile| #[trigger] applied.contains(item) <==> other_applied.contains(item),
        belongs(line, desired, applied),
    ensures
        belongs(line, other_desired, other_applied),
{
    if exists|i: int| 0 <= i < applied.len() && line == applied_line(#[trigger] applied[i], desired) {
        let i = choose|i: int|
            0 <= i < applied.len() && line == applied_line(#[trigger] applied[i], desired);
        let profile = applied[i];
        assert(applied.contains(profile));
        assert(other_applied.contains(profile));
        let j = choose|j: int| 0 <= j < other_applied.len() && other_applied[j] == profile;
        lemma_desired_elsewhere(profile, desired, other_desired);
        lemma_desired_elsewhere(profile, other_desired, desired);
        assert(line == applied_line(other_applied[j], other_desired));
    } else {
        let k = choose|k: int|
            0 <= k < desired.len() && !is_applied(#[trigger] desired[k], applied) && line
                == desired_line(desired[k]);
        let profile = desired[k];
        assert(desired.contains(profile));
        assert(other_desired.contains(profile));
        let j = choose|j: int| 0 <= j < other_desired.len() && other_desired[j] == profile;
        lemma_applied_elsewhere(profile, other_applied, applied);
        assert(!is_applied(other_desired[j], other_applied));
    }
}

proof fn lemma_desired_elsewhere(profile: Profile, left: Seq<Profile>, right: Seq<Profile>)
    requires
        forall|item: Profile| #[trigger] left.contains(item) <==> right.contains(item),
    ensures
        is_desired(profile, left) ==> is_desired(profile, right),
{
    if is_desired(profile, left) {
        let k = choose|k: int| 0 <= k < left.len() && same_profile(profile, #[trigger] left[k]);
        assert(left.contains(left[k]));
        assert(right.contains(left[k]));
        let j = choose|j: int| 0 <= j < right.len() && right[j] == left[k];
        assert(same_profile(profile, right[j]));
    }
}

proof fn lemma_applied_elsewhere(profile: Profile, left: Seq<Profile>, right: Seq<Profile>)
    requires
        forall|item: Profile| #[trigger] left.contains(item) <==> right.contains(item),
    ensures
        is_applied(profile, left) ==> is_applied(profile, right),
{
    if is_applied(profile, left) {
        let k = choose|k: int| 0 <= k < left.len() && same_profile(#[trigger] left[k], profile);
        assert(left.contains(left[k]));
        assert(right.contains(left[k]));
        let j = choose|j: int| 0 <= j < right.len() && right[j] == left[k];
        assert(same_profile(right[j], profile));
    }
}

/// It does not matter for the overview in which order profiles are desired and applied.
pub proof fn overview_ignores_the_order(
    desired: Seq<Profile>,
    applied: Seq<Profile>,
    other_desired: Seq<Profile>,
    other_applied: Seq<Profile>,
)
    requires
        distinct_ids(desired),
        distinct_ids(applied),
        desired.to_multiset() == other_desired.to_multiset(),
        applied.to_multiset() == other_applied.to_multiset(),
    ensures
        supervised(other_desired, other_applied) == supervised(desired, applied),
{
    let left = entered_all(applied_lines(applied), desired, desired.len());
    let right = entered_all(applied_lines(other_applied), other_desired, other_desired.len());
    lemma_distinct_elsewhere(desired, other_desired);
    lemma_distinct_elsewhere(applied, other_applied);
    lemma_lines(desired, applied);
    lemma_lines(other_desired, other_applied);
    assert forall|line: Supervised| #[trigger] left.contains(line) <==> right.contains(line) by {
        if belongs(line, desired, applied) {
            lemma_belongs_elsewhere(line, desired, applied, other_desired, other_applied);
        }
        if belongs(line, other_desired, other_applied) {
            lemma_belongs_elsewhere(line, other_desired, other_applied, desired, applied);
        }
    }
    lemma_same_length(left, right);
    lemma_by_line();
    arranging_forgets_places(left, right, by_line());
}

} // verus!
