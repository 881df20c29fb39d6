//! Facts about filtered sequences.
use vstd::prelude::*;

verus! {

/// A filtered sequence holds exactly the wanted members.
pub proof fn filter_members<A>(items: Seq<A>, wanted: spec_fn(A) -> bool)
    ensures
        forall|i: int|
            0 <= i < items.filter(wanted).len() ==> wanted(#[trigger] items.filter(wanted)[i])
                && items.contains(items.filter(wanted)[i]),
        forall|i: int|
            0 <= i < items.len() && wanted(items[i]) ==> items.filter(wanted).contains(
                #[trigger] items[i],
            ),
    decreases items.len(),
{
    reveal(Seq::filter);
    if items.len() > 0 {
        let before = items.drop_last();
        filter_members(before, wanted);
        let kept = items.filter(wanted);
        let earlier = before.filter(wanted);
        assert forall|i: int| 0 <= i < kept.len() implies wanted(#[trigger] kept[i])
            && items.contains(kept[i]) by {
            if i < earlier.len() {
                assert(kept[i] == earlier[i]);
                let k = choose|k: int| 0 <= k < before.len() && before[k] == earlier[i];
                assert(items[k] == kept[i]);
            } else {
                assert(kept[i] == items.last());
                assert(items[items.len() - 1] == kept[i]);
            }
        }
        assert forall|i: int| 0 <= i < items.len() && wanted(items[i]) implies kept.contains(
            #[trigger] items[i],
        ) by {
            if i < before.len() {
                assert(before[i] == items[i]);
                assert(earlier.contains(before[i]));
                let k = choose|k: int| 0 <= k < earlier.len() && earlier[k] == before[i];
                assert(kept[k] == items[i]);
            } else {
                assert(kept[kept.len() - 1] == items[i]);
            }
        }
    }
}

/// Filtering by a stronger condition afterwards is filtering by it at once.
pub proof fn filter_of_filter<A>(
    items: Seq<A>,
    first: spec_fn(A) -> bool,
    second: spec_fn(A) -> bool,
)
    requires
        forall|item: A| #[trigger] second(item) ==> first(item),
    ensures
        items.filter(first).filter(second) == items.filter(second),
    decreases items.len(),
{
    reveal(Seq::filter);
    if items.len() > 0 {
        let before = items.drop_last();
        filter_of_filter(before, first, second);
        if first(items.last()) {
            let kept = before.filter(first).push(items.last());
            assert(kept.drop_last() =~= before.filter(first));
        }
    }
}

/// Filtering by a condition that begins to hold at some place cuts there.
pub proof fn filter_suffix<A>(items: Seq<A>, wanted: spec_fn(A) -> bool, count: int)
    requires
        0 <= count <= items.len(),
        forall|i: int| 0 <= i < items.len() ==> wanted(#[trigger] items[i]) == (i >= count),
    ensures
        items.filter(wanted) == items.skip(count),
    decreases items.len(),
{
    reveal(Seq::filter);
    if items.len() > 0 {
        let before = items.drop_last();
        if count == items.len() {
            filter_suffix(before, wanted, count - 1);
            assert(before.skip(count - 1) =~= items.skip(count - 1).drop_last());
            assert(!wanted(items[items.len() - 1]));
            assert(items.skip(count) =~= Seq::<A>::empty());
            filter_none(items, wanted);
        } else {
            filter_suffix(before, wanted, count);
            assert(wanted(items[items.len() - 1]));
            assert(before.skip(count).push(items.last()) =~= items.skip(count));
        }
    } else {
        assert(items.filter(wanted) =~= items.skip(count));
    }
}

pub proof fn filter_none<A>(items: Seq<A>, wanted: spec_fn(A) -> bool)
    requires
        forall|i: int| 0 <= i < items.len() ==> !wanted(#[trigger] items[i]),
    ensures
        items.filter(wanted) == Seq::<A>::empty(),
    decreases items.len(),
{
    reveal(Seq::filter);
    if items.len() > 0 {
        let before = items.drop_last();
        assert forall|i: int| 0 <= i < before.len() implies !wanted(#[trigger] before[i]) by {
            assert(before[i] == items[i]);
        }
        filter_none(before, wanted);
        assert(!wanted(items[items.len() - 1]));
    } else {
        assert(items.filter(wanted) =~= Seq::<A>::empty());
    }
}

} // verus!
