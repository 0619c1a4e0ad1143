//! The order in which the observations of a store are listed: ascending by
//! identifier.

use crate::record::{AirQualityData, RecordView};
use vstd::prelude::*;

verus! {

/// One more than the largest identifier.
pub open spec fn id_limit() -> nat {
    0x1_0000_0000_0000_0000
}

/// The mathematical values of a run of observations.
pub open spec fn views(records: Seq<AirQualityData>) -> Seq<RecordView> {
    Seq::new(records.len(), |i: int| records[i]@)
}

/// Every observation is kept under its own identifier.
pub open spec fn keyed(records: Map<u64, RecordView>) -> bool {
    forall|id: u64| #[trigger] records.contains_key(id) ==> records[id].id == id
}

/// The observations kept under the identifiers below `bound`, in ascending
/// order of identifier.
pub open spec fn ordered_below(records: Map<u64, RecordView>, bound: nat) -> Seq<RecordView>
    decreases bound,
{
    if bound == 0 {
        Seq::empty()
    } else {
        let before = ordered_below(records, (bound - 1) as nat);
        if bound <= id_limit() && records.contains_key((bound - 1) as u64) {
            before.push(records[(bound - 1) as u64])
        } else {
            before
        }
    }
}

/// All observations, in ascending order of identifier.
pub open spec fn ordered(records: Map<u64, RecordView>) -> Seq<RecordView> {
    ordered_below(records, id_limit())
}

/// Whether `list` holds the observations of `records` in ascending order of
/// identifier: the identifiers grow strictly, every member is kept under its
/// identifier, and every identifier that is kept occurs.
pub open spec fn lists_records(list: Seq<RecordView>, records: Map<u64, RecordView>) -> bool {
    &&& forall|i: int, j: int|
        0 <= i < j < list.len() ==> (#[trigger] list[i]).id < (#[trigger] list[j]).id
    &&& forall|i: int|
        0 <= i < list.len() ==> records.contains_key((#[trigger] list[i]).id)
            && records[list[i].id] == list[i]
    &&& forall|id: u64| #[trigger]
        records.contains_key(id) ==> exists|i: int|
            0 <= i < list.len() && (#[trigger] list[i]).id == id
}

/// `ordered_below` holds exactly the observations under the identifiers below
/// the bound, in ascending order.
pub proof fn ordered_below_lists(records: Map<u64, RecordView>, bound: nat)
    requires
        keyed(records),
        bound <= id_limit(),
    ensures
        lists_records(
            ordered_below(records, bound),
            records.restrict(Set::new(|id: u64| id < bound)),
        ),
        forall|i: int|
            0 <= i < ordered_below(records, bound).len() ==> (#[trigger] ordered_below(
                records,
                bound,
            )[i]).id < bound,
    decreases bound,
{
    let list = ordered_below(records, bound);
    let kept = records.restrict(Set::new(|id: u64| id < bound));
    if bound > 0 {
        let top = (bound - 1) as u64;
        let before = ordered_below(records, (bound - 1) as nat);
        let kept_before = records.restrict(Set::new(|id: u64| id < bound - 1));
        ordered_below_lists(records, (bound - 1) as nat);
        assert forall|i: int| 0 <= i < list.len() implies kept.contains_key((#[trigger] list[i]).id)
            && kept[list[i].id] == list[i] && list[i].id < bound by {
            if i < before.len() {
                assert(kept_before.contains_key(before[i].id));
            }
        }
        assert forall|id: u64| #[trigger] kept.contains_key(id) implies exists|i: int|
            0 <= i < list.len() && (#[trigger] list[i]).id == id by {
            if id == top {
                assert(list[list.len() - 1].id == id);
            } else {
                assert(kept_before.contains_key(id));
                let i = choose|i: int| 0 <= i < before.len() && (#[trigger] before[i]).id == id;
                assert(list[i].id == id);
            }
        }
    }
}

/// The observations of a store are listed in ascending order of identifier in
/// one way only.
pub proof fn listing_is_unique(
    a: Seq<RecordView>,
    b: Seq<RecordView>,
    records: Map<u64, RecordView>,
)
    requires
        lists_records(a, records),
        lists_records(b, records),
    ensures
        a == b,
    decreases a.len(),
{
    if a.len() == 0 {
        if b.len() > 0 {
            assert(records.contains_key(b[0].id));
        }
        assert(a =~= b);
    } else {
        let last_a = a.last();
        assert(records.contains_key(last_a.id));
        let j = choose|j: int| 0 <= j < b.len() && (#[trigger] b[j]).id == last_a.id;
        let last_b = b.last();
        assert(records.contains_key(last_b.id));
        let i = choose|i: int| 0 <= i < a.len() && (#[trigger] a[i]).id == last_b.id;
        assert(last_a.id <= last_b.id) by {
            if j < b.len() - 1 {
                assert(b[j].id < b[b.len() - 1].id);
            }
        }
        assert(last_b.id <= last_a.id) by {
            if i < a.len() - 1 {
                assert(a[i].id < a[a.len() - 1].id);
            }
        }
        assert(last_a == last_b);
        let rest = records.remove(last_a.id);
        let front_a = a.drop_last();
        let front_b = b.drop_last();
        assert(lists_records(front_a, rest)) by {
            assert forall|k: int| 0 <= k < front_a.len() implies rest.contains_key(
                (#[trigger] front_a[k]).id,
            ) && rest[front_a[k].id] == front_a[k] by {
                assert(a[k].id < a[a.len() - 1].id);
            }
            assert forall|id: u64| #[trigger] rest.contains_key(id) implies exists|k: int|
                0 <= k < front_a.len() && (#[trigger] front_a[k]).id == id by {
                assert(records.contains_key(id));
                let k = choose|k: int| 0 <= k < a.len() && (#[trigger] a[k]).id == id;
                assert(front_a[k].id == id);
            }
        }
        assert(lists_records(front_b, rest)) by {
            assert forall|k: int| 0 <= k < front_b.len() implies rest.contains_key(
                (#[trigger] front_b[k]).id,
            ) && rest[front_b[k].id] == front_b[k] by {
                assert(b[k].id < b[b.len() - 1].id);
            }
            assert forall|id: u64| #[trigger] rest.contains_key(id) implies exists|k: int|
                0 <= k < front_b.len() && (#[trigger] front_b[k]).id == id by {
                assert(records.contains_key(id));
                let k = choose|k: int| 0 <= k < b.len() && (#[trigger] b[k]).id == id;
                assert(front_b[k].id == id);
            }
        }
        listing_is_unique(front_a, front_b, rest);
        assert(a =~= front_a.push(last_a));
        assert(b =~= front_b.push(last_b));
    }
}

/// `ordered` holds exactly the observations of the store, in ascending order
/// of identifier.
pub proof fn ordered_lists(records: Map<u64, RecordView>)
    requires
        keyed(records),
    ensures
        lists_records(ordered(records), records),
{
    ordered_below_lists(records, id_limit());
    assert(records.restrict(Set::new(|id: u64| id < id_limit())) =~= records);
}

/// A list of the observations in ascending order of identifier is `ordered`.
pub proof fn listing_is_ordered(list: Seq<RecordView>, records: Map<u64, RecordView>)
    requires
        lists_records(list, records),
    ensures
        list == ordered(records),
{
    assert(keyed(records)) by {
        assert forall|id: u64| #[trigger] records.contains_key(id) implies records[id].id == id by {
            let i = choose|i: int| 0 <= i < list.len() && (#[trigger] list[i]).id == id;
            assert(records[list[i].id] == list[i]);
        }
    }
    ordered_lists(records);
    listing_is_unique(list, ordered(records), records);
}

} // verus!
