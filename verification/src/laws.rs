//! What holds of the operations taken together.

use crate::listing::{keyed, ordered};
use crate::measure::Measure;
use crate::query::{
    elsewhere, insert_newest_first_place, matching, matching_is_exact, newest_first, recent,
    Filter,
};
use crate::record::{assemble, level_of, PayloadView, RecordView, WeatherData};
use crate::store::StoreState;
use vstd::prelude::*;
use vstd::seq_lib::*;

verus! {

/// One change to a store.
pub enum Step {
    /// A new observation is stored.
    Create { payload: PayloadView, now: u64 },
    /// The observation under an identifier is replaced.
    Update { id: u64, payload: PayloadView, now: u64 },
    /// The observation under an identifier is taken out.
    Delete { id: u64 },
    /// The observations made at a location are taken out.
    DeleteAt { location: Seq<char> },
}

/// The store after one change. A change that cannot be made, because no
/// identifier is left or because there is nothing under the identifier,
/// leaves the store as it is.
pub open spec fn step(s: StoreState, change: Step) -> StoreState {
    match change {
        Step::Create { payload, now } => if s.next_id < u64::MAX {
            s.with_new(payload, now)
        } else {
            s
        },
        Step::Update { id, payload, now } => if s.lookup(id) is Some {
            s.with_update(id, payload, now)
        } else {
            s
        },
        Step::Delete { id } => s.without(id),
        Step::DeleteAt { location } => StoreState {
            records: elsewhere(s.records, location),
            ..s
        },
    }
}

/// The store after a run of changes.
pub open spec fn run(start: StoreState, changes: Seq<Step>) -> StoreState
    decreases changes.len(),
{
    if changes.len() == 0 {
        start
    } else {
        step(run(start, changes.drop_last()), changes.last())
    }
}

/// Every change keeps a store well-formed, and never moves the counter back.
pub proof fn step_keeps_wf(s: StoreState, change: Step)
    requires
        s.wf(),
    ensures
        step(s, change).wf(),
        step(s, change).next_id >= s.next_id,
{
}

/// Every run of changes keeps a store well-formed, and never moves the
/// counter back.
pub proof fn run_keeps_wf(start: StoreState, changes: Seq<Step>)
    requires
        start.wf(),
    ensures
        run(start, changes).wf(),
        run(start, changes).next_id >= start.next_id,
    decreases changes.len(),
{
    if changes.len() > 0 {
        run_keeps_wf(start, changes.drop_last());
        step_keeps_wf(run(start, changes.drop_last()), changes.last());
    }
}

/// The counter stands no lower after a longer part of a run than after a
/// shorter one.
pub proof fn counter_grows(start: StoreState, changes: Seq<Step>, i: int, j: int)
    requires
        start.wf(),
        0 <= i <= j <= changes.len(),
    ensures
        run(start, changes.take(i)).next_id <= run(start, changes.take(j)).next_id,
    decreases j - i,
{
    if i < j {
        counter_grows(start, changes, i, j - 1);
        assert(changes.take(j).drop_last() =~= changes.take(j - 1));
        run_keeps_wf(start, changes.take(j - 1));
        step_keeps_wf(run(start, changes.take(j - 1)), changes.take(j).last());
    }
}

/// Identifiers are issued in strictly increasing order, whatever else is done
/// to the store in between: of two creations in a run of changes, the later
/// of which still finds an identifier, the earlier gets the smaller one. So
/// no identifier is issued twice, also not that of an observation that has
/// been taken out. (A creation that is change `k` of a run gets the
/// identifier at which the counter stands after the first `k` changes.)
pub proof fn created_ids_increase(start: StoreState, changes: Seq<Step>, i: int, j: int)
    requires
        start.wf(),
        0 <= i < j < changes.len(),
        changes[i] is Create,
        changes[j] is Create,
        run(start, changes.take(j)).next_id < u64::MAX,
    ensures
        run(start, changes.take(i)).next_id < run(start, changes.take(j)).next_id,
{
    counter_grows(start, changes, i, j);
    counter_grows(start, changes, i + 1, j);
    assert(changes.take(i + 1).drop_last() =~= changes.take(i));
    assert(changes.take(i + 1).last() == changes[i]);
}

/// The identifier that a creation gets is not in use.
pub proof fn created_id_is_fresh(s: StoreState)
    requires
        s.wf(),
    ensures
        s.lookup(s.next_id) is None,
{
}

/// A new observation is found under its identifier as it was stored, and
/// the observations under other identifiers are as they were.
pub proof fn lookup_after_create(s: StoreState, payload: PayloadView, now: u64, other: u64)
    requires
        s.next_id < u64::MAX,
        other != s.next_id,
    ensures
        s.with_new(payload, now).lookup(s.next_id) == Some(assemble(s.next_id, payload, now)),
        s.with_new(payload, now).lookup(other) == s.lookup(other),
{
}

/// Nothing is found under an identifier whose observation has been taken
/// out, and the observations under other identifiers are as they were.
pub proof fn lookup_after_delete(s: StoreState, id: u64, other: u64)
    requires
        other != id,
    ensures
        s.without(id).lookup(id) is None,
        s.without(id).lookup(other) == s.lookup(other),
{
}

/// An update keeps the identifier, takes every field that the payload gives
/// from the payload, sets the timestamp to the time of the update, and stores
/// no readings and calm weather where the payload leaves them out. The
/// timestamp does not go back where the clock has not.
pub proof fn update_replaces(s: StoreState, id: u64, payload: PayloadView, now: u64)
    requires
        s.lookup(id) is Some,
    ensures
        ({
            let r = s.with_update(id, payload, now).lookup(id)->0;
            &&& s.with_update(id, payload, now).lookup(id) is Some
            &&& r.id == id
            &&& r.location == payload.location
            &&& r.air_quality_index == payload.air_quality_index
            &&& r.health_recommendations == payload.health_recommendations
            &&& r.timestamp == now
            &&& now >= s.lookup(id)->0.timestamp ==> r.timestamp >= s.lookup(id)->0.timestamp
            &&& payload.pollutant_levels is Some ==> r.pollutant_levels
                == payload.pollutant_levels->0
            &&& payload.pollutant_levels is None ==> r.pollutant_levels == Seq::<
                (Seq<char>, Measure),
            >::empty()
            &&& payload.weather_conditions is Some ==> r.weather_conditions
                == payload.weather_conditions->0
            &&& payload.weather_conditions is None ==> r.weather_conditions == WeatherData::calm()
        }),
{
}

/// A scan of a store in which the filter admits nothing finds nothing.
pub proof fn nothing_admitted_nothing_found(records: Map<u64, RecordView>, filter: &Filter)
    requires
        keyed(records),
        forall|id: u64| #[trigger] records.contains_key(id) ==> !filter.admits(records[id]),
    ensures
        matching(ordered(records), filter) == Seq::<RecordView>::empty(),
{
    let found = matching(ordered(records), filter);
    if found.len() > 0 {
        matching_is_exact(records, filter, found[0]);
        assert(found.contains(found[0]));
    }
    assert(found =~= Seq::<RecordView>::empty());
}

/// A scan of an empty store finds nothing.
pub proof fn nothing_found_in_empty_store(filter: &Filter)
    ensures
        matching(ordered(Map::<u64, RecordView>::empty()), filter) == Seq::<RecordView>::empty(),
{
    nothing_admitted_nothing_found(Map::<u64, RecordView>::empty(), filter);
}

/// An observation without a reading for a pollutant is not among those with
/// a level of that pollutant in a range, whatever the range.
pub proof fn absent_pollutant_is_excluded(
    records: Map<u64, RecordView>,
    pollutant: String,
    min_level: Measure,
    max_level: Measure,
    r: RecordView,
)
    requires
        keyed(records),
        level_of(r.pollutant_levels, pollutant@) is None,
    ensures
        !matching(
            ordered(records),
            &(Filter::Pollutant { pollutant, min_level, max_level }),
        ).contains(r),
{
    matching_is_exact(records, &(Filter::Pollutant { pollutant, min_level, max_level }), r);
}

/// Taking out the observations made at a location takes out exactly those:
/// afterwards nothing is found under the identifier of any of them, and every
/// other observation is found as it was.
pub proof fn delete_at_takes_exactly(records: Map<u64, RecordView>, location: Seq<char>, id: u64)
    requires
        records.contains_key(id),
    ensures
        records[id].location == location ==> !elsewhere(records, location).contains_key(id),
        records[id].location != location ==> elsewhere(records, location).contains_key(id)
            && elsewhere(records, location)[id] == records[id],
        elsewhere(records, location).dom().subset_of(records.dom()),
{
}

/// Whether the newest come first.
pub open spec fn newest_come_first(records: Seq<RecordView>) -> bool {
    forall|i: int, j: int|
        0 <= i < j < records.len() ==> (#[trigger] records[i]).timestamp >= (
        #[trigger] records[j]).timestamp
}

/// Whether the newest come first and, among observations of one timestamp,
/// the smaller identifier.
pub open spec fn newest_then_smallest_id_first(records: Seq<RecordView>) -> bool {
    forall|i: int, j: int|
        0 <= i < j < records.len() ==> (#[trigger] records[i]).timestamp > (
        #[trigger] records[j]).timestamp || (records[i].timestamp == records[j].timestamp
            && records[i].id < records[j].id)
}

/// Whether the identifiers grow strictly.
pub open spec fn ids_ascend(records: Seq<RecordView>) -> bool {
    forall|i: int, j: int|
        0 <= i < j < records.len() ==> (#[trigger] records[i]).id < (#[trigger] records[j]).id
}

/// Ordering with the newest first rearranges the observations: it neither
/// drops nor adds nor repeats any, and in the result the newest come first.
pub proof fn newest_first_rearranges(records: Seq<RecordView>)
    ensures
        newest_first(records).len() == records.len(),
        newest_first(records).to_multiset() == records.to_multiset(),
        newest_come_first(newest_first(records)),
        forall|i: int|
            0 <= i < newest_first(records).len() ==> records.contains(
                #[trigger] newest_first(records)[i],
            ),
    decreases records.len(),
{
    broadcast use group_to_multiset_ensures;

    let out = newest_first(records);
    if records.len() == 0 {
        assert(out.to_multiset() =~= records.to_multiset());
    } else {
        let front = records.drop_last();
        let last = records.last();
        let sorted = newest_first(front);
        newest_first_rearranges(front);
        let p = insert_newest_first_place(sorted, last);
        assert(out == sorted.insert(p, last));
        assert(records =~= front.push(last));
        assert(out.to_multiset() =~= records.to_multiset()) by {
            assert(out.remove(p) =~= sorted);
            assert(out.remove(p).to_multiset() =~= out.to_multiset().remove(out[p]));
            assert(records.to_multiset() =~= front.to_multiset().insert(last));
            assert(out.to_multiset().count(last) > 0) by {
                assert(out.contains(out[p]));
            }
        }
        assert forall|i: int, j: int| 0 <= i < j < out.len() implies (#[trigger] out[i]).timestamp
            >= (#[trigger] out[j]).timestamp by {
            if j < p {
                assert(sorted[i].timestamp >= sorted[j].timestamp);
            } else if j == p {
                if i < p - 1 {
                    assert(sorted[i].timestamp >= sorted[p - 1].timestamp);
                }
            } else if i < p {
                assert(sorted[i].timestamp >= sorted[j - 1].timestamp);
            } else if i == p {
                assert(sorted[j - 1].timestamp < last.timestamp);
            } else {
                assert(sorted[i - 1].timestamp >= sorted[j - 1].timestamp);
            }
        }
        assert forall|i: int| 0 <= i < out.len() implies records.contains(#[trigger] out[i]) by {
            if i < p {
                assert(front.contains(sorted[i]));
                let k = choose|k: int| 0 <= k < front.len() && front[k] == sorted[i];
                assert(records[k] == out[i]);
            } else if i == p {
                assert(records[records.len() - 1] == out[i]);
            } else {
                assert(front.contains(sorted[i - 1]));
                let k = choose|k: int| 0 <= k < front.len() && front[k] == sorted[i - 1];
                assert(records[k] == out[i]);
            }
        }
    }
}

/// Ordering with the newest first keeps observations of one timestamp in the
/// order they had: where the identifiers grew, the smaller identifier comes
/// first among them.
pub proof fn newest_first_breaks_ties_by_id(records: Seq<RecordView>)
    requires
        ids_ascend(records),
    ensures
        newest_then_smallest_id_first(newest_first(records)),
    decreases records.len(),
{
    let out = newest_first(records);
    if records.len() > 0 {
        let front = records.drop_last();
        let last = records.last();
        let sorted = newest_first(front);
        assert(ids_ascend(front)) by {
            assert forall|i: int, j: int| 0 <= i < j < front.len() implies (#[trigger] front[i]).id
                < (#[trigger] front[j]).id by {
                assert(records[i].id < records[j].id);
            }
        }
        newest_first_breaks_ties_by_id(front);
        newest_first_rearranges(front);
        let p = insert_newest_first_place(sorted, last);
        assert forall|k: int| 0 <= k < sorted.len() implies (#[trigger] sorted[k]).id
            < last.id by {
            assert(front.contains(sorted[k]));
            let m = choose|m: int| 0 <= m < front.len() && front[m] == sorted[k];
            assert(records[m].id < records[records.len() - 1].id);
        }
        assert forall|i: int, j: int| 0 <= i < j < out.len() implies (#[trigger] out[i]).timestamp
            > (#[trigger] out[j]).timestamp || (out[i].timestamp == out[j].timestamp && out[i].id
            < out[j].id) by {
            if j < p {
                assert(sorted[i].timestamp > sorted[j].timestamp || (sorted[i].timestamp
                    == sorted[j].timestamp && sorted[i].id < sorted[j].id));
            } else if j == p {
                assert(sorted[i].id < last.id);
                if i < p - 1 {
                    assert(sorted[i].timestamp >= sorted[p - 1].timestamp);
                }
            } else if i < p {
                assert(sorted[i].timestamp > sorted[j - 1].timestamp || (sorted[i].timestamp
                    == sorted[j - 1].timestamp && sorted[i].id < sorted[j - 1].id));
            } else if i == p {
                assert(sorted[j - 1].timestamp < last.timestamp);
            } else {
                assert(sorted[i - 1].timestamp > sorted[j - 1].timestamp || (sorted[i
                    - 1].timestamp == sorted[j - 1].timestamp && sorted[i - 1].id < sorted[j
                    - 1].id));
            }
        }
    }
}

/// Asked for none, the newest observations are none; asked for as many as
/// there are or more, they are all of them with the newest first; asked for
/// fewer, they are that many from the front of that order.
pub proof fn recent_takes_from_the_front(records: Seq<RecordView>, n: nat)
    ensures
        recent(records, 0) == Seq::<RecordView>::empty(),
        n >= records.len() ==> recent(records, n) == newest_first(records),
        n <= records.len() ==> recent(records, n).len() == n,
        forall|i: int|
            0 <= i < recent(records, n).len() ==> #[trigger] recent(records, n)[i] == newest_first(
                records,
            )[i],
{
    newest_first_rearranges(records);
    assert(recent(records, 0) =~= Seq::<RecordView>::empty());
    if n >= records.len() {
        assert(recent(records, n) =~= newest_first(records));
    }
}

} // verus!
