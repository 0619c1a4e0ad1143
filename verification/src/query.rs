//! The queries: scans of the whole store, in ascending order of identifier,
//! that keep what a filter admits.

use crate::listing::{keyed, ordered, ordered_lists, views};
use crate::measure::Measure;
use crate::record::{level_of, AirQualityData, Error, RecordView};
use crate::store::AirQualityStore;
use crate::text::{contains, is_substring, join2};
use vstd::prelude::*;
use vstd::string::*;

verus! {

/// What a scan keeps.
#[derive(Debug, PartialEq)]
pub enum Filter {
    /// Every observation.
    Everything,
    /// The observations whose location holds the text, character for
    /// character, somewhere within it.
    LocationContains(String),
    /// The observations whose location is the text.
    LocationIs(String),
    /// The observations whose temperature, humidity and wind speed each lie
    /// in their closed range.
    Weather {
        min_temperature: Measure,
        max_temperature: Measure,
        min_humidity: Measure,
        max_humidity: Measure,
        min_wind_speed: Measure,
        max_wind_speed: Measure,
    },
    /// The observations that have a reading for the pollutant, with a level
    /// in the closed range.
    Pollutant { pollutant: String, min_level: Measure, max_level: Measure },
    /// The observations whose timestamp lies in the closed range.
    Timestamp { start_timestamp: u64, end_timestamp: u64 },
}

impl Filter {
    /// Whether the filter keeps the observation.
    pub open spec fn admits(&self, r: RecordView) -> bool {
        match self {
            Filter::Everything => true,
            Filter::LocationContains(text) => is_substring(text@, r.location),
            Filter::LocationIs(text) => r.location == text@,
            Filter::Weather {
                min_temperature,
                max_temperature,
                min_humidity,
                max_humidity,
                min_wind_speed,
                max_wind_speed,
            } => {
                &&& r.weather_conditions.temperature.within(*min_temperature, *max_temperature)
                &&& r.weather_conditions.humidity.within(*min_humidity, *max_humidity)
                &&& r.weather_conditions.wind_speed.within(*min_wind_speed, *max_wind_speed)
            },
            Filter::Pollutant { pollutant, min_level, max_level } => match level_of(
                r.pollutant_levels,
                pollutant@,
            ) {
                Some(level) => level.within(*min_level, *max_level),
                None => false,
            },
            Filter::Timestamp { start_timestamp, end_timestamp } => *start_timestamp <= r.timestamp
                <= *end_timestamp,
        }
    }

    /// Decides whether the filter keeps the observation.
    pub fn keeps(&self, record: &AirQualityData) -> (r: bool)
        ensures
            r == self.admits(record@),
    {
        match self {
            Filter::Everything => true,
            Filter::LocationContains(text) => contains(record.location.as_str(), text.as_str()),
            Filter::LocationIs(text) => record.location == *text,
            Filter::Weather {
                min_temperature,
                max_temperature,
                min_humidity,
                max_humidity,
                min_wind_speed,
                max_wind_speed,
            } => {
                let weather = &record.weather_conditions;
                weather.temperature.in_range(min_temperature, max_temperature)
                    && weather.humidity.in_range(min_humidity, max_humidity)
                    && weather.wind_speed.in_range(min_wind_speed, max_wind_speed)
            },
            Filter::Pollutant { pollutant, min_level, max_level } => {
                match record.pollutant_levels.get(pollutant) {
                    Some(level) => level.in_range(min_level, max_level),
                    None => false,
                }
            },
            Filter::Timestamp { start_timestamp, end_timestamp } => record.timestamp
                >= *start_timestamp && record.timestamp <= *end_timestamp,
        }
    }
}

/// The members of `records` that the filter admits, in their order.
pub open spec fn matching(records: Seq<RecordView>, filter: &Filter) -> Seq<RecordView> {
    records.filter(|r: RecordView| filter.admits(r))
}

/// An observation is among those that a scan of the store finds exactly if
/// the store keeps it and the filter admits it.
pub proof fn matching_is_exact(records: Map<u64, RecordView>, filter: &Filter, r: RecordView)
    requires
        keyed(records),
    ensures
        matching(ordered(records), filter).contains(r) <==> records.contains_key(r.id)
            && records[r.id] == r && filter.admits(r),
{
    let all = ordered(records);
    let admits = |r: RecordView| filter.admits(r);
    ordered_lists(records);
    if all.filter(admits).contains(r) {
        all.lemma_filter_contains_rev(admits, r);
        let i = choose|i: int| 0 <= i < all.filter(admits).len() && all.filter(admits)[i] == r;
        all.lemma_filter_pred(admits, i);
        let j = choose|j: int| 0 <= j < all.len() && all[j] == r;
        assert(records.contains_key(all[j].id));
    }
    if records.contains_key(r.id) && records[r.id] == r && filter.admits(r) {
        let j = choose|j: int| 0 <= j < all.len() && (#[trigger] all[j]).id == r.id;
        assert(records[all[j].id] == all[j]);
        all.lemma_filter_contains(admits, j);
    }
}

/// `sorted` with `r` put behind every member that is at least as new as `r`.
pub open spec fn insert_newest_first(sorted: Seq<RecordView>, r: RecordView) -> Seq<RecordView>
    decreases sorted.len(),
{
    if sorted.len() == 0 {
        seq![r]
    } else if sorted.last().timestamp >= r.timestamp {
        sorted.push(r)
    } else {
        insert_newest_first(sorted.drop_last(), r).push(sorted.last())
    }
}

/// The members of `records` with the newest first; members of one timestamp
/// keep their order.
pub open spec fn newest_first(records: Seq<RecordView>) -> Seq<RecordView>
    decreases records.len(),
{
    if records.len() == 0 {
        Seq::empty()
    } else {
        insert_newest_first(newest_first(records.drop_last()), records.last())
    }
}

/// The `n` newest members of `records`, newest first, or all of them where
/// there are no more than `n`.
pub open spec fn recent(records: Seq<RecordView>, n: nat) -> Seq<RecordView> {
    let sorted = newest_first(records);
    if n <= sorted.len() {
        sorted.take(n as int)
    } else {
        sorted
    }
}

/// Where `r` goes when it is put into `sorted`: behind every member that is
/// at least as new, and before the members that are older.
pub proof fn insert_newest_first_place(sorted: Seq<RecordView>, r: RecordView) -> (p: int)
    ensures
        0 <= p <= sorted.len(),
        insert_newest_first(sorted, r) == sorted.insert(p, r),
        forall|k: int| p <= k < sorted.len() ==> (#[trigger] sorted[k]).timestamp < r.timestamp,
        p > 0 ==> sorted[p - 1].timestamp >= r.timestamp,
    decreases sorted.len(),
{
    if sorted.len() == 0 {
        assert(sorted.insert(0, r) =~= seq![r]);
        0
    } else if sorted.last().timestamp >= r.timestamp {
        assert(sorted.insert(sorted.len() as int, r) =~= sorted.push(r));
        sorted.len() as int
    } else {
        let front = sorted.drop_last();
        let p = insert_newest_first_place(front, r);
        assert(front.insert(p, r).push(sorted.last()) =~= sorted.insert(p, r));
        assert forall|k: int| p <= k < sorted.len() implies (#[trigger] sorted[k]).timestamp
            < r.timestamp by {
            if k < front.len() {
                assert(front[k] == sorted[k]);
            }
        }
        p
    }
}

/// The sum of the air-quality indexes of `records`.
pub open spec fn index_sum(records: Seq<RecordView>) -> nat
    decreases records.len(),
{
    if records.len() == 0 {
        0
    } else {
        index_sum(records.drop_last()) + records.last().air_quality_index as nat
    }
}

/// An average of air-quality indexes as an exact fraction: the sum of the
/// indexes over their number, which is not zero.
#[derive(Clone, Copy, Debug, PartialEq, Eq, Structural)]
pub struct IndexAverage {
    pub sum: u128,
    pub count: u64,
}

/// The text that reports that no observation was made at `location`.
pub open spec fn nowhere_text(location: Seq<char>) -> Seq<char> {
    "No data found for location "@ + location
}

/// The observations that were made elsewhere than at `location`.
pub open spec fn elsewhere(records: Map<u64, RecordView>, location: Seq<char>) -> Map<
    u64,
    RecordView,
> {
    Map::new(
        |id: u64| records.contains_key(id) && records[id].location != location,
        |id: u64| records[id],
    )
}

/// The name of the tier that an air-quality index falls in. Each tier ends
/// with its upper bound.
pub open spec fn tier_name(air_quality_index: u32) -> Seq<char> {
    if air_quality_index <= 50 {
        "good"@
    } else if air_quality_index <= 100 {
        "moderate"@
    } else if air_quality_index <= 150 {
        "unhealthy for sensitive groups"@
    } else if air_quality_index <= 200 {
        "unhealthy"@
    } else if air_quality_index <= 300 {
        "very unhealthy"@
    } else {
        "hazardous"@
    }
}

/// The name of the tier that an air-quality index falls in.
pub fn get_health_recommendations(air_quality_index: u32) -> (name: String)
    ensures
        name@ == tier_name(air_quality_index),
{
    let name = if air_quality_index <= 50 {
        "good"
    } else if air_quality_index <= 100 {
        "moderate"
    } else if air_quality_index <= 150 {
        "unhealthy for sensitive groups"
    } else if air_quality_index <= 200 {
        "unhealthy"
    } else if air_quality_index <= 300 {
        "very unhealthy"
    } else {
        "hazardous"
    };
    String::from_str(name)
}

fn place_of(sorted: &Vec<AirQualityData>, timestamp: u64) -> (p: usize)
    ensures
        p <= sorted.len(),
        forall|k: int| p <= k < sorted.len() ==> (#[trigger] sorted@[k]).timestamp < timestamp,
        p > 0 ==> sorted@[p - 1].timestamp >= timestamp,
{
    let mut p: usize = sorted.len();
    while p > 0 && sorted[p - 1].timestamp < timestamp
        invariant
            p <= sorted.len(),
            forall|k: int| p <= k < sorted.len() ==> (#[trigger] sorted@[k]).timestamp < timestamp,
        decreases p,
    {
        p -= 1;
    }
    p
}

impl AirQualityStore {
    /// The observations that the filter admits, in ascending order of
    /// identifier.
    pub fn search(&self, filter: &Filter) -> (found: Vec<AirQualityData>)
        requires
            self.wf(),
        ensures
            views(found@) == matching(ordered(self@.records), filter),
    {
        let all = self.iterate();
        let mut found: Vec<AirQualityData> = Vec::new();
        let mut i: usize = 0;
        proof {
            reveal(Seq::filter);
            assert(views(all@).take(0) =~= Seq::<RecordView>::empty());
            assert(views(found@) =~= matching(views(all@).take(0), filter));
        }
        while i < all.len()
            invariant
                i <= all.len(),
                views(found@) == matching(views(all@).take(i as int), filter),
            decreases all.len() - i,
        {
            proof {
                reveal(Seq::filter);
                let next = views(all@).take(i + 1);
                assert(next.drop_last() =~= views(all@).take(i as int));
                assert(next.last() == all@[i as int]@);
            }
            if filter.keeps(&all[i]) {
                let ghost before = views(found@);
                found.push(all[i].clone());
                assert(views(found@) =~= before.push(all@[i as int]@));
            }
            i += 1;
        }
        assert(views(all@).take(all@.len() as int) =~= views(all@));
        found
    }

    /// Every observation, in ascending order of identifier.
    pub fn get_all_air_quality_data(&self) -> (found: Result<Vec<AirQualityData>, Error>)
        requires
            self.wf(),
        ensures
            found is Ok,
            views(found->Ok_0@) == ordered(self@.records),
    {
        Ok(self.iterate())
    }

    /// The observations whose location holds `location` within it, in
    /// ascending order of identifier.
    pub fn search_air_quality_data_by_location(&self, location: String) -> (found: Result<
        Vec<AirQualityData>,
        Error,
    >)
        requires
            self.wf(),
        ensures
            found is Ok,
            views(found->Ok_0@) == matching(
                ordered(self@.records),
                &Filter::LocationContains(location),
            ),
    {
        Ok(self.search(&Filter::LocationContains(location)))
    }

    /// The observations whose temperature, humidity and wind speed each lie
    /// in the given closed range, in ascending order of identifier.
    pub fn get_air_quality_data_by_weather_conditions(
        &self,
        min_temperature: Measure,
        max_temperature: Measure,
        min_humidity: Measure,
        max_humidity: Measure,
        min_wind_speed: Measure,
        max_wind_speed: Measure,
    ) -> (found: Result<Vec<AirQualityData>, Error>)
        requires
            self.wf(),
        ensures
            found is Ok,
            views(found->Ok_0@) == matching(
                ordered(self@.records),
                &(Filter::Weather {
                    min_temperature,
                    max_temperature,
                    min_humidity,
                    max_humidity,
                    min_wind_speed,
                    max_wind_speed,
                }),
            ),
    {
        Ok(
            self.search(
                &Filter::Weather {
                    min_temperature,
                    max_temperature,
                    min_humidity,
                    max_humidity,
                    min_wind_speed,
                    max_wind_speed,
                },
            ),
        )
    }

    /// The observations that have a reading for `pollutant` with a level in
    /// the given closed range, in ascending order of identifier.
    pub fn get_air_quality_data_by_pollutant_level(
        &self,
        pollutant: String,
        min_level: Measure,
        max_level: Measure,
    ) -> (found: Result<Vec<AirQualityData>, Error>)
        requires
            self.wf(),
        ensures
            found is Ok,
            views(found->Ok_0@) == matching(
                ordered(self@.records),
                &(Filter::Pollutant { pollutant, min_level, max_level }),
            ),
    {
        Ok(self.search(&Filter::Pollutant { pollutant, min_level, max_level }))
    }

    /// The observations whose timestamp lies in the given closed range, in
    /// ascending order of identifier.
    pub fn get_air_quality_data_by_timestamp_range(
        &self,
        start_timestamp: u64,
        end_timestamp: u64,
    ) -> (found: Result<Vec<AirQualityData>, Error>)
        requires
            self.wf(),
        ensures
            found is Ok,
            views(found->Ok_0@) == matching(
                ordered(self@.records),
                &(Filter::Timestamp { start_timestamp, end_timestamp }),
            ),
    {
        Ok(self.search(&Filter::Timestamp { start_timestamp, end_timestamp }))
    }

    /// The `n` newest observations, newest first; observations of one
    /// timestamp come in ascending order of identifier.
    pub fn get_recent_air_quality_data(&self, n: usize) -> (found: Result<
        Vec<AirQualityData>,
        Error,
    >)
        requires
            self.wf(),
        ensures
            found is Ok,
            views(found->Ok_0@) == recent(ordered(self@.records), n as nat),
            found->Ok_0@.len() <= n,
    {
        let all = self.iterate();
        let mut sorted: Vec<AirQualityData> = Vec::new();
        let mut i: usize = 0;
        proof {
            assert(views(all@).take(0) =~= Seq::<RecordView>::empty());
            assert(views(sorted@) =~= newest_first(views(all@).take(0)));
        }
        while i < all.len()
            invariant
                i <= all.len(),
                sorted@.len() == i,
                views(sorted@) == newest_first(views(all@).take(i as int)),
            decreases all.len() - i,
        {
            let p = place_of(&sorted, all[i].timestamp);
            let ghost before = views(sorted@);
            proof {
                let next = views(all@).take(i + 1);
                assert(next.drop_last() =~= views(all@).take(i as int));
                assert(next.last() == all@[i as int]@);
                let place = insert_newest_first_place(before, all@[i as int]@);
                if place < p {
                    assert(before[p - 1] == sorted@[p - 1]@);
                    assert(before[p - 1].timestamp < all@[i as int]@.timestamp);
                }
                if p < place {
                    assert(before[place - 1] == sorted@[place - 1]@);
                    assert(sorted@[place - 1].timestamp < all@[i as int].timestamp);
                }
                assert(place == p);
            }
            sorted.insert(p, all[i].clone());
            assert(views(sorted@) =~= before.insert(p as int, all@[i as int]@));
            i += 1;
        }
        assert(views(all@).take(all@.len() as int) =~= views(all@));
        sorted.truncate(n);
        assert(views(sorted@) =~= recent(ordered(self@.records), n as nat));
        Ok(sorted)
    }

    /// The average air-quality index of the observations made at `location`,
    /// or the report that there are none.
    pub fn get_average_air_quality_index(&self, location: String) -> (average: Result<
        IndexAverage,
        Error,
    >)
        requires
            self.wf(),
        ensures
            average is Ok <==> matching(
                ordered(self@.records),
                &Filter::LocationIs(location),
            ).len() > 0,
            average is Ok ==> average->Ok_0.sum == index_sum(
                matching(ordered(self@.records), &Filter::LocationIs(location)),
            ) && average->Ok_0.count == matching(
                ordered(self@.records),
                &Filter::LocationIs(location),
            ).len(),
            average is Err ==> average->Err_0->msg@ == nowhere_text(location@),
    {
        let filter = Filter::LocationIs(location.clone());
        assert(filter == Filter::LocationIs(location));
        let data = self.search(&filter);
        if data.len() == 0 {
            return Err(
                Error::NotFound {
                    msg: join2("No data found for location ", location.as_str()),
                },
            );
        }
        let mut sum: u128 = 0;
        let mut i: usize = 0;
        assert(views(data@).take(0) =~= Seq::<RecordView>::empty());
        while i < data.len()
            invariant
                i <= data.len(),
                sum == index_sum(views(data@).take(i as int)),
                sum <= i * 0xffff_ffff,
            decreases data.len() - i,
        {
            proof {
                let next = views(data@).take(i + 1);
                assert(next.drop_last() =~= views(data@).take(i as int));
                assert(next.last() == data@[i as int]@);
            }
            sum = sum + data[i].air_quality_index as u128;
            i += 1;
        }
        assert(views(data@).take(data@.len() as int) =~= views(data@));
        Ok(IndexAverage { sum, count: data.len() as u64 })
    }

    /// Takes every observation made at `location` out of the store and
    /// returns their number, or reports that there are none.
    pub fn delete_air_quality_data_by_location(&mut self, location: String) -> (deleted: Result<
        u64,
        Error,
    >)
        requires
            old(self).wf(),
        ensures
            final(self).wf(),
            final(self)@.next_id == old(self)@.next_id,
            final(self)@.records == elsewhere(old(self)@.records, location@),
            deleted is Ok <==> matching(
                ordered(old(self)@.records),
                &Filter::LocationIs(location),
            ).len() > 0,
            deleted is Ok ==> deleted->Ok_0 == matching(
                ordered(old(self)@.records),
                &Filter::LocationIs(location),
            ).len(),
            deleted is Err ==> final(self)@ == old(self)@,
            deleted is Err ==> deleted->Err_0->msg@ == nowhere_text(location@),
    {
        let filter = Filter::LocationIs(location.clone());
        assert(filter == Filter::LocationIs(location));
        let gone = self.search(&filter);
        let ghost before = self@.records;
        let ghost hits = views(gone@);
        proof {
            self.wf_view();
            assert forall|r: RecordView|
                hits.contains(r) <==> before.contains_key(r.id) && before[r.id] == r
                    && r.location == location@ by {
                matching_is_exact(before, &filter, r);
            }
        }
        let count = gone.len() as u64;
        if count == 0 {
            proof {
                assert forall|id: u64| #[trigger]
                    before.contains_key(id) implies before[id].location != location@ by {
                    if before[id].location == location@ {
                        assert(hits.contains(before[id]));
                    }
                }
                assert(self@.records =~= elsewhere(before, location@));
            }
            return Err(
                Error::NotFound {
                    msg: join2("No data found for location ", location.as_str()),
                },
            );
        }
        let mut i: usize = 0;
        while i < gone.len()
            invariant
                i <= gone.len(),
                self.wf(),
                self@.next_id == old(self)@.next_id,
                hits == views(gone@),
                self@.records =~= Map::new(
                    |id: u64|
                        before.contains_key(id) && !(exists|k: int|
                            0 <= k < i && (#[trigger] hits[k]).id == id),
                    |id: u64| before[id],
                ),
            decreases gone.len() - i,
        {
            let ghost earlier = self@.records;
            self.remove(gone[i].id);
            proof {
                assert(hits[i as int].id == gone@[i as int].id);
                assert forall|id: u64|
                    (before.contains_key(id) && !(exists|k: int|
                        0 <= k < i + 1 && (#[trigger] hits[k]).id == id)) <==> (
                    earlier.contains_key(id) && id != gone@[i as int].id) by {
                    if before.contains_key(id) && id != gone@[i as int].id {
                        if exists|k: int| 0 <= k < i + 1 && (#[trigger] hits[k]).id == id {
                            let k = choose|k: int| 0 <= k < i + 1 && (#[trigger] hits[k]).id == id;
                            assert(k < i);
                        }
                    }
                }
            }
            i += 1;
        }
        proof {
            assert forall|id: u64|
                (before.contains_key(id) && !(exists|k: int|
                    0 <= k < hits.len() && (#[trigger] hits[k]).id == id)) <==> (
                before.contains_key(id) && before[id].location != location@) by {
                if before.contains_key(id) {
                    if before[id].location == location@ {
                        assert(hits.contains(before[id]));
                        let k = choose|k: int| 0 <= k < hits.len() && hits[k] == before[id];
                        assert(hits[k].id == id);
                    }
                    if exists|k: int| 0 <= k < hits.len() && (#[trigger] hits[k]).id == id {
                        let k = choose|k: int| 0 <= k < hits.len() && (#[trigger] hits[k]).id == id;
                        assert(hits.contains(hits[k]));
                    }
                }
            }
            assert(self@.records =~= elsewhere(before, location@));
        }
        Ok(count)
    }
}

} // verus!
