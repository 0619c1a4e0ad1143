//! The observation record, its parts, and the mathematical values they stand for.

use crate::measure::Measure;
use vstd::prelude::*;
use vstd::string::*;

verus! {

/// The weather at the time of an observation.
#[derive(Clone, Copy, Debug, PartialEq, Eq, Structural)]
pub struct WeatherData {
    pub temperature: Measure,
    pub humidity: Measure,
    pub wind_speed: Measure,
}

impl WeatherData {
    /// The weather whose three measures are positive zero.
    pub open spec fn calm() -> WeatherData {
        WeatherData {
            temperature: Measure { bits: 0 },
            humidity: Measure { bits: 0 },
            wind_speed: Measure { bits: 0 },
        }
    }
}

impl Default for WeatherData {
    fn default() -> (w: WeatherData)
        ensures
            w == WeatherData::calm(),
    {
        WeatherData {
            temperature: Measure { bits: 0 },
            humidity: Measure { bits: 0 },
            wind_speed: Measure { bits: 0 },
        }
    }
}

/// Pollutant readings as a mathematical value: each name with its level, in
/// the order in which the names were first entered.
pub type Readings = Seq<(Seq<char>, Measure)>;

/// No name occurs twice among the readings.
pub open spec fn distinct_names(readings: Readings) -> bool {
    forall|i: int, j: int|
        0 <= i < j < readings.len() ==> (#[trigger] readings[i]).0 != (#[trigger] readings[j]).0
}

/// The index of the first reading under `name`, or the number of readings
/// where there is none.
pub open spec fn position(readings: Readings, name: Seq<char>) -> int
    decreases readings.len(),
{
    if readings.len() == 0 {
        0
    } else if readings[0].0 == name {
        0
    } else {
        1 + position(readings.drop_first(), name)
    }
}

/// The level read for `name`, if there is a reading for it.
pub open spec fn level_of(readings: Readings, name: Seq<char>) -> Option<Measure> {
    let p = position(readings, name);
    if p < readings.len() {
        Some(readings[p].1)
    } else {
        None
    }
}

/// The readings after `level` has been entered for `name`: an earlier reading
/// for the name is replaced where it stands, a new name goes to the end.
pub open spec fn with_level(readings: Readings, name: Seq<char>, level: Measure) -> Readings {
    let p = position(readings, name);
    if p < readings.len() {
        readings.update(p, (name, level))
    } else {
        readings.push((name, level))
    }
}

/// `position` is the least index that holds the name, or the length.
pub proof fn position_found(readings: Readings, name: Seq<char>)
    ensures
        0 <= position(readings, name) <= readings.len(),
        position(readings, name) < readings.len() ==> readings[position(readings, name)].0
            == name,
        forall|k: int| 0 <= k < position(readings, name) ==> (#[trigger] readings[k]).0 != name,
    decreases readings.len(),
{
    if readings.len() > 0 && readings[0].0 != name {
        let rest = readings.drop_first();
        position_found(rest, name);
        assert forall|k: int| 0 <= k < position(readings, name) implies (#[trigger] readings[k]).0
            != name by {
            if k > 0 {
                assert(rest[k - 1] == readings[k]);
            }
        }
    }
}

/// An index that holds the name, with no earlier one that does, is `position`.
pub proof fn position_is(readings: Readings, name: Seq<char>, p: int)
    requires
        0 <= p <= readings.len(),
        p < readings.len() ==> readings[p].0 == name,
        forall|k: int| 0 <= k < p ==> (#[trigger] readings[k]).0 != name,
    ensures
        position(readings, name) == p,
{
    position_found(readings, name);
    let q = position(readings, name);
    if q < p {
        assert(readings[q].0 != name);
    }
}

/// Entering a level keeps the names distinct.
pub proof fn with_level_keeps_distinct(readings: Readings, name: Seq<char>, level: Measure)
    requires
        distinct_names(readings),
    ensures
        distinct_names(with_level(readings, name, level)),
        level_of(with_level(readings, name, level), name) == Some(level),
{
    position_found(readings, name);
    let p = position(readings, name);
    let next = with_level(readings, name, level);
    assert forall|i: int, j: int| 0 <= i < j < next.len() implies (#[trigger] next[i]).0 != (
    #[trigger] next[j]).0 by {
        if p < readings.len() {
            if i != p && j != p {
                assert(readings[i].0 != readings[j].0);
            } else if i == p {
                assert(readings[p].0 != readings[j].0);
            } else {
                assert(readings[i].0 != readings[p].0);
            }
        } else {
            if j < readings.len() {
                assert(readings[i].0 != readings[j].0);
            } else {
                assert(readings[i].0 != name);
            }
        }
    }
    assert forall|k: int| 0 <= k < p implies (#[trigger] next[k]).0 != name by {
        assert(readings[k].0 != name);
    }
    position_is(next, name, p);
}

/// Entering a level for a name changes what is read for that name, and for
/// no other.
pub proof fn with_level_changes_one_name(
    readings: Readings,
    name: Seq<char>,
    level: Measure,
    other: Seq<char>,
)
    requires
        other != name,
    ensures
        level_of(with_level(readings, name, level), name) == Some(level),
        level_of(with_level(readings, name, level), other) == level_of(readings, other),
{
    position_found(readings, name);
    position_found(readings, other);
    let p = position(readings, name);
    let q = position(readings, other);
    let next = with_level(readings, name, level);
    assert forall|k: int| 0 <= k < p implies (#[trigger] next[k]).0 != name by {
        assert(readings[k].0 != name);
    }
    position_is(next, name, p);
    assert forall|k: int| 0 <= k < q implies (#[trigger] next[k]).0 != other by {
        if k < readings.len() {
            assert(readings[k].0 != other);
        }
    }
    if q < readings.len() {
        position_is(next, other, q);
    } else {
        position_is(next, other, next.len() as int);
    }
}

/// Where no name occurs twice, a level is read for a name exactly if the
/// name stands with that level among the readings.
pub proof fn level_of_is_membership(readings: Readings, name: Seq<char>, level: Measure)
    requires
        distinct_names(readings),
    ensures
        level_of(readings, name) == Some(level) <==> readings.contains((name, level)),
{
    position_found(readings, name);
    let p = position(readings, name);
    if readings.contains((name, level)) {
        let i = choose|i: int| 0 <= i < readings.len() && readings[i] == (name, level);
        if i < p {
            assert(readings[i].0 != name);
        }
        if p < i {
            assert(readings[p].0 != readings[i].0);
        }
    }
    if level_of(readings, name) == Some(level) {
        assert(readings[p] == (name, level));
    }
}

/// The levels of the pollutants that an observation reports, by name. No name
/// occurs twice.
#[derive(Debug, PartialEq)]
pub struct PollutantLevels {
    entries: Vec<(String, Measure)>,
}

/// The readings that a list of named levels stands for.
pub open spec fn readings_of(entries: Seq<(String, Measure)>) -> Readings {
    Seq::new(entries.len(), |i: int| (entries[i].0@, entries[i].1))
}

impl View for PollutantLevels {
    type V = Readings;

    closed spec fn view(&self) -> Readings {
        readings_of(self.entries@)
    }
}

impl PollutantLevels {
    /// What holds of every value of the type: no name occurs twice.
    #[verifier::type_invariant]
    pub open spec fn names_are_distinct(&self) -> bool {
        distinct_names(self@)
    }

    /// No readings.
    pub fn new() -> (levels: PollutantLevels)
        ensures
            levels@ == Seq::<(Seq<char>, Measure)>::empty(),
    {
        let levels = PollutantLevels { entries: Vec::new() };
        assert(levels@ =~= Seq::<(Seq<char>, Measure)>::empty());
        levels
    }

    /// The readings that `entries` list, unless a name occurs twice among them.
    pub fn from_entries(entries: Vec<(String, Measure)>) -> (levels: Option<PollutantLevels>)
        ensures
            levels is Some <==> distinct_names(readings_of(entries@)),
            levels is Some ==> levels->0@ == readings_of(entries@),
    {
        let ghost readings = readings_of(entries@);
        let mut j: usize = 0;
        while j < entries.len()
            invariant
                j <= entries.len(),
                readings == readings_of(entries@),
                forall|a: int, b: int|
                    0 <= a < b < j ==> (#[trigger] readings[a]).0 != (#[trigger] readings[b]).0,
            decreases entries.len() - j,
        {
            let mut i: usize = 0;
            while i < j
                invariant
                    i <= j < entries.len(),
                    readings == readings_of(entries@),
                    forall|a: int|
                        0 <= a < i ==> (#[trigger] readings[a]).0 != readings[j as int].0,
                decreases j - i,
            {
                if entries[i].0 == entries[j].0 {
                    assert(readings[i as int].0 == readings[j as int].0);
                    return None;
                }
                i += 1;
            }
            j += 1;
        }
        Some(PollutantLevels { entries })
    }

    /// The number of readings.
    pub fn len(&self) -> (n: usize)
        ensures
            n == self@.len(),
            distinct_names(self@),
    {
        proof {
            use_type_invariant(self);
        }
        self.entries.len()
    }

    /// The name of the reading at index `i`.
    pub fn name_at(&self, i: usize) -> (name: &String)
        requires
            i < self@.len(),
        ensures
            name@ == self@[i as int].0,
    {
        &self.entries[i].0
    }

    /// The level of the reading at index `i`.
    pub fn level_at(&self, i: usize) -> (level: Measure)
        requires
            i < self@.len(),
        ensures
            level == self@[i as int].1,
    {
        self.entries[i].1
    }

    fn find(&self, name: &String) -> (p: usize)
        ensures
            p == position(self@, name@),
            p <= self@.len(),
    {
        let mut i: usize = 0;
        while i < self.entries.len()
            invariant
                i <= self.entries.len(),
                forall|k: int| 0 <= k < i ==> (#[trigger] self@[k]).0 != name@,
            decreases self.entries.len() - i,
        {
            if self.entries[i].0 == *name {
                proof {
                    position_is(self@, name@, i as int);
                }
                return i;
            }
            i += 1;
        }
        proof {
            position_is(self@, name@, i as int);
        }
        i
    }

    /// The level read for `name`, if there is a reading for it.
    pub fn get(&self, name: &String) -> (level: Option<Measure>)
        ensures
            level == level_of(self@, name@),
    {
        let p = self.find(name);
        if p < self.entries.len() {
            Some(self.entries[p].1)
        } else {
            None
        }
    }

    /// Enters `level` for `name`, in place of an earlier reading for that name
    /// if there is one, and returns the level that was replaced.
    pub fn insert(&mut self, name: String, level: Measure) -> (previous: Option<Measure>)
        ensures
            previous == level_of(old(self)@, name@),
            final(self)@ == with_level(old(self)@, name@, level),
    {
        proof {
            use_type_invariant(&*self);
            with_level_keeps_distinct(self@, name@, level);
        }
        let p = self.find(&name);
        let PollutantLevels { mut entries } = self.clone();
        assert(entries@.len() == self@.len());
        assert(forall|k: int|
            0 <= k < entries@.len() ==> (#[trigger] entries@[k]).0@ == self@[k].0 && entries@[k].1
                == self@[k].1);
        let previous = if p < entries.len() {
            let previous = entries[p].1;
            entries.set(p, (name, level));
            Some(previous)
        } else {
            entries.push((name, level));
            None
        };
        let ghost next = readings_of(entries@);
        assert(next =~= with_level(old(self)@, name@, level));
        self.entries = entries;
        assert(self@ =~= next);
        previous
    }
}

impl Clone for PollutantLevels {
    fn clone(&self) -> (copy: PollutantLevels)
        ensures
            copy@ == self@,
    {
        proof {
            use_type_invariant(self);
        }
        let mut entries: Vec<(String, Measure)> = Vec::new();
        let mut i: usize = 0;
        while i < self.entries.len()
            invariant
                i <= self.entries.len(),
                entries@.len() == i,
                forall|k: int|
                    0 <= k < i ==> (#[trigger] entries@[k]).0@ == self.entries@[k].0@
                        && entries@[k].1 == self.entries@[k].1,
            decreases self.entries.len() - i,
        {
            entries.push((self.entries[i].0.clone(), self.entries[i].1));
            i += 1;
        }
        assert(readings_of(entries@) =~= self@);
        PollutantLevels { entries }
    }
}


/// An observation as a mathematical value.
pub struct RecordView {
    pub id: u64,
    pub location: Seq<char>,
    pub timestamp: u64,
    pub air_quality_index: u32,
    pub health_recommendations: Seq<char>,
    pub pollutant_levels: Readings,
    pub weather_conditions: WeatherData,
}

/// One air-quality observation.
#[derive(Debug, PartialEq)]
pub struct AirQualityData {
    pub id: u64,
    pub location: String,
    pub timestamp: u64,
    pub air_quality_index: u32,
    pub health_recommendations: String,
    pub pollutant_levels: PollutantLevels,
    pub weather_conditions: WeatherData,
}

impl View for AirQualityData {
    type V = RecordView;

    open spec fn view(&self) -> RecordView {
        RecordView {
            id: self.id,
            location: self.location@,
            timestamp: self.timestamp,
            air_quality_index: self.air_quality_index,
            health_recommendations: self.health_recommendations@,
            pollutant_levels: self.pollutant_levels@,
            weather_conditions: self.weather_conditions,
        }
    }
}

impl Clone for AirQualityData {
    fn clone(&self) -> (copy: AirQualityData)
        ensures
            copy@ == self@,
    {
        AirQualityData {
            id: self.id,
            location: self.location.clone(),
            timestamp: self.timestamp,
            air_quality_index: self.air_quality_index,
            health_recommendations: self.health_recommendations.clone(),
            pollutant_levels: self.pollutant_levels.clone(),
            weather_conditions: self.weather_conditions,
        }
    }
}

/// What a caller supplies for a new observation, or to replace an old one, as
/// a mathematical value.
pub struct PayloadView {
    pub location: Seq<char>,
    pub air_quality_index: u32,
    pub health_recommendations: Seq<char>,
    pub pollutant_levels: Option<Readings>,
    pub weather_conditions: Option<WeatherData>,
}

/// What a caller supplies for a new observation, or to replace an old one.
/// Readings and weather that are left out are stored as none and as calm.
#[derive(Debug, PartialEq)]
pub struct AirQualityUpdatePayload {
    pub location: String,
    pub air_quality_index: u32,
    pub health_recommendations: String,
    pub pollutant_levels: Option<PollutantLevels>,
    pub weather_conditions: Option<WeatherData>,
}

impl View for AirQualityUpdatePayload {
    type V = PayloadView;

    open spec fn view(&self) -> PayloadView {
        PayloadView {
            location: self.location@,
            air_quality_index: self.air_quality_index,
            health_recommendations: self.health_recommendations@,
            pollutant_levels: match self.pollutant_levels {
                Some(levels) => Some(levels@),
                None => None,
            },
            weather_conditions: self.weather_conditions,
        }
    }
}

/// The observation that `payload` describes, under the identifier `id` and
/// as of the time `now`.
pub open spec fn assemble(id: u64, payload: PayloadView, now: u64) -> RecordView {
    RecordView {
        id,
        location: payload.location,
        timestamp: now,
        air_quality_index: payload.air_quality_index,
        health_recommendations: payload.health_recommendations,
        pollutant_levels: match payload.pollutant_levels {
            Some(levels) => levels,
            None => Seq::empty(),
        },
        weather_conditions: match payload.weather_conditions {
            Some(weather) => weather,
            None => WeatherData::calm(),
        },
    }
}

impl AirQualityData {
    /// Builds the observation that `payload` describes, under the identifier
    /// `id` and as of the time `now`.
    pub fn from_payload(id: u64, payload: AirQualityUpdatePayload, now: u64) -> (record:
        AirQualityData)
        ensures
            record@ == assemble(id, payload@, now),
    {
        let pollutant_levels = match payload.pollutant_levels {
            Some(levels) => levels,
            None => PollutantLevels::new(),
        };
        let weather_conditions = match payload.weather_conditions {
            Some(weather) => weather,
            None => WeatherData::default(),
        };
        AirQualityData {
            id,
            location: payload.location,
            timestamp: now,
            air_quality_index: payload.air_quality_index,
            health_recommendations: payload.health_recommendations,
            pollutant_levels,
            weather_conditions,
        }
    }
}

impl Clone for AirQualityUpdatePayload {
    fn clone(&self) -> (copy: AirQualityUpdatePayload)
        ensures
            copy@ == self@,
    {
        AirQualityUpdatePayload {
            location: self.location.clone(),
            air_quality_index: self.air_quality_index,
            health_recommendations: self.health_recommendations.clone(),
            pollutant_levels: match &self.pollutant_levels {
                Some(levels) => Some(levels.clone()),
                None => None,
            },
            weather_conditions: self.weather_conditions,
        }
    }
}

/// Why an operation found nothing to work on.
#[derive(Debug, PartialEq)]
pub enum Error {
    /// No observation is stored under the identifier or at the location that
    /// `msg` names.
    NotFound { msg: String },
}

} // verus!
