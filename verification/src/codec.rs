//! The byte form in which an observation is stored.
//!
//! Integers are little-endian. A text is its length in bytes as a 32-bit
//! integer, then its UTF-8 bytes. An observation is its identifier, location,
//! timestamp, index, recommendations, the number of its readings, each
//! reading as its name and the bits of its level, and the bits of its three
//! weather measures. Nothing may follow.

use crate::measure::Measure;
use crate::record::{
    assemble, distinct_names, AirQualityData, AirQualityUpdatePayload, PayloadView,
    PollutantLevels, Readings, RecordView, WeatherData, readings_of,
};
use crate::text::text_from_utf8;
use vstd::bytes::*;
use vstd::prelude::*;
use vstd::slice::*;
use vstd::string::*;
use vstd::utf8::*;

verus! {

/// The largest number of bytes that a stored observation may take.
pub const MAX_SIZE: usize = 1024;

/// The bytes that an observation takes besides its texts and readings.
pub const FIXED_SIZE: usize = 56;

/// The bytes that a reading takes besides its name.
pub const READING_FIXED_SIZE: usize = 12;

/// The byte form of a text.
pub open spec fn text_bytes(text: Seq<char>) -> Seq<u8> {
    spec_u32_to_le_bytes(encode_utf8(text).len() as u32) + encode_utf8(text)
}

/// The byte form of one reading.
pub open spec fn reading_bytes(reading: (Seq<char>, Measure)) -> Seq<u8> {
    text_bytes(reading.0) + spec_u64_to_le_bytes(reading.1.bits)
}

/// The byte forms of the readings, one after the other.
pub open spec fn readings_bytes(readings: Readings) -> Seq<u8>
    decreases readings.len(),
{
    if readings.len() == 0 {
        Seq::empty()
    } else {
        readings_bytes(readings.drop_last()) + reading_bytes(readings.last())
    }
}

/// The byte form of the weather.
pub open spec fn weather_bytes(weather: WeatherData) -> Seq<u8> {
    spec_u64_to_le_bytes(weather.temperature.bits) + spec_u64_to_le_bytes(weather.humidity.bits)
        + spec_u64_to_le_bytes(weather.wind_speed.bits)
}

/// The byte form of an observation.
pub open spec fn encode_record(r: RecordView) -> Seq<u8> {
    spec_u64_to_le_bytes(r.id) + text_bytes(r.location) + spec_u64_to_le_bytes(r.timestamp)
        + spec_u32_to_le_bytes(r.air_quality_index) + text_bytes(r.health_recommendations)
        + spec_u32_to_le_bytes(r.pollutant_levels.len() as u32) + readings_bytes(
        r.pollutant_levels,
    ) + weather_bytes(r.weather_conditions)
}

/// The number of bytes that the readings take.
pub open spec fn readings_size(readings: Readings) -> nat
    decreases readings.len(),
{
    if readings.len() == 0 {
        0
    } else {
        readings_size(readings.drop_last()) + READING_FIXED_SIZE as nat + encode_utf8(
            readings.last().0,
        ).len()
    }
}

/// The number of bytes that an observation takes.
pub open spec fn record_size(r: RecordView) -> nat {
    FIXED_SIZE as nat + encode_utf8(r.location).len() + encode_utf8(
        r.health_recommendations,
    ).len() + readings_size(r.pollutant_levels)
}

/// Whether an observation is small enough to be stored.
pub open spec fn fits(r: RecordView) -> bool {
    record_size(r) <= MAX_SIZE
}

/// Whether the observation that a payload describes is small enough to be
/// stored; its identifier and timestamp make no difference to that.
pub open spec fn payload_fits(payload: PayloadView) -> bool {
    fits(assemble(0, payload, 0))
}

/// A 32-bit integer from the front of `bytes`, and what follows it.
pub open spec fn take_u32(bytes: Seq<u8>) -> Option<(u32, Seq<u8>)> {
    if bytes.len() >= 4 {
        Some((spec_u32_from_le_bytes(bytes.take(4)), bytes.skip(4)))
    } else {
        None
    }
}

/// A 64-bit integer from the front of `bytes`, and what follows it.
pub open spec fn take_u64(bytes: Seq<u8>) -> Option<(u64, Seq<u8>)> {
    if bytes.len() >= 8 {
        Some((spec_u64_from_le_bytes(bytes.take(8)), bytes.skip(8)))
    } else {
        None
    }
}

/// A text from the front of `bytes`, and what follows it.
pub open spec fn take_text(bytes: Seq<u8>) -> Option<(Seq<char>, Seq<u8>)> {
    match take_u32(bytes) {
        Some((n, rest)) => {
            if n <= rest.len() && valid_utf8(rest.take(n as int)) {
                Some((decode_utf8(rest.take(n as int)), rest.skip(n as int)))
            } else {
                None
            }
        },
        None => None,
    }
}

/// A reading from the front of `bytes`, and what follows it.
pub open spec fn take_reading(bytes: Seq<u8>) -> Option<((Seq<char>, Measure), Seq<u8>)> {
    match take_text(bytes) {
        Some((name, rest)) => match take_u64(rest) {
            Some((bits, rest)) => Some(((name, Measure { bits }), rest)),
            None => None,
        },
        None => None,
    }
}

/// `count` readings from the front of `bytes`, and what follows them.
pub open spec fn take_readings(bytes: Seq<u8>, count: nat) -> Option<(Readings, Seq<u8>)>
    decreases count,
{
    if count == 0 {
        Some((Seq::empty(), bytes))
    } else {
        match take_reading(bytes) {
            Some((first, rest)) => match take_readings(rest, (count - 1) as nat) {
                Some((others, rest)) => Some((seq![first] + others, rest)),
                None => None,
            },
            None => None,
        }
    }
}

/// The weather from the front of `bytes`, and what follows it.
pub open spec fn take_weather(bytes: Seq<u8>) -> Option<(WeatherData, Seq<u8>)> {
    match take_u64(bytes) {
        Some((temperature, rest)) => match take_u64(rest) {
            Some((humidity, rest)) => match take_u64(rest) {
                Some((wind_speed, rest)) => Some(
                    (
                        WeatherData {
                            temperature: Measure { bits: temperature },
                            humidity: Measure { bits: humidity },
                            wind_speed: Measure { bits: wind_speed },
                        },
                        rest,
                    ),
                ),
                None => None,
            },
            None => None,
        },
        None => None,
    }
}

/// The identifier, location, timestamp, index and recommendations from the
/// front of `bytes`, as an observation without readings or weather, and what
/// follows them.
pub open spec fn take_head(bytes: Seq<u8>) -> Option<(RecordView, Seq<u8>)> {
    match take_u64(bytes) {
        Some((id, rest)) => match take_text(rest) {
            Some((location, rest)) => match take_u64(rest) {
                Some((timestamp, rest)) => match take_u32(rest) {
                    Some((air_quality_index, rest)) => match take_text(rest) {
                        Some((health_recommendations, rest)) => Some(
                            (
                                RecordView {
                                    id,
                                    location,
                                    timestamp,
                                    air_quality_index,
                                    health_recommendations,
                                    pollutant_levels: Seq::empty(),
                                    weather_conditions: WeatherData::calm(),
                                },
                                rest,
                            ),
                        ),
                        None => None,
                    },
                    None => None,
                },
                None => None,
            },
            None => None,
        },
        None => None,
    }
}

/// The counted readings from the front of `bytes`, and what follows them.
pub open spec fn take_levels(bytes: Seq<u8>) -> Option<(Readings, Seq<u8>)> {
    match take_u32(bytes) {
        Some((count, rest)) => take_readings(rest, count as nat),
        None => None,
    }
}

/// The observation that `bytes` are the byte form of, if they are one: the
/// parts in order, no name twice among the readings, and nothing left over.
pub open spec fn decode_record(bytes: Seq<u8>) -> Option<RecordView> {
    match take_head(bytes) {
        Some((head, rest)) => match take_levels(rest) {
            Some((pollutant_levels, rest)) => match take_weather(rest) {
                Some((weather_conditions, rest)) => {
                    if rest.len() == 0 && distinct_names(pollutant_levels) {
                        Some(RecordView { pollutant_levels, weather_conditions, ..head })
                    } else {
                        None
                    }
                },
                None => None,
            },
            None => None,
        },
        None => None,
    }
}

proof fn lemma_take_u32(x: u32, tail: Seq<u8>)
    ensures
        take_u32(spec_u32_to_le_bytes(x) + tail) == Some((x, tail)),
{
    lemma_auto_spec_u32_to_from_le_bytes();
    let front = spec_u32_to_le_bytes(x);
    assert((front + tail).take(4) =~= front);
    assert((front + tail).skip(4) =~= tail);
}

proof fn lemma_take_u64(x: u64, tail: Seq<u8>)
    ensures
        take_u64(spec_u64_to_le_bytes(x) + tail) == Some((x, tail)),
{
    lemma_auto_spec_u64_to_from_le_bytes();
    let front = spec_u64_to_le_bytes(x);
    assert((front + tail).take(8) =~= front);
    assert((front + tail).skip(8) =~= tail);
}

proof fn lemma_take_text(text: Seq<char>, tail: Seq<u8>)
    requires
        encode_utf8(text).len() <= u32::MAX,
    ensures
        take_text(text_bytes(text) + tail) == Some((text, tail)),
{
    let body = encode_utf8(text);
    let n = body.len() as u32;
    assert(text_bytes(text) + tail =~= spec_u32_to_le_bytes(n) + (body + tail));
    lemma_take_u32(n, body + tail);
    assert((body + tail).take(n as int) =~= body);
    assert((body + tail).skip(n as int) =~= tail);
    encode_utf8_valid_utf8(text);
    encode_utf8_decode_utf8(text);
}

proof fn lemma_take_reading(reading: (Seq<char>, Measure), tail: Seq<u8>)
    requires
        encode_utf8(reading.0).len() <= u32::MAX,
    ensures
        take_reading(reading_bytes(reading) + tail) == Some((reading, tail)),
{
    let level = spec_u64_to_le_bytes(reading.1.bits);
    assert(reading_bytes(reading) + tail =~= text_bytes(reading.0) + (level + tail));
    lemma_take_text(reading.0, level + tail);
    lemma_take_u64(reading.1.bits, tail);
}

/// The byte form of two runs of readings, one after the other, is their byte
/// forms one after the other.
pub proof fn readings_bytes_concat(a: Readings, b: Readings)
    ensures
        readings_bytes(a + b) == readings_bytes(a) + readings_bytes(b),
    decreases b.len(),
{
    if b.len() == 0 {
        assert(a + b =~= a);
        assert(readings_bytes(a) + readings_bytes(b) =~= readings_bytes(a));
    } else {
        assert((a + b).drop_last() =~= a + b.drop_last());
        assert((a + b).last() == b.last());
        readings_bytes_concat(a, b.drop_last());
        assert(readings_bytes(a + b) =~= readings_bytes(a) + readings_bytes(b));
    }
}

/// The byte form of the readings has the size that `readings_size` gives, and
/// a run of readings takes at least as many bytes as any run it starts with.
pub proof fn readings_bytes_len(readings: Readings)
    ensures
        readings_bytes(readings).len() == readings_size(readings),
        readings.len() * 12 <= readings_size(readings),
        forall|i: int|
            0 <= i < readings.len() ==> encode_utf8(#[trigger] readings[i].0).len()
                <= readings_size(readings),
        forall|n: int|
            0 <= n <= readings.len() ==> readings_size(#[trigger] readings.take(n))
                <= readings_size(readings),
    decreases readings.len(),
{
    lemma_auto_spec_u32_to_from_le_bytes();
    lemma_auto_spec_u64_to_from_le_bytes();
    if readings.len() > 0 {
        let front = readings.drop_last();
        readings_bytes_len(front);
        assert forall|i: int| 0 <= i < readings.len() implies encode_utf8(
            #[trigger] readings[i].0,
        ).len() <= readings_size(readings) by {
            if i < front.len() {
                assert(front[i] == readings[i]);
            }
        }
        assert forall|n: int| 0 <= n <= readings.len() implies readings_size(
            #[trigger] readings.take(n),
        ) <= readings_size(readings) by {
            if n < readings.len() {
                assert(readings.take(n) =~= front.take(n));
            } else {
                assert(readings.take(n) =~= readings);
            }
        }
    } else {
        assert forall|n: int| 0 <= n <= readings.len() implies readings_size(
            #[trigger] readings.take(n),
        ) <= readings_size(readings) by {
            assert(readings.take(n) =~= readings);
        }
    }
}

/// The byte form of an observation has the size that `record_size` gives.
pub proof fn encode_record_len(r: RecordView)
    ensures
        encode_record(r).len() == record_size(r),
{
    lemma_auto_spec_u32_to_from_le_bytes();
    lemma_auto_spec_u64_to_from_le_bytes();
    readings_bytes_len(r.pollutant_levels);
}

proof fn lemma_take_readings(readings: Readings, tail: Seq<u8>)
    requires
        forall|i: int|
            0 <= i < readings.len() ==> encode_utf8(#[trigger] readings[i].0).len() <= u32::MAX,
    ensures
        take_readings(readings_bytes(readings) + tail, readings.len()) == Some((readings, tail)),
    decreases readings.len(),
{
    if readings.len() == 0 {
        assert(readings_bytes(readings) + tail =~= tail);
        assert(readings =~= Seq::empty());
    } else {
        let first = readings[0];
        let others = readings.drop_first();
        assert(readings =~= seq![first] + others);
        readings_bytes_concat(seq![first], others);
        let one = seq![first];
        assert(one.drop_last() =~= Seq::<(Seq<char>, Measure)>::empty());
        assert(one.last() == first);
        assert(readings_bytes(one.drop_last()) =~= Seq::<u8>::empty());
        assert(readings_bytes(one) =~= reading_bytes(first)) by {
            assert(readings_bytes(one) == readings_bytes(one.drop_last()) + reading_bytes(
                one.last(),
            ));
        }
        assert(readings_bytes(readings) + tail =~= reading_bytes(first) + (readings_bytes(others)
            + tail));
        lemma_take_reading(first, readings_bytes(others) + tail);
        assert forall|i: int| 0 <= i < others.len() implies encode_utf8(
            #[trigger] others[i].0,
        ).len() <= u32::MAX by {
            assert(others[i] == readings[i + 1]);
        }
        lemma_take_readings(others, tail);
    }
}

/// Decoding undoes encoding: the byte form of an observation that fits, and
/// among whose readings no name occurs twice, decodes to that observation.
pub proof fn decode_encode(r: RecordView)
    requires
        fits(r),
        distinct_names(r.pollutant_levels),
    ensures
        decode_record(encode_record(r)) == Some(r),
{
    readings_bytes_len(r.pollutant_levels);
    let id = spec_u64_to_le_bytes(r.id);
    let location = text_bytes(r.location);
    let timestamp = spec_u64_to_le_bytes(r.timestamp);
    let index = spec_u32_to_le_bytes(r.air_quality_index);
    let health = text_bytes(r.health_recommendations);
    let count = spec_u32_to_le_bytes(r.pollutant_levels.len() as u32);
    let readings = readings_bytes(r.pollutant_levels);
    let temperature = spec_u64_to_le_bytes(r.weather_conditions.temperature.bits);
    let humidity = spec_u64_to_le_bytes(r.weather_conditions.humidity.bits);
    let wind_speed = spec_u64_to_le_bytes(r.weather_conditions.wind_speed.bits);
    let none = Seq::<u8>::empty();
    let t9 = wind_speed + none;
    let t8 = humidity + t9;
    let t7 = temperature + t8;
    let t6 = readings + t7;
    let t5 = count + t6;
    let t4 = health + t5;
    let t3 = index + t4;
    let t2 = timestamp + t3;
    let t1 = location + t2;
    assert(encode_record(r) =~= id + t1);
    lemma_take_u64(r.id, t1);
    lemma_take_text(r.location, t2);
    lemma_take_u64(r.timestamp, t3);
    lemma_take_u32(r.air_quality_index, t4);
    lemma_take_text(r.health_recommendations, t5);
    lemma_take_u32(r.pollutant_levels.len() as u32, t6);
    lemma_take_readings(r.pollutant_levels, t7);
    lemma_take_u64(r.weather_conditions.temperature.bits, t8);
    lemma_take_u64(r.weather_conditions.humidity.bits, t9);
    lemma_take_u64(r.weather_conditions.wind_speed.bits, none);
}

fn text_size(text: &String) -> (n: usize)
    ensures
        n == encode_utf8(text@).len(),
{
    text.as_str().as_bytes().len()
}

/// The size of an observation with these texts and readings, unless it is
/// more than `MAX_SIZE`.
fn size_within_limit(
    location: &String,
    recommendations: &String,
    levels: &PollutantLevels,
) -> (size: Option<usize>)
    ensures
        size is Some <==> FIXED_SIZE + encode_utf8(location@).len() + encode_utf8(
            recommendations@,
        ).len() + readings_size(levels@) <= MAX_SIZE,
        size is Some ==> size->0 == FIXED_SIZE + encode_utf8(location@).len() + encode_utf8(
            recommendations@,
        ).len() + readings_size(levels@),
{
    let mut total: usize = FIXED_SIZE;
    let a = text_size(location);
    if a > MAX_SIZE - total {
        return None;
    }
    total += a;
    let b = text_size(recommendations);
    if b > MAX_SIZE - total {
        return None;
    }
    total += b;
    let n = levels.len();
    let mut i: usize = 0;
    while i < n
        invariant
            i <= n,
            n == levels@.len(),
            a == encode_utf8(location@).len(),
            b == encode_utf8(recommendations@).len(),
            total == FIXED_SIZE + a + b + readings_size(levels@.take(i as int)),
            total <= MAX_SIZE,
        decreases n - i,
    {
        let k = text_size(levels.name_at(i));
        proof {
            readings_bytes_len(levels@);
            let next = levels@.take(i + 1);
            assert(next.drop_last() =~= levels@.take(i as int));
            assert(next.last() == levels@[i as int]);
            assert(readings_size(next) == readings_size(next.drop_last()) + READING_FIXED_SIZE
                + k);
            assert(readings_size(next) <= readings_size(levels@));
        }
        if k > MAX_SIZE - total || MAX_SIZE - total - k < READING_FIXED_SIZE {
            return None;
        }
        total += k + READING_FIXED_SIZE;
        i += 1;
    }
    assert(levels@.take(n as int) =~= levels@);
    Some(total)
}

fn put_text(out: &mut Vec<u8>, text: &String)
    ensures
        final(out)@ == old(out)@ + text_bytes(text@),
{
    let bytes = text.as_str().as_bytes();
    let mut length = u32_to_le_bytes(bytes.len() as u32);
    out.append(&mut length);
    out.extend_from_slice(bytes);
    assert(out@ =~= old(out)@ + text_bytes(text@));
}

fn put_u32(out: &mut Vec<u8>, x: u32)
    ensures
        final(out)@ == old(out)@ + spec_u32_to_le_bytes(x),
{
    let mut bytes = u32_to_le_bytes(x);
    out.append(&mut bytes);
}

fn put_u64(out: &mut Vec<u8>, x: u64)
    ensures
        final(out)@ == old(out)@ + spec_u64_to_le_bytes(x),
{
    let mut bytes = u64_to_le_bytes(x);
    out.append(&mut bytes);
}

fn put_readings(out: &mut Vec<u8>, levels: &PollutantLevels)
    ensures
        final(out)@ == old(out)@ + readings_bytes(levels@),
{
    let n = levels.len();
    let mut i: usize = 0;
    assert(out@ =~= old(out)@ + readings_bytes(levels@.take(0)));
    while i < n
        invariant
            i <= n,
            n == levels@.len(),
            out@ == old(out)@ + readings_bytes(levels@.take(i as int)),
        decreases n - i,
    {
        let ghost before = out@;
        put_text(out, levels.name_at(i));
        put_u64(out, levels.level_at(i).to_bits());
        proof {
            let next = levels@.take(i + 1);
            assert(next.drop_last() =~= levels@.take(i as int));
            assert(next.last() == levels@[i as int]);
            assert(out@ =~= old(out)@ + readings_bytes(next));
        }
        i += 1;
    }
    assert(levels@.take(n as int) =~= levels@);
}

/// The size of the byte form of `record`, unless it is more than `MAX_SIZE`.
pub fn encoded_size(record: &AirQualityData) -> (size: Option<usize>)
    ensures
        size is Some <==> fits(record@),
        size is Some ==> size->0 == encode_record(record@).len(),
{
    proof {
        encode_record_len(record@);
    }
    size_within_limit(&record.location, &record.health_recommendations, &record.pollutant_levels)
}

/// The byte form of `record`, unless it is larger than `MAX_SIZE`.
pub fn encode(record: &AirQualityData) -> (out: Option<Vec<u8>>)
    ensures
        out is Some <==> fits(record@),
        out is Some ==> out->0@ == encode_record(record@),
{
    if encoded_size(record).is_none() {
        return None;
    }
    let mut out: Vec<u8> = Vec::new();
    put_u64(&mut out, record.id);
    put_text(&mut out, &record.location);
    put_u64(&mut out, record.timestamp);
    put_u32(&mut out, record.air_quality_index);
    put_text(&mut out, &record.health_recommendations);
    let count = record.pollutant_levels.len();
    put_u32(&mut out, count as u32);
    put_readings(&mut out, &record.pollutant_levels);
    put_u64(&mut out, record.weather_conditions.temperature.to_bits());
    put_u64(&mut out, record.weather_conditions.humidity.to_bits());
    put_u64(&mut out, record.weather_conditions.wind_speed.to_bits());
    assert(out@ =~= encode_record(record@));
    Some(out)
}

impl AirQualityUpdatePayload {
    /// Decides whether the observation that the payload describes is small
    /// enough to be stored.
    pub fn fits(&self) -> (r: bool)
        ensures
            r == payload_fits(self@),
    {
        match &self.pollutant_levels {
            Some(levels) => size_within_limit(
                &self.location,
                &self.health_recommendations,
                levels,
            ).is_some(),
            None => {
                let levels = PollutantLevels::new();
                size_within_limit(&self.location, &self.health_recommendations, &levels).is_some()
            },
        }
    }
}

/// Whether the reader got what the bytes hold: the value that `want` gives,
/// and a position from which the rest of `bytes` is what `want` leaves over.
pub open spec fn read_as<T>(
    got: Option<(T, usize)>,
    want: Option<(T, Seq<u8>)>,
    bytes: Seq<u8>,
) -> bool {
    match want {
        Some((value, rest)) => {
            &&& got is Some
            &&& got.unwrap().0 == value
            &&& got.unwrap().1 <= bytes.len()
            &&& bytes.skip(got.unwrap().1 as int) == rest
        },
        None => got is None,
    }
}

fn read_u32(bytes: &Vec<u8>, pos: usize) -> (got: Option<(u32, usize)>)
    requires
        pos <= bytes.len(),
    ensures
        read_as(got, take_u32(bytes@.skip(pos as int)), bytes@),
{
    if bytes.len() - pos < 4 {
        return None;
    }
    let part = slice_subrange(bytes.as_slice(), pos, pos + 4);
    let x = u32_from_le_bytes(part);
    proof {
        assert(part@ =~= bytes@.skip(pos as int).take(4));
        assert(bytes@.skip(pos + 4) =~= bytes@.skip(pos as int).skip(4));
    }
    Some((x, pos + 4))
}

fn read_u64(bytes: &Vec<u8>, pos: usize) -> (got: Option<(u64, usize)>)
    requires
        pos <= bytes.len(),
    ensures
        read_as(got, take_u64(bytes@.skip(pos as int)), bytes@),
{
    if bytes.len() - pos < 8 {
        return None;
    }
    let part = slice_subrange(bytes.as_slice(), pos, pos + 8);
    let x = u64_from_le_bytes(part);
    proof {
        assert(part@ =~= bytes@.skip(pos as int).take(8));
        assert(bytes@.skip(pos + 8) =~= bytes@.skip(pos as int).skip(8));
    }
    Some((x, pos + 8))
}

fn read_text(bytes: &Vec<u8>, pos: usize) -> (got: Option<(String, usize)>)
    requires
        pos <= bytes.len(),
    ensures
        match take_text(bytes@.skip(pos as int)) {
            Some((text, rest)) => {
                &&& got is Some
                &&& got.unwrap().0@ == text
                &&& got.unwrap().1 <= bytes.len()
                &&& bytes@.skip(got.unwrap().1 as int) == rest
            },
            None => got is None,
        },
{
    let (n, start) = match read_u32(bytes, pos) {
        Some(found) => found,
        None => { return None; },
    };
    if bytes.len() - start < n as usize {
        return None;
    }
    let end = start + n as usize;
    let part = slice_to_vec(slice_subrange(bytes.as_slice(), start, end));
    proof {
        assert(part@ =~= bytes@.skip(start as int).take(n as int));
        assert(bytes@.skip(end as int) =~= bytes@.skip(start as int).skip(n as int));
    }
    match text_from_utf8(part) {
        Some(text) => Some((text, end)),
        None => None,
    }
}

fn read_measure(bytes: &Vec<u8>, pos: usize) -> (got: Option<(Measure, usize)>)
    requires
        pos <= bytes.len(),
    ensures
        got is Some <==> take_u64(bytes@.skip(pos as int)) is Some,
        got is Some ==> {
            let (bits, rest) = take_u64(bytes@.skip(pos as int))->0;
            got.unwrap().0 == (Measure { bits }) && got.unwrap().1 <= bytes.len() && bytes@.skip(
                got.unwrap().1 as int,
            ) == rest
        },
{
    match read_u64(bytes, pos) {
        Some((bits, next)) => Some((Measure::from_bits(bits), next)),
        None => None,
    }
}

fn read_readings(bytes: &Vec<u8>, pos: usize, count: u32) -> (got: Option<
    (Vec<(String, Measure)>, usize),
>)
    requires
        pos <= bytes.len(),
    ensures
        match take_readings(bytes@.skip(pos as int), count as nat) {
            Some((readings, rest)) => got is Some && readings_of(got.unwrap().0@) == readings
                && got.unwrap().1 <= bytes.len() && bytes@.skip(got.unwrap().1 as int) == rest,
            None => got is None,
        },
{
    let ghost whole = take_readings(bytes@.skip(pos as int), count as nat);
    let mut entries: Vec<(String, Measure)> = Vec::new();
    let mut cur: usize = pos;
    let mut i: u32 = 0;
    assert(readings_of(entries@) =~= Seq::<(Seq<char>, Measure)>::empty());
    proof {
        match whole {
            Some((readings, rest)) => {
                assert(readings_of(entries@) + readings =~= readings);
            },
            None => {},
        }
    }
    while i < count
        invariant
            i <= count,
            cur <= bytes.len(),
            whole == take_readings(bytes@.skip(pos as int), count as nat),
            whole == match take_readings(bytes@.skip(cur as int), (count - i) as nat) {
                Some((others, rest)) => Some((readings_of(entries@) + others, rest)),
                None => None,
            },
        decreases count - i,
    {
        let (name, after_name) = match read_text(bytes, cur) {
            Some(found) => found,
            None => { return None; },
        };
        let (level, next) = match read_measure(bytes, after_name) {
            Some(found) => found,
            None => { return None; },
        };
        proof {
            let first = (name@, level);
            match take_readings(bytes@.skip(next as int), (count - i - 1) as nat) {
                Some((others, rest)) => {
                    assert(readings_of(entries@.push((name, level))) + others =~= readings_of(
                        entries@,
                    ) + (seq![first] + others));
                },
                None => {},
            }
        }
        entries.push((name, level));
        cur = next;
        i += 1;
    }
    proof {
        assert(readings_of(entries@) + Seq::<(Seq<char>, Measure)>::empty() =~= readings_of(
            entries@,
        ));
    }
    Some((entries, cur))
}

/// The observation that `bytes` are the byte form of, if they are one.
pub fn decode(bytes: &Vec<u8>) -> (got: Option<AirQualityData>)
    ensures
        match decode_record(bytes@) {
            Some(r) => got is Some && got->0@ == r,
            None => got is None,
        },
{
    assert(bytes@.skip(0) =~= bytes@);
    let (id, pos) = match read_u64(bytes, 0) {
        Some(found) => found,
        None => { return None; },
    };
    let (location, pos) = match read_text(bytes, pos) {
        Some(found) => found,
        None => { return None; },
    };
    let (timestamp, pos) = match read_u64(bytes, pos) {
        Some(found) => found,
        None => { return None; },
    };
    let (air_quality_index, pos) = match read_u32(bytes, pos) {
        Some(found) => found,
        None => { return None; },
    };
    let (health_recommendations, pos) = match read_text(bytes, pos) {
        Some(found) => found,
        None => { return None; },
    };
    let (count, pos) = match read_u32(bytes, pos) {
        Some(found) => found,
        None => { return None; },
    };
    let (entries, pos) = match read_readings(bytes, pos, count) {
        Some(found) => found,
        None => { return None; },
    };
    let (temperature, pos) = match read_measure(bytes, pos) {
        Some(found) => found,
        None => { return None; },
    };
    let (humidity, pos) = match read_measure(bytes, pos) {
        Some(found) => found,
        None => { return None; },
    };
    let (wind_speed, pos) = match read_measure(bytes, pos) {
        Some(found) => found,
        None => { return None; },
    };
    if pos != bytes.len() {
        return None;
    }
    let pollutant_levels = match PollutantLevels::from_entries(entries) {
        Some(levels) => levels,
        None => { return None; },
    };
    Some(
        AirQualityData {
            id,
            location,
            timestamp,
            air_quality_index,
            health_recommendations,
            pollutant_levels,
            weather_conditions: WeatherData { temperature, humidity, wind_speed },
        },
    )
}

} // verus!
