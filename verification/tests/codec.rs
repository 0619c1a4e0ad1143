use air_quality_store::codec::{decode, encode, encoded_size, FIXED_SIZE, MAX_SIZE};
use air_quality_store::{
    AirQualityData, AirQualityUpdatePayload, Measure, PollutantLevels, WeatherData,
};

fn reading(x: f64) -> Measure {
    Measure::from_bits(x.to_bits())
}

fn sample() -> AirQualityData {
    let mut levels = PollutantLevels::new();
    levels.insert("pm25".to_string(), reading(12.5));
    levels.insert("ozone \u{2206}".to_string(), reading(-0.0));
    levels.insert("co".to_string(), reading(f64::NAN));
    AirQualityData {
        id: 0x0102_0304_0506_0708,
        location: "Z\u{fc}rich Flughafen".to_string(),
        timestamp: u64::MAX,
        air_quality_index: 301,
        health_recommendations: "\u{1f637}".to_string(),
        pollutant_levels: levels,
        weather_conditions: WeatherData {
            temperature: reading(-40.0),
            humidity: reading(f64::INFINITY),
            wind_speed: reading(1e-310),
        },
    }
}

fn with_location(len: usize) -> AirQualityUpdatePayload {
    AirQualityUpdatePayload {
        location: "x".repeat(len),
        air_quality_index: 1,
        health_recommendations: String::new(),
        pollutant_levels: None,
        weather_conditions: None,
    }
}

#[test]
fn decode_undoes_encode() {
    let record = sample();
    let bytes = encode(&record).unwrap();
    assert_eq!(decode(&bytes), Some(record));
}

#[test]
fn decode_undoes_encode_for_an_empty_record() {
    let record = AirQualityData::from_payload(0, with_location(0), 0);
    let bytes = encode(&record).unwrap();
    assert_eq!(bytes.len(), FIXED_SIZE);
    assert_eq!(decode(&bytes), Some(record));
}

#[test]
fn encoded_bytes_are_laid_out_as_described() {
    let mut levels = PollutantLevels::new();
    levels.insert("a".to_string(), Measure::from_bits(0x1122_3344_5566_7788));
    let record = AirQualityData {
        id: 1,
        location: "ab".to_string(),
        timestamp: 2,
        air_quality_index: 3,
        health_recommendations: "c".to_string(),
        pollutant_levels: levels,
        weather_conditions: WeatherData {
            temperature: Measure::from_bits(4),
            humidity: Measure::from_bits(5),
            wind_speed: Measure::from_bits(6),
        },
    };
    let mut expected: Vec<u8> = Vec::new();
    expected.extend_from_slice(&1u64.to_le_bytes());
    expected.extend_from_slice(&2u32.to_le_bytes());
    expected.extend_from_slice(b"ab");
    expected.extend_from_slice(&2u64.to_le_bytes());
    expected.extend_from_slice(&3u32.to_le_bytes());
    expected.extend_from_slice(&1u32.to_le_bytes());
    expected.extend_from_slice(b"c");
    expected.extend_from_slice(&1u32.to_le_bytes());
    expected.extend_from_slice(&1u32.to_le_bytes());
    expected.extend_from_slice(b"a");
    expected.extend_from_slice(&0x1122_3344_5566_7788u64.to_le_bytes());
    expected.extend_from_slice(&4u64.to_le_bytes());
    expected.extend_from_slice(&5u64.to_le_bytes());
    expected.extend_from_slice(&6u64.to_le_bytes());
    assert_eq!(encode(&record), Some(expected));
}

#[test]
fn encoded_size_is_the_length_of_the_bytes() {
    let record = sample();
    let bytes = encode(&record).unwrap();
    assert_eq!(encoded_size(&record), Some(bytes.len()));
    let names = "pm25".len() + "ozone \u{2206}".len() + "co".len();
    let texts = "Z\u{fc}rich Flughafen".len() + "\u{1f637}".len();
    assert_eq!(bytes.len(), FIXED_SIZE + texts + 3 * 12 + names);
}

#[test]
fn a_record_of_exactly_the_limit_fits() {
    let payload = with_location(MAX_SIZE - FIXED_SIZE);
    assert!(payload.fits());
    let record = AirQualityData::from_payload(9, payload, 9);
    let bytes = encode(&record).unwrap();
    assert_eq!(bytes.len(), 1024);
    assert_eq!(decode(&bytes), Some(record));
}

#[test]
fn a_record_over_the_limit_does_not_fit() {
    let payload = with_location(MAX_SIZE - FIXED_SIZE + 1);
    assert!(!payload.fits());
    let record = AirQualityData::from_payload(9, payload, 9);
    assert_eq!(encoded_size(&record), None);
    assert_eq!(encode(&record), None);
}

#[test]
fn readings_count_towards_the_limit() {
    let mut levels = PollutantLevels::new();
    for k in 0..71u32 {
        levels.insert(format!("p{:02}", k), reading(k as f64));
    }
    let mut payload = with_location(0);
    payload.pollutant_levels = Some(levels.clone());
    assert!(!payload.fits());
    let mut fewer = PollutantLevels::new();
    for k in 0..64u32 {
        fewer.insert(format!("p{:02}", k), reading(k as f64));
    }
    payload.pollutant_levels = Some(fewer);
    payload.location = "12345678".to_string();
    assert!(payload.fits());
    let record = AirQualityData::from_payload(1, payload, 1);
    assert_eq!(encoded_size(&record), Some(56 + 8 + 64 * 15));
}

#[test]
fn decode_rejects_truncated_bytes() {
    let bytes = encode(&sample()).unwrap();
    for len in 0..bytes.len() {
        let cut: Vec<u8> = bytes[..len].to_vec();
        assert_eq!(decode(&cut), None, "a prefix of {} bytes", len);
    }
}

#[test]
fn decode_rejects_trailing_bytes() {
    let mut bytes = encode(&sample()).unwrap();
    bytes.push(0);
    assert_eq!(decode(&bytes), None);
}

#[test]
fn decode_rejects_text_that_is_not_utf8() {
    let record = AirQualityData::from_payload(1, with_location(2), 1);
    let mut bytes = encode(&record).unwrap();
    bytes[12] = 0xff;
    assert_eq!(decode(&bytes), None);
}

#[test]
fn decode_rejects_a_name_that_occurs_twice() {
    let mut levels = PollutantLevels::new();
    levels.insert("aa".to_string(), reading(1.0));
    levels.insert("ab".to_string(), reading(2.0));
    let mut payload = with_location(0);
    payload.pollutant_levels = Some(levels);
    let record = AirQualityData::from_payload(1, payload, 1);
    let mut bytes = encode(&record).unwrap();
    assert!(decode(&bytes).is_some());
    let second_name = 8 + 4 + 8 + 4 + 4 + 4 + (4 + 2 + 8) + 4;
    assert_eq!(&bytes[second_name..second_name + 2], b"ab");
    bytes[second_name + 1] = b'a';
    assert_eq!(decode(&bytes), None);
}

#[test]
fn decode_rejects_a_count_beyond_the_bytes() {
    let record = AirQualityData::from_payload(1, with_location(0), 1);
    let mut bytes = encode(&record).unwrap();
    let count = 8 + 4 + 8 + 4 + 4;
    bytes[count] = 1;
    assert_eq!(decode(&bytes), None);
    bytes[count] = 0xff;
    bytes[count + 1] = 0xff;
    bytes[count + 2] = 0xff;
    bytes[count + 3] = 0xff;
    assert_eq!(decode(&bytes), None);
}

#[test]
fn decode_tells_records_apart() {
    let a = AirQualityData::from_payload(1, with_location(3), 7);
    let b = AirQualityData::from_payload(2, with_location(3), 7);
    let bytes_a = encode(&a).unwrap();
    let bytes_b = encode(&b).unwrap();
    assert_ne!(bytes_a, bytes_b);
    assert_eq!(decode(&bytes_a), Some(a));
    assert_eq!(decode(&bytes_b), Some(b));
}
