use air_quality_store::{
    get_health_recommendations, AirQualityData, AirQualityStore, AirQualityUpdatePayload, Error,
    Filter, IndexAverage, Measure, PollutantLevels, StoreMemory, WeatherData,
};

fn num(x: f64) -> Measure {
    Measure::from_bits(x.to_bits())
}

fn empty_store() -> AirQualityStore {
    AirQualityStore::create(StoreMemory::new()).unwrap()
}

fn at(location: &str, index: u32) -> AirQualityUpdatePayload {
    AirQualityUpdatePayload {
        location: location.to_string(),
        air_quality_index: index,
        health_recommendations: String::new(),
        pollutant_levels: None,
        weather_conditions: None,
    }
}

fn with_weather(location: &str, t: f64, h: f64, w: f64) -> AirQualityUpdatePayload {
    let mut payload = at(location, 10);
    payload.weather_conditions =
        Some(WeatherData { temperature: num(t), humidity: num(h), wind_speed: num(w) });
    payload
}

fn with_level(location: &str, name: &str, level: f64) -> AirQualityUpdatePayload {
    let mut payload = at(location, 10);
    let mut levels = PollutantLevels::new();
    levels.insert(name.to_string(), num(level));
    payload.pollutant_levels = Some(levels);
    payload
}

fn ids(found: &Vec<AirQualityData>) -> Vec<u64> {
    found.iter().map(|r| r.id).collect()
}

fn text_of(e: Error) -> String {
    match e {
        Error::NotFound { msg } => msg,
    }
}

fn cities() -> AirQualityStore {
    let mut store = empty_store();
    store.add_air_quality_data(at("Fairbanks", 40), 50).unwrap();
    store.add_air_quality_data(at("Cairo", 160), 40).unwrap();
    store.add_air_quality_data(at("Air Base", 90), 60).unwrap();
    store.add_air_quality_data(at("Buenos Aires", 70), 40).unwrap();
    store.add_air_quality_data(at("airport", 20), 10).unwrap();
    store.add_air_quality_data(at("Cairo", 200), 60).unwrap();
    store
}

#[test]
fn search_by_location_finds_exactly_the_substring_matches() {
    let store = cities();
    let found = store.search_air_quality_data_by_location("air".to_string()).unwrap();
    assert_eq!(ids(&found), vec![0, 1, 4, 5]);
    for record in &found {
        assert!(record.location.contains("air"));
    }
    for record in store.iterate() {
        assert_eq!(record.location.contains("air"), ids(&found).contains(&record.id));
    }
}

#[test]
fn search_by_location_is_case_sensitive() {
    let store = cities();
    let found = store.search_air_quality_data_by_location("Air".to_string()).unwrap();
    assert_eq!(ids(&found), vec![2, 3]);
}

#[test]
fn search_by_location_with_empty_text_finds_all() {
    let store = cities();
    let found = store.search_air_quality_data_by_location(String::new()).unwrap();
    assert_eq!(ids(&found), vec![0, 1, 2, 3, 4, 5]);
}

#[test]
fn search_without_match_is_empty_and_no_error() {
    let store = cities();
    let found = store.search_air_quality_data_by_location("Nowhere".to_string());
    assert_eq!(found, Ok(Vec::new()));
}

#[test]
fn search_in_empty_store_is_empty_and_no_error() {
    let store = empty_store();
    assert_eq!(store.search_air_quality_data_by_location("air".to_string()), Ok(Vec::new()));
    assert_eq!(store.get_all_air_quality_data(), Ok(Vec::new()));
    assert_eq!(store.get_air_quality_data_by_timestamp_range(0, u64::MAX), Ok(Vec::new()));
    assert_eq!(store.get_recent_air_quality_data(3), Ok(Vec::new()));
}

#[test]
fn search_with_a_filter_agrees_with_keeps() {
    let store = cities();
    let filter = Filter::LocationIs("Cairo".to_string());
    let found = store.search(&filter);
    assert_eq!(ids(&found), vec![1, 5]);
    for record in store.iterate() {
        assert_eq!(filter.keeps(&record), record.location == "Cairo");
    }
    assert_eq!(store.search(&Filter::Everything).len(), 6);
}

#[test]
fn timestamp_range_is_inclusive() {
    let store = cities();
    let found = store.get_air_quality_data_by_timestamp_range(40, 50).unwrap();
    assert_eq!(ids(&found), vec![0, 1, 3]);
    let found = store.get_air_quality_data_by_timestamp_range(60, 60).unwrap();
    assert_eq!(ids(&found), vec![2, 5]);
    let found = store.get_air_quality_data_by_timestamp_range(0, u64::MAX).unwrap();
    assert_eq!(found.len(), 6);
}

#[test]
fn inverted_timestamp_range_is_empty() {
    let store = cities();
    assert_eq!(store.get_air_quality_data_by_timestamp_range(50, 40), Ok(Vec::new()));
}

#[test]
fn weather_filter_needs_all_three_in_range() {
    let mut store = empty_store();
    store.add_air_quality_data(with_weather("a", 20.0, 50.0, 5.0), 1).unwrap();
    store.add_air_quality_data(with_weather("b", 30.5, 50.0, 5.0), 1).unwrap();
    store.add_air_quality_data(with_weather("c", 20.0, 80.0, 5.0), 1).unwrap();
    store.add_air_quality_data(with_weather("d", 20.0, 50.0, 0.5), 1).unwrap();
    store.add_air_quality_data(with_weather("e", 10.0, 40.0, 1.0), 1).unwrap();
    store.add_air_quality_data(with_weather("f", 30.0, 60.0, 10.0), 1).unwrap();
    store.add_air_quality_data(with_weather("g", -5.0, 45.0, 2.0), 1).unwrap();
    let found = store
        .get_air_quality_data_by_weather_conditions(
            num(10.0),
            num(30.0),
            num(40.0),
            num(60.0),
            num(1.0),
            num(10.0),
        )
        .unwrap();
    assert_eq!(ids(&found), vec![0, 4, 5]);
}

#[test]
fn weather_filter_with_inverted_range_is_empty() {
    let mut store = empty_store();
    store.add_air_quality_data(with_weather("a", 20.0, 50.0, 5.0), 1).unwrap();
    let found = store.get_air_quality_data_by_weather_conditions(
        num(30.0),
        num(10.0),
        num(0.0),
        num(100.0),
        num(0.0),
        num(100.0),
    );
    assert_eq!(found, Ok(Vec::new()));
}

#[test]
fn weather_filter_finds_defaulted_weather_at_zero() {
    let mut store = empty_store();
    store.add_air_quality_data(at("a", 1), 1).unwrap();
    store.add_air_quality_data(with_weather("b", -0.0, 0.0, 0.0), 1).unwrap();
    store.add_air_quality_data(with_weather("c", f64::NAN, 0.0, 0.0), 1).unwrap();
    let found = store
        .get_air_quality_data_by_weather_conditions(
            num(0.0),
            num(0.0),
            num(-1.0),
            num(1.0),
            num(-0.0),
            num(f64::INFINITY),
        )
        .unwrap();
    assert_eq!(ids(&found), vec![0, 1]);
    let none = store
        .get_air_quality_data_by_weather_conditions(
            num(f64::NAN),
            num(1.0),
            num(-1.0),
            num(1.0),
            num(-1.0),
            num(1.0),
        )
        .unwrap();
    assert!(none.is_empty());
}

#[test]
fn pollutant_filter_is_inclusive() {
    let mut store = empty_store();
    store.add_air_quality_data(with_level("a", "pm25", 10.0), 1).unwrap();
    store.add_air_quality_data(with_level("b", "pm25", 20.0), 1).unwrap();
    store.add_air_quality_data(with_level("c", "pm25", 20.000001), 1).unwrap();
    store.add_air_quality_data(with_level("d", "pm25", 9.5), 1).unwrap();
    store.add_air_quality_data(with_level("e", "pm10", 15.0), 1).unwrap();
    let found = store
        .get_air_quality_data_by_pollutant_level("pm25".to_string(), num(10.0), num(20.0))
        .unwrap();
    assert_eq!(ids(&found), vec![0, 1]);
}

#[test]
fn pollutant_filter_excludes_records_without_the_pollutant() {
    let mut store = empty_store();
    store.add_air_quality_data(at("none", 1), 1).unwrap();
    store.add_air_quality_data(with_level("other", "pm10", 0.0), 1).unwrap();
    store.add_air_quality_data(with_level("zero", "pm25", 0.0), 1).unwrap();
    let found = store
        .get_air_quality_data_by_pollutant_level("pm25".to_string(), num(-1.0), num(1.0))
        .unwrap();
    assert_eq!(ids(&found), vec![2]);
    let found = store
        .get_air_quality_data_by_pollutant_level("PM25".to_string(), num(-1.0), num(1.0))
        .unwrap();
    assert!(found.is_empty());
}

#[test]
fn pollutant_filter_with_inverted_range_is_empty() {
    let mut store = empty_store();
    store.add_air_quality_data(with_level("a", "pm25", 10.0), 1).unwrap();
    let found =
        store.get_air_quality_data_by_pollutant_level("pm25".to_string(), num(20.0), num(5.0));
    assert_eq!(found, Ok(Vec::new()));
}

#[test]
fn recent_of_zero_is_empty() {
    let store = cities();
    assert_eq!(store.get_recent_air_quality_data(0), Ok(Vec::new()));
}

#[test]
fn recent_of_more_than_all_is_all_newest_first() {
    let store = cities();
    let found = store.get_recent_air_quality_data(100).unwrap();
    assert_eq!(ids(&found), vec![2, 5, 0, 1, 3, 4]);
    let exactly = store.get_recent_air_quality_data(6).unwrap();
    assert_eq!(exactly, found);
    let most = store.get_recent_air_quality_data(usize::MAX).unwrap();
    assert_eq!(most, found);
    for pair in found.windows(2) {
        assert!(pair[0].timestamp >= pair[1].timestamp);
    }
}

#[test]
fn recent_takes_the_newest_and_breaks_ties_by_id() {
    let store = cities();
    let found = store.get_recent_air_quality_data(3).unwrap();
    assert_eq!(ids(&found), vec![2, 5, 0]);
    let one = store.get_recent_air_quality_data(1).unwrap();
    assert_eq!(ids(&one), vec![2]);
}

#[test]
fn recent_orders_timestamps_over_the_whole_range() {
    let mut store = empty_store();
    store.add_air_quality_data(at("a", 1), 0).unwrap();
    store.add_air_quality_data(at("b", 1), u64::MAX).unwrap();
    store.add_air_quality_data(at("c", 1), 1 << 63).unwrap();
    store.add_air_quality_data(at("d", 1), (1 << 63) - 1).unwrap();
    let found = store.get_recent_air_quality_data(4).unwrap();
    assert_eq!(ids(&found), vec![1, 2, 3, 0]);
}

#[test]
fn average_is_the_sum_over_the_count() {
    let store = cities();
    let average = store.get_average_air_quality_index("Cairo".to_string()).unwrap();
    assert_eq!(average, IndexAverage { sum: 360, count: 2 });
    assert_eq!(average.sum as f64 / average.count as f64, 180.0);
    let single = store.get_average_air_quality_index("airport".to_string()).unwrap();
    assert_eq!(single, IndexAverage { sum: 20, count: 1 });
}

#[test]
fn average_uses_exact_location_not_substring() {
    let store = cities();
    let e = store.get_average_air_quality_index("air".to_string()).unwrap_err();
    assert_eq!(text_of(e), "No data found for location air");
}

#[test]
fn average_of_unknown_location_reports_not_found() {
    let store = cities();
    let e = store.get_average_air_quality_index("Nowhere".to_string()).unwrap_err();
    assert_eq!(text_of(e), "No data found for location Nowhere");
    let e = empty_store().get_average_air_quality_index("Nowhere".to_string()).unwrap_err();
    assert_eq!(e, Error::NotFound { msg: "No data found for location Nowhere".to_string() });
}

#[test]
fn average_does_not_overflow_on_large_indexes() {
    let mut store = empty_store();
    store.add_air_quality_data(at("x", u32::MAX), 1).unwrap();
    store.add_air_quality_data(at("x", u32::MAX), 1).unwrap();
    store.add_air_quality_data(at("x", 2), 1).unwrap();
    let average = store.get_average_air_quality_index("x".to_string()).unwrap();
    assert_eq!(average, IndexAverage { sum: 8_589_934_592, count: 3 });
}

#[test]
fn delete_by_location_removes_exactly_the_matches() {
    let mut store = cities();
    assert_eq!(store.delete_air_quality_data_by_location("Cairo".to_string()), Ok(2));
    assert!(store.get_air_quality_data(1).is_err());
    assert!(store.get_air_quality_data(5).is_err());
    assert_eq!(ids(&store.iterate()), vec![0, 2, 3, 4]);
    assert_eq!(store.next_id(), 6);
}

#[test]
fn delete_by_location_without_match_reports_not_found() {
    let mut store = cities();
    let e = store.delete_air_quality_data_by_location("X".to_string()).unwrap_err();
    assert_eq!(text_of(e), "No data found for location X");
    assert_eq!(store.iterate().len(), 6);
    let e = store.delete_air_quality_data_by_location("Cair".to_string()).unwrap_err();
    assert_eq!(text_of(e), "No data found for location Cair");
    assert_eq!(store.iterate().len(), 6);
}

#[test]
fn delete_by_location_twice_reports_not_found_the_second_time() {
    let mut store = cities();
    assert_eq!(store.delete_air_quality_data_by_location("airport".to_string()), Ok(1));
    assert!(store.delete_air_quality_data_by_location("airport".to_string()).is_err());
}

#[test]
fn health_tiers_end_with_their_upper_bound() {
    assert_eq!(get_health_recommendations(0), "good");
    assert_eq!(get_health_recommendations(50), "good");
    assert_eq!(get_health_recommendations(51), "moderate");
    assert_eq!(get_health_recommendations(100), "moderate");
    assert_eq!(get_health_recommendations(101), "unhealthy for sensitive groups");
    assert_eq!(get_health_recommendations(150), "unhealthy for sensitive groups");
    assert_eq!(get_health_recommendations(151), "unhealthy");
    assert_eq!(get_health_recommendations(200), "unhealthy");
    assert_eq!(get_health_recommendations(201), "very unhealthy");
    assert_eq!(get_health_recommendations(300), "very unhealthy");
    assert_eq!(get_health_recommendations(301), "hazardous");
    assert_eq!(get_health_recommendations(u32::MAX), "hazardous");
}
