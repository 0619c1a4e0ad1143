use air_quality_store::{
    AirQualityStore, AirQualityUpdatePayload, Error, Measure, OpenError, PollutantLevels,
    StoreMemory, WeatherData,
};

fn measure(x: f64) -> Measure {
    Measure::from_bits(x.to_bits())
}

fn fresh() -> AirQualityStore {
    match AirQualityStore::create(StoreMemory::new()) {
        Ok(store) => store,
        Err(e) => panic!("a fresh memory must open: {:?}", e),
    }
}

fn plain(location: &str, index: u32) -> AirQualityUpdatePayload {
    AirQualityUpdatePayload {
        location: location.to_string(),
        air_quality_index: index,
        health_recommendations: "stay in".to_string(),
        pollutant_levels: None,
        weather_conditions: None,
    }
}

fn full(location: &str, index: u32) -> AirQualityUpdatePayload {
    let mut levels = PollutantLevels::new();
    levels.insert("pm25".to_string(), measure(12.5));
    levels.insert("o3".to_string(), measure(0.07));
    AirQualityUpdatePayload {
        location: location.to_string(),
        air_quality_index: index,
        health_recommendations: "wear a mask".to_string(),
        pollutant_levels: Some(levels),
        weather_conditions: Some(WeatherData {
            temperature: measure(21.5),
            humidity: measure(40.0),
            wind_speed: measure(3.25),
        }),
    }
}

fn message(e: Error) -> String {
    match e {
        Error::NotFound { msg } => msg,
    }
}

#[test]
fn fresh_store_is_empty_and_counts_from_zero() {
    let store = fresh();
    assert_eq!(store.next_id(), 0);
    assert_eq!(store.iterate().len(), 0);
    assert!(store.get_all_air_quality_data().unwrap().is_empty());
}

#[test]
fn created_ids_are_strictly_increasing() {
    let mut store = fresh();
    let mut last: Option<u64> = None;
    for k in 0..20u32 {
        let created = store.add_air_quality_data(plain("Oslo", k), 1_000 + k as u64).unwrap();
        if let Some(previous) = last {
            assert!(created.id > previous);
        }
        assert_eq!(created.id, k as u64);
        last = Some(created.id);
    }
    assert_eq!(store.next_id(), 20);
}

#[test]
fn ids_are_not_reused_after_delete() {
    let mut store = fresh();
    let a = store.add_air_quality_data(plain("Oslo", 1), 1).unwrap();
    let b = store.add_air_quality_data(plain("Oslo", 2), 2).unwrap();
    assert!(store.delete_air_quality_data(b.id).is_ok());
    assert!(store.delete_air_quality_data(a.id).is_ok());
    let c = store.add_air_quality_data(plain("Oslo", 3), 3).unwrap();
    assert_eq!(c.id, 2);
}

#[test]
fn add_assigns_id_and_timestamp_and_defaults() {
    let mut store = fresh();
    let created = store.add_air_quality_data(plain("Bergen", 42), 777).unwrap();
    assert_eq!(created.id, 0);
    assert_eq!(created.timestamp, 777);
    assert_eq!(created.location, "Bergen");
    assert_eq!(created.air_quality_index, 42);
    assert_eq!(created.health_recommendations, "stay in");
    assert_eq!(created.pollutant_levels.len(), 0);
    assert_eq!(created.weather_conditions, WeatherData::default());
    assert_eq!(created.weather_conditions.temperature.to_bits(), 0.0f64.to_bits());
}

#[test]
fn get_after_create_returns_identical_record() {
    let mut store = fresh();
    let created = store.add_air_quality_data(full("Airport", 77), 123_456).unwrap();
    let found = store.get_air_quality_data(created.id).unwrap();
    assert_eq!(found, created);
    assert_eq!(found.pollutant_levels.get(&"pm25".to_string()), Some(measure(12.5)));
    assert_eq!(found.pollutant_levels.get(&"o3".to_string()), Some(measure(0.07)));
    assert_eq!(found.weather_conditions.wind_speed, measure(3.25));
    assert_eq!(store._get_air_quality_data(&created.id), Some(created));
}

#[test]
fn get_of_missing_id_reports_not_found() {
    let store = fresh();
    let e = store.get_air_quality_data(5).unwrap_err();
    assert_eq!(message(e), "air quality data with id=5 not found");
    assert_eq!(store._get_air_quality_data(&5), None);
}

#[test]
fn get_after_delete_returns_absent() {
    let mut store = fresh();
    let created = store.add_air_quality_data(full("Airport", 77), 1).unwrap();
    let deleted = store.delete_air_quality_data(created.id).unwrap();
    assert_eq!(deleted, created);
    assert!(store.get_air_quality_data(created.id).is_err());
    assert_eq!(store.iterate().len(), 0);
}

#[test]
fn delete_of_missing_id_reports_not_found() {
    let mut store = fresh();
    store.add_air_quality_data(plain("Oslo", 1), 1).unwrap();
    let e = store.delete_air_quality_data(18_446_744_073_709_551_615).unwrap_err();
    assert_eq!(
        message(e),
        "couldn't delete air quality data with id=18446744073709551615. data not found."
    );
    assert_eq!(store.iterate().len(), 1);
}

#[test]
fn update_replaces_fields_and_keeps_id() {
    let mut store = fresh();
    let created = store.add_air_quality_data(full("Airport", 77), 100).unwrap();
    let mut payload = plain("Harbour", 12);
    let mut levels = PollutantLevels::new();
    levels.insert("no2".to_string(), measure(3.0));
    payload.pollutant_levels = Some(levels);
    let updated = store.update_air_quality_data(created.id, payload, 250).unwrap();
    assert_eq!(updated.id, created.id);
    assert_eq!(updated.location, "Harbour");
    assert_eq!(updated.air_quality_index, 12);
    assert_eq!(updated.health_recommendations, "stay in");
    assert_eq!(updated.timestamp, 250);
    assert!(updated.timestamp >= created.timestamp);
    assert_eq!(updated.pollutant_levels.len(), 1);
    assert_eq!(updated.pollutant_levels.get(&"no2".to_string()), Some(measure(3.0)));
    assert_eq!(updated.pollutant_levels.get(&"pm25".to_string()), None);
    assert_eq!(store.get_air_quality_data(created.id).unwrap(), updated);
    assert_eq!(store.next_id(), 1);
}

#[test]
fn update_without_optionals_resets_them() {
    let mut store = fresh();
    let created = store.add_air_quality_data(full("Airport", 77), 100).unwrap();
    assert_eq!(created.pollutant_levels.len(), 2);
    let updated = store.update_air_quality_data(created.id, plain("Airport", 78), 101).unwrap();
    assert_eq!(updated.pollutant_levels.len(), 0);
    assert_eq!(updated.weather_conditions, WeatherData::default());
    let found = store.get_air_quality_data(created.id).unwrap();
    assert_eq!(found.pollutant_levels.len(), 0);
    assert_eq!(found.weather_conditions.humidity.to_bits(), 0);
}

#[test]
fn update_of_missing_id_reports_not_found() {
    let mut store = fresh();
    store.add_air_quality_data(plain("Oslo", 1), 1).unwrap();
    let e = store.update_air_quality_data(9, plain("Oslo", 2), 2).unwrap_err();
    assert_eq!(message(e), "couldn't update air quality data with id=9. data not found");
    assert_eq!(store.get_air_quality_data(0).unwrap().air_quality_index, 1);
    assert_eq!(store.iterate().len(), 1);
}

#[test]
fn insert_overwrites_under_the_same_id() {
    let mut store = fresh();
    let mut record = store.add_air_quality_data(plain("Oslo", 1), 1).unwrap();
    record.air_quality_index = 300;
    store.do_insert_air_quality(&record);
    assert_eq!(store.iterate().len(), 1);
    assert_eq!(store.get_air_quality_data(record.id).unwrap().air_quality_index, 300);
}

#[test]
fn remove_returns_what_was_stored() {
    let mut store = fresh();
    let record = store.add_air_quality_data(plain("Oslo", 1), 1).unwrap();
    assert_eq!(store.remove(record.id), Some(record));
    assert_eq!(store.remove(0), None);
}

#[test]
fn iterate_lists_in_ascending_id_order() {
    let mut store = fresh();
    for k in 0..40u32 {
        store.add_air_quality_data(plain("Oslo", k), 1_000 - k as u64).unwrap();
    }
    store.delete_air_quality_data(7).unwrap();
    store.delete_air_quality_data(0).unwrap();
    store.update_air_quality_data(3, plain("Rome", 1), 5).unwrap();
    let all = store.get_all_air_quality_data().unwrap();
    assert_eq!(all.len(), 38);
    let ids: Vec<u64> = all.iter().map(|r| r.id).collect();
    let mut expected: Vec<u64> = (1..40u64).collect();
    expected.retain(|id| *id != 7);
    assert_eq!(ids, expected);
    assert_eq!(all[2].location, "Rome");
}

#[test]
fn issue_id_moves_the_counter() {
    let mut store = fresh();
    assert_eq!(store.issue_id(), Some(0));
    assert_eq!(store.issue_id(), Some(1));
    assert_eq!(store.next_id(), 2);
    assert_eq!(store.iterate().len(), 0);
}

#[test]
fn new_memory_has_no_pages() {
    assert_eq!(StoreMemory::new().pages(), 0);
}

#[test]
fn init_on_new_memory_gives_an_empty_store() {
    let store = AirQualityStore::init(StoreMemory::new()).unwrap();
    assert_eq!(store.next_id(), 0);
    assert_eq!(store.iterate().len(), 0);
}

#[test]
fn store_survives_reopening() {
    let mut store = fresh();
    let first = store.add_air_quality_data(full("Airport", 77), 10).unwrap();
    let second = store.add_air_quality_data(plain("Harbour", 5), 11).unwrap();
    store.delete_air_quality_data(first.id).unwrap();
    let memory = store.close();
    assert!(memory.pages() > 0);
    let mut store = AirQualityStore::init(memory).unwrap();
    assert_eq!(store.next_id(), 2);
    assert!(store.get_air_quality_data(first.id).is_err());
    assert_eq!(store.get_air_quality_data(second.id).unwrap(), second);
    let third = store.add_air_quality_data(plain("Hill", 9), 12).unwrap();
    assert_eq!(third.id, 2);
    let again = AirQualityStore::init(store.close()).unwrap();
    assert_eq!(again.next_id(), 3);
    assert_eq!(again.iterate().len(), 2);
}

#[test]
fn empty_store_survives_reopening() {
    let memory = fresh().close();
    let store = AirQualityStore::init(memory).unwrap();
    assert_eq!(store.next_id(), 0);
    assert_eq!(store.iterate().len(), 0);
}

#[test]
fn create_refuses_a_memory_that_has_pages() {
    let mut store = fresh();
    store.add_air_quality_data(plain("Oslo", 1), 1).unwrap();
    let memory = store.close();
    assert_eq!(AirQualityStore::create(memory).err(), Some(OpenError::NotBlank));
}

#[test]
fn every_creation_below_the_limit_returns_a_record() {
    let mut store = fresh();
    for k in 0..300u64 {
        let created = store.add_air_quality_data(full("Oslo", 1), k);
        assert_eq!(created.map(|r| r.id), Some(k));
    }
    assert_eq!(store.iterate().len(), 300);
}
