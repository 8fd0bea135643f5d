//! The local key-value storage of serialized race and odds records.

use bort_data::storage::{race_key, StorageService};

fn sample_race_payload() -> String {
    "{\"escape_last_year\":50.5,\"player\":\"テスト選手\"}".to_string()
}

fn sample_odds_payload() -> String {
    "{\"betting_type\":\"WinPlace\",\"combinations\":[2.5,3.2]}".to_string()
}

#[test]
fn test_save_and_get_race_data() {
    let mut service = StorageService::new().unwrap();
    let save_result = service.save_race("2025-09-15", 1, 1, sample_race_payload());
    assert!(save_result.is_ok());

    let retrieved = service.get_race("2025-09-15", 1, 1);
    assert!(retrieved.is_some(), "No data retrieved");
    let payload = retrieved.unwrap();
    assert!(payload.contains("テスト選手"));
    assert!(payload.contains("50.5"));
}

#[test]
fn test_save_and_get_odds_data() {
    let mut service = StorageService::new().unwrap();
    let save_result = service.save_odds("2025-09-15", 1, 1, sample_odds_payload());
    assert!(save_result.is_ok());

    let retrieved = service.get_odds("2025-09-15", 1, 1);
    assert!(retrieved.is_some(), "No odds data retrieved");
    let payload = retrieved.unwrap();
    assert!(payload.contains("WinPlace"));
    assert!(payload.contains("2.5"));
}

#[test]
fn test_get_all_race_keys() {
    let mut service = StorageService::new().unwrap();
    service
        .save_race("2025-09-15", 1, 1, sample_race_payload())
        .unwrap();
    service
        .save_race("2025-09-15", 1, 2, sample_race_payload())
        .unwrap();
    service
        .save_odds("2025-09-15", 1, 1, sample_odds_payload())
        .unwrap();

    let keys = service.get_all_race_keys().unwrap();
    assert!(keys.len() >= 3, "Expected at least 3 keys, got {}", keys.len());

    let has_data_key = keys.iter().any(|k| k.contains("race_2025-09-15_1_1_data"));
    let has_odds_key = keys.iter().any(|k| k.contains("race_2025-09-15_1_1_odds"));
    assert!(has_data_key, "Race data key not found in: {:?}", keys);
    assert!(has_odds_key, "Odds data key not found in: {:?}", keys);
}

#[test]
fn test_delete_race_data() {
    let mut service = StorageService::new().unwrap();
    service
        .save_race("2025-09-15", 2, 1, sample_race_payload())
        .unwrap();
    service
        .save_odds("2025-09-15", 2, 1, sample_odds_payload())
        .unwrap();

    assert!(service.get_race("2025-09-15", 2, 1).is_some());

    let delete_result = service.delete_race("2025-09-15", 2, 1);
    assert!(delete_result.is_ok());

    assert!(service.get_race("2025-09-15", 2, 1).is_none());
    assert!(service.get_odds("2025-09-15", 2, 1).is_none());
}

#[test]
fn storage_keys_have_the_documented_shape() {
    assert_eq!(race_key("2025-09-15", 1, 12, "data"), "race_2025-09-15_1_12_data");
    assert_eq!(race_key("20250101", 24, 1, "odds"), "race_20250101_24_1_odds");
}

#[test]
fn clear_all_empties_the_store() {
    let mut service = StorageService::new().unwrap();
    service
        .save_race("2025-09-15", 1, 1, sample_race_payload())
        .unwrap();
    service.clear_all().unwrap();
    assert!(service.get_race("2025-09-15", 1, 1).is_none());
    assert!(service.get_all_race_keys().unwrap().is_empty());
}
