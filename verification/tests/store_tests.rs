//! The migration engine over the in-memory store model: counts, rollback,
//! idempotence and the end-to-end high-payout scenario.

use bort_data::records::{
    PayoutEntry, PayoutInfo, ProgramPayload, ProgramRacerInfo, ProgramRecord, RaceProgram,
    RaceResult, ResultPayload, ResultRacerInfo, ResultRecord,
};
use bort_data::store::{Store, StoreError};

fn payouts_with_trifecta(trifecta: i32, win: i32) -> PayoutInfo {
    PayoutInfo {
        win: Some(vec![PayoutEntry { combination: Some("1".to_string()), payout: Some(win) }]),
        place: Some(vec![
            PayoutEntry { combination: Some("1".to_string()), payout: Some(110) },
            PayoutEntry { combination: Some("3".to_string()), payout: Some(260) },
        ]),
        exacta: Some(vec![PayoutEntry {
            combination: Some("3-1".to_string()),
            payout: Some(2040),
        }]),
        quinella: Some(vec![PayoutEntry {
            combination: Some("1=3".to_string()),
            payout: Some(980),
        }]),
        quinella_place: None,
        trifecta: Some(vec![PayoutEntry {
            combination: Some("3-1-5".to_string()),
            payout: Some(trifecta),
        }]),
        trio: Some(vec![PayoutEntry {
            combination: Some("1=3=5".to_string()),
            payout: Some(7420),
        }]),
    }
}

fn boats_with_winner(winner_boat: i32) -> Vec<ResultRacerInfo> {
    (1..=6)
        .map(|b| ResultRacerInfo {
            racer_boat_number: b,
            racer_course_number: Some(b),
            racer_start_timing: Some(15),
            racer_place_number: Some(if b == winner_boat {
                1
            } else if b < winner_boat {
                b + 1
            } else {
                b
            }),
            racer_number: Some(4000 + b),
            racer_name: Some(format!("racer {}", b)),
        })
        .collect()
}

fn result_record(date: &str, venue: &str, race: i32, winner_boat: i32, trifecta: i32) -> ResultRecord {
    ResultRecord {
        id: 0,
        date: date.to_string(),
        venue_code: venue.to_string(),
        race_number: race,
        payload: ResultPayload::Parsed(RaceResult {
            race_date: date.to_string(),
            race_stadium_number: venue.parse().unwrap(),
            race_number: race,
            race_wind: Some(300),
            race_wind_direction_number: Some(1100),
            race_wave: Some(200),
            race_weather_number: Some(200),
            race_temperature: Some(1450),
            race_water_temperature: Some(1800),
            race_technique_number: Some(100),
            boats: boats_with_winner(winner_boat),
            payouts: payouts_with_trifecta(trifecta, 310),
        }),
        created_at: "2025-01-01T00:00:00Z".to_string(),
        updated_at: "2025-01-01T00:00:00Z".to_string(),
    }
}

fn program_record(date: &str, venue: &str, race: i32) -> ProgramRecord {
    let boats = (1..=6)
        .map(|b| ProgramRacerInfo {
            racer_boat_number: Some(b),
            racer_name: Some(format!("racer {}", b)),
            racer_number: Some(4000 + b),
            racer_class_number: Some(((b - 1) % 4) + 1),
            racer_branch_number: Some(10),
            racer_birthplace_number: Some(10),
            racer_age: Some(30),
            racer_weight: Some(5200),
            racer_flying_count: Some(0),
            racer_late_count: Some(0),
            racer_average_start_timing: Some(16),
            racer_national_top_1_percent: Some(620),
            racer_national_top_2_percent: Some(4300),
            racer_national_top_3_percent: Some(6100),
            racer_local_top_1_percent: Some(650),
            racer_local_top_2_percent: Some(4500),
            racer_local_top_3_percent: Some(6300),
            racer_assigned_motor_number: Some(11),
            racer_assigned_motor_top_2_percent: Some(3500),
            racer_assigned_motor_top_3_percent: Some(5200),
            racer_assigned_boat_number: Some(22),
            racer_assigned_boat_top_2_percent: Some(3300),
            racer_assigned_boat_top_3_percent: Some(5000),
        })
        .collect();
    ProgramRecord {
        id: 0,
        date: date.to_string(),
        venue_code: venue.to_string(),
        race_number: race,
        payload: ProgramPayload::Parsed(RaceProgram {
            race_date: date.to_string(),
            race_stadium_number: venue.parse().unwrap(),
            race_number: race,
            race_closed_at: None,
            race_grade_number: Some(2),
            race_title: Some("title".to_string()),
            race_subtitle: Some("subtitle".to_string()),
            race_distance: Some(1800),
            boats,
        }),
        created_at: "2025-01-01T00:00:00Z".to_string(),
        updated_at: "2025-01-01T00:00:00Z".to_string(),
    }
}

#[test]
fn migration_counts_races_and_participants() {
    // N raw result rows become exactly N races and 6 N participants.
    let mut store = Store::empty();
    for race in 1..=3 {
        store.insert_raw_result(result_record("20250101", "12", race, 1, 5000));
        store.insert_raw_program(program_record("20250101", "12", race));
    }
    store.insert_raw_result(result_record("20250102", "01", 1, 2, 9000));

    let r = store.run_migrations();
    assert!(r.is_ok());
    assert_eq!(store.races.len(), 4);
    assert_eq!(store.participants.len(), 24);
    assert!(store.results.is_none());
    // Program metadata was merged where a program shared the key.
    let merged = store
        .races
        .iter()
        .find(|rc| rc.race_date == "20250101" && rc.race_number == 2)
        .unwrap();
    assert_eq!(merged.race_grade_number, Some(2));
    assert_eq!(merged.race_title.as_deref(), Some("title"));
    let lone = store
        .races
        .iter()
        .find(|rc| rc.race_date == "20250102")
        .unwrap();
    assert_eq!(lone.race_grade_number, None);
}

#[test]
fn migration_rolls_back_on_undecodable_payload() {
    // A payload that never decoded breaks the count verification: nothing
    // changes, the raw results table survives.
    let mut store = Store::empty();
    store.insert_raw_result(result_record("20250101", "12", 1, 1, 5000));
    store.insert_raw_result(ResultRecord {
        id: 0,
        date: "20250101".to_string(),
        venue_code: "13".to_string(),
        race_number: 1,
        payload: ResultPayload::Undecoded("{not json".to_string()),
        created_at: "t".to_string(),
        updated_at: "t".to_string(),
    });

    let r = store.run_migrations();
    assert_eq!(r.unwrap_err(), StoreError::Integrity);
    assert!(store.results.is_some());
    assert_eq!(store.results.as_ref().unwrap().len(), 2);
    assert!(!store.races_created);
    assert!(store.races.is_empty());
    assert!(store.participants.is_empty());
}

#[test]
fn migration_rolls_back_on_wrong_boat_count() {
    let mut store = Store::empty();
    let mut bad = result_record("20250101", "12", 1, 1, 5000);
    if let ResultPayload::Parsed(data) = &mut bad.payload {
        data.boats.pop();
    }
    store.insert_raw_result(bad);

    let r = store.run_migrations();
    assert_eq!(r.unwrap_err(), StoreError::Integrity);
    assert!(store.results.is_some());
    assert!(!store.races_created);
}

#[test]
fn migration_is_idempotent() {
    // A second run over an already-migrated store is a no-op.
    let mut store = Store::empty();
    store.insert_raw_result(result_record("20250101", "12", 1, 1, 5000));
    store.run_migrations().unwrap();
    let races_before = store.races.len();
    let parts_before = store.participants.len();
    let indexes_before = store.indexes.len();

    let r = store.run_migrations();
    assert!(r.is_ok());
    assert_eq!(store.races.len(), races_before);
    assert_eq!(store.participants.len(), parts_before);
    assert_eq!(store.indexes.len(), indexes_before);
    assert!(store.results.is_none());
}

#[test]
fn test_v2_migration_execution() {
    // Opening a fresh store runs both stages without error.
    let store = Store::new();
    assert!(store.results_v2);
    assert!(store.races_created);
}

#[test]
fn derived_columns_pick_first_payout_and_winner() {
    let mut store = Store::empty();
    store.insert_raw_result(result_record("20250101", "12", 1, 3, 125000));
    store.run_migrations().unwrap();

    let race = &store.races[0];
    assert_eq!(race.trifecta_payout, Some(125000));
    assert_eq!(race.win_payout, Some(310));
    // The maximum across the place entries, not the first.
    assert_eq!(race.place_payout_max, Some(260));
    assert_eq!(race.winner_boat_number, Some(3));
    assert_eq!(race.winner_racer_number, Some(4003));
}

#[test]
fn winner_fields_absent_without_a_first_place() {
    let mut store = Store::empty();
    let mut rec = result_record("20250101", "12", 1, 1, 5000);
    if let ResultPayload::Parsed(data) = &mut rec.payload {
        for b in &mut data.boats {
            b.racer_place_number = None;
        }
    }
    store.insert_raw_result(rec);
    store.run_migrations().unwrap();
    assert_eq!(store.races[0].winner_boat_number, None);
    assert_eq!(store.races[0].winner_racer_number, None);
}

#[test]
fn test_search_high_payout_races() {
    // End to end: one seeded result with six boats, the winner in place 1
    // on boat 3 and a trifecta payout of 125,000; after migration the
    // high-payout search finds it.
    let mut store = Store::empty();
    store.insert_raw_result(result_record("20250705", "12", 8, 3, 125000));
    store.insert_raw_result(result_record("20250705", "12", 9, 1, 900));
    store.run_migrations().unwrap();

    let hits = store
        .search_high_payout_races(100000, "trifecta", None)
        .unwrap();
    assert_eq!(hits.len(), 1);
    assert_eq!(hits[0].date, "20250705");
    assert_eq!(hits[0].race_number, 8);
    let race = store
        .races
        .iter()
        .find(|rc| rc.race_number == 8)
        .unwrap();
    assert_eq!(race.winner_boat_number, Some(3));

    match store.search_high_payout_races(0, "banana", None) {
        Err(e) => assert_eq!(e, StoreError::UnknownPayoutType),
        Ok(_) => panic!("an unknown payout kind must be rejected"),
    }
}

#[test]
fn test_get_payout_statistics() {
    let mut store = Store::empty();
    store.insert_raw_result(result_record("20250101", "12", 1, 1, 100000));
    store.insert_raw_result(result_record("20250101", "12", 2, 2, 50000));
    store.run_migrations().unwrap();

    let stats = store.get_payout_statistics();
    assert_eq!(stats.trifecta_count, 2);
    assert_eq!(stats.trifecta_sum, 150000);
    assert_eq!(stats.max_trifecta, Some(100000));
    assert_eq!(stats.win_count, 2);
    assert_eq!(stats.max_win, Some(310));
}

#[test]
fn upsert_replaces_payload_for_same_key() {
    let mut store = Store::empty();
    store.insert_raw_result(result_record("20250101", "12", 1, 1, 5000));
    store.insert_raw_result(result_record("20250101", "12", 1, 2, 7777));
    let rows = store.results.as_ref().unwrap();
    assert_eq!(rows.len(), 1);
    match &rows[0].record.payload {
        ResultPayload::Parsed(data) => {
            assert_eq!(
                data.payouts.trifecta.as_ref().unwrap()[0].payout,
                Some(7777)
            );
        }
        _ => panic!("payload should be decoded"),
    }
}

#[test]
fn save_result_after_migration_upserts_race_and_boats() {
    let mut store = Store::empty();
    store.insert_raw_result(result_record("20250101", "12", 1, 1, 5000));
    store.insert_raw_program(program_record("20250101", "12", 1));
    store.run_migrations().unwrap();

    // Replacing the same key: payouts change, program columns survive.
    let replacement = result_record("20250101", "12", 1, 2, 60000);
    store.save_result(replacement).unwrap();
    assert_eq!(store.races.len(), 1);
    assert_eq!(store.participants.len(), 6);
    assert_eq!(store.races[0].trifecta_payout, Some(60000));
    assert_eq!(store.races[0].winner_boat_number, Some(2));
    assert_eq!(store.races[0].race_title.as_deref(), Some("title"));
    assert_eq!(store.participants[0].racer_class_number, Some(1));

    // A new key appends a race and six fresh participants.
    store
        .save_result(result_record("20250102", "12", 1, 3, 7000))
        .unwrap();
    assert_eq!(store.races.len(), 2);
    assert_eq!(store.participants.len(), 12);

    // An undecoded payload is rejected and changes nothing.
    let bad = ResultRecord {
        id: 0,
        date: "20250103".to_string(),
        venue_code: "12".to_string(),
        race_number: 1,
        payload: ResultPayload::Undecoded("nope".to_string()),
        created_at: "t".to_string(),
        updated_at: "t".to_string(),
    };
    assert_eq!(store.save_result(bad).unwrap_err(), StoreError::Decode);
    assert_eq!(store.races.len(), 2);
}

#[test]
fn export_read_orders_races_and_boats() {
    let mut store = Store::empty();
    store.insert_raw_result(result_record("20250102", "01", 2, 1, 100));
    store.insert_raw_result(result_record("20250101", "12", 1, 1, 100));
    store.insert_raw_result(result_record("20250102", "01", 1, 1, 100));
    store.run_migrations().unwrap();

    let all = store.get_all_races_with_participants();
    assert_eq!(all.len(), 3);
    assert_eq!(all[0].0.race_date, "20250101");
    assert_eq!(all[1].0.race_date, "20250102");
    assert_eq!(all[1].0.race_number, 1);
    assert_eq!(all[2].0.race_number, 2);
    for (race, parts) in &all {
        assert_eq!(parts.len(), 6);
        for (i, p) in parts.iter().enumerate() {
            assert_eq!(p.boat_number, (i + 1) as i32);
            assert_eq!(p.race_id, race.id);
        }
    }
}

#[test]
fn save_program_after_migration_merges_metadata() {
    let mut store = Store::empty();
    store.insert_raw_result(result_record("20250101", "12", 1, 1, 5000));
    store.run_migrations().unwrap();
    assert_eq!(store.races[0].race_title, None);

    // The program upsert fills metadata and per-boat statistics, keeping the
    // result-derived columns and finish data.
    store.save_program(program_record("20250101", "12", 1)).unwrap();
    assert_eq!(store.races.len(), 1);
    assert_eq!(store.races[0].race_title.as_deref(), Some("title"));
    assert_eq!(store.races[0].trifecta_payout, Some(5000));
    assert_eq!(store.participants.len(), 6);
    assert_eq!(store.participants[0].racer_class_number, Some(1));
    assert!(store.participants[0].place_number.is_some());

    // A program for a new key creates the race with metadata only.
    store.save_program(program_record("20250102", "12", 1)).unwrap();
    assert_eq!(store.races.len(), 2);
    let fresh = store.races.iter().find(|r| r.race_date == "20250102").unwrap();
    assert_eq!(fresh.trifecta_payout, None);
    assert_eq!(fresh.race_title.as_deref(), Some("title"));
    assert_eq!(store.participants.len(), 12);
}

#[test]
fn raw_record_reads_reconstruct_in_key_order() {
    let mut store = Store::empty();
    store.insert_raw_result(result_record("20250102", "12", 1, 1, 100));
    store.insert_raw_result(result_record("20250101", "12", 1, 1, 100));
    store.insert_raw_program(program_record("20250101", "12", 1));
    store.run_migrations().unwrap();

    let results = store.get_all_results();
    assert_eq!(results.len(), 2);
    assert_eq!(results[0].date, "20250101");
    assert_eq!(results[1].date, "20250102");
    match &results[0].payload {
        ResultPayload::Parsed(data) => assert_eq!(data.boats.len(), 6),
        _ => panic!("the retained payload stays decoded"),
    }

    let programs = store.get_all_programs();
    assert_eq!(programs.len(), 1);
    assert_eq!(programs[0].date, "20250101");
}
