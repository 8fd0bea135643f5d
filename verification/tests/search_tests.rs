//! The compound query builder against the normalized store: round trips,
//! ordering and the join decision.

use bort_data::records::{
    PayoutEntry, PayoutInfo, RaceResult, ResultPayload, ResultRacerInfo, ResultRecord,
};
use bort_data::search::{render_search_query, BindValue, SearchParams};
use bort_data::store::Store;

fn result_with_racers(
    date: &str,
    venue: &str,
    race: i32,
    racers: [i32; 6],
    trifecta: i32,
) -> ResultRecord {
    let boats = (0..6)
        .map(|i| ResultRacerInfo {
            racer_boat_number: (i + 1) as i32,
            racer_course_number: Some((i + 1) as i32),
            racer_start_timing: Some(12),
            racer_place_number: Some((i + 1) as i32),
            racer_number: Some(racers[i]),
            racer_name: Some(format!("racer {}", racers[i])),
        })
        .collect();
    ResultRecord {
        id: 0,
        date: date.to_string(),
        venue_code: venue.to_string(),
        race_number: race,
        payload: ResultPayload::Parsed(RaceResult {
            race_date: date.to_string(),
            race_stadium_number: venue.parse().unwrap(),
            race_number: race,
            race_wind: Some(500),
            race_wind_direction_number: None,
            race_wave: Some(300),
            race_weather_number: None,
            race_temperature: Some(2000),
            race_water_temperature: None,
            race_technique_number: None,
            boats,
            payouts: PayoutInfo {
                win: Some(vec![PayoutEntry { combination: None, payout: Some(200) }]),
                place: None,
                exacta: None,
                quinella: None,
                quinella_place: None,
                trifecta: Some(vec![PayoutEntry {
                    combination: None,
                    payout: Some(trifecta),
                }]),
                trio: None,
            },
        }),
        created_at: "t".to_string(),
        updated_at: "t".to_string(),
    }
}

fn seeded_store() -> Store {
    let mut store = Store::empty();
    store.insert_raw_result(result_with_racers(
        "20250101",
        "12",
        1,
        [4444, 4001, 4002, 4003, 4004, 4005],
        4000,
    ));
    store.insert_raw_result(result_with_racers(
        "20250102",
        "12",
        1,
        [4006, 4007, 4008, 4009, 4010, 4011],
        90000,
    ));
    store.insert_raw_result(result_with_racers(
        "20250102",
        "01",
        2,
        [4444, 4012, 4013, 4014, 4015, 4016],
        150000,
    ));
    store.run_migrations().unwrap();
    store
}

#[test]
fn search_by_racer_returns_whole_races() {
    // A search with only a racer number returns only races containing a
    // participant with that number, each paired with all six participants
    // of the race, not just that boat.
    let store = seeded_store();
    let hits = store.search_races_by_racer(4444, None);
    assert_eq!(hits.len(), 2);
    for (race, parts) in &hits {
        assert_eq!(parts.len(), 6);
        assert!(parts.iter().any(|p| p.racer_number == Some(4444)));
        for p in parts {
            assert_eq!(p.race_id, race.id);
        }
        // Participants come back ordered by boat number.
        for w in parts.windows(2) {
            assert!(w[0].boat_number <= w[1].boat_number);
        }
    }
    // Races come back date-descending.
    assert_eq!(hits[0].0.race_date, "20250102");
    assert_eq!(hits[1].0.race_date, "20250101");
}

#[test]
fn search_by_absent_racer_is_empty() {
    let store = seeded_store();
    let hits = store.search_races_by_racer(9999, None);
    assert!(hits.is_empty());
}

#[test]
fn search_without_filters_returns_all_races_ordered() {
    let store = seeded_store();
    let params = SearchParams::default();
    let hits = store.search_races_advanced(&params);
    assert_eq!(hits.len(), 3);
    assert_eq!(hits[0].0.race_date, "20250102");
    assert_eq!(hits[0].0.venue_code, "01");
    assert_eq!(hits[1].0.race_date, "20250102");
    assert_eq!(hits[1].0.venue_code, "12");
    assert_eq!(hits[2].0.race_date, "20250101");
}

#[test]
fn search_respects_limit() {
    let store = seeded_store();
    let mut params = SearchParams::default();
    params.limit = Some(2);
    let hits = store.search_races_advanced(&params);
    assert_eq!(hits.len(), 2);
}

#[test]
fn search_by_venue_and_date_range() {
    let store = seeded_store();
    let hits = store.search_races_by_venue("12".to_string(), None);
    assert_eq!(hits.len(), 2);
    let hits = store.search_races_by_date_range(
        "20250102".to_string(),
        "20250102".to_string(),
        None,
    );
    assert_eq!(hits.len(), 2);
    for (race, _) in &hits {
        assert_eq!(race.race_date, "20250102");
    }
}

#[test]
fn search_combines_filters_with_and() {
    let store = seeded_store();
    let mut params = SearchParams::default();
    params.racer_number = Some(4444);
    params.min_trifecta_payout = Some(100000);
    let hits = store.search_races_advanced(&params);
    assert_eq!(hits.len(), 1);
    assert_eq!(hits[0].0.venue_code, "01");
    assert_eq!(hits[0].0.trifecta_payout, Some(150000));
}

#[test]
fn participant_filters_apply_to_one_participant_row() {
    // racer_number and place_number must hold of the same participant.
    let store = seeded_store();
    let mut params = SearchParams::default();
    params.racer_number = Some(4444);
    params.place_number = Some(1);
    let hits = store.search_races_advanced(&params);
    assert_eq!(hits.len(), 2);

    let mut params = SearchParams::default();
    params.racer_number = Some(4444);
    params.place_number = Some(2);
    let hits = store.search_races_advanced(&params);
    assert!(hits.is_empty());
}

#[test]
fn search_by_racer_name_substring() {
    let store = seeded_store();
    let hits = store.search_races_by_racer_name("4444".to_string(), None);
    assert_eq!(hits.len(), 2);
    let hits = store.search_races_by_racer_name("nobody".to_string(), None);
    assert!(hits.is_empty());
}

#[test]
fn range_filters_reject_missing_columns() {
    // A race without the compared reading never matches a range filter.
    let store = seeded_store();
    let mut params = SearchParams::default();
    params.min_wave = Some(100);
    let hits = store.search_races_advanced(&params);
    assert_eq!(hits.len(), 3);
    let mut params = SearchParams::default();
    params.max_temperature = Some(1500);
    let hits = store.search_races_advanced(&params);
    assert!(hits.is_empty());
}

#[test]
fn rendered_statement_binds_every_value() {
    let mut params = SearchParams::default();
    params.racer_number = Some(4444);
    params.racer_name = Some("選手".to_string());
    params.min_trifecta_payout = Some(100000);
    let q = render_search_query(&params);
    assert_eq!(
        q.sql,
        "SELECT DISTINCT r.* FROM races r INNER JOIN race_participants rp ON r.id = rp.race_id \
         WHERE 1=1 AND rp.racer_number = ? AND rp.racer_name LIKE ? AND r.trifecta_payout >= ? \
         ORDER BY r.race_date DESC, r.venue_code, r.race_number LIMIT ?"
    );
    assert_eq!(q.binds.len(), 4);
    match &q.binds[0] {
        BindValue::Int(v) => assert_eq!(*v, 4444),
        _ => panic!("racer number must be an integer bind"),
    }
    match &q.binds[1] {
        BindValue::Text(s) => assert_eq!(s, "%選手%"),
        _ => panic!("racer name must be a text bind"),
    }
    match &q.binds[3] {
        BindValue::Int(v) => assert_eq!(*v, 100),
        _ => panic!("the limit is always the last bind"),
    }
    // The statement text never holds the filter values.
    assert!(!q.sql.contains("4444"));
    assert!(!q.sql.contains("選手"));
}

#[test]
fn rendered_statement_skips_join_without_participant_filters() {
    let mut params = SearchParams::default();
    params.venue_code = Some("12".to_string());
    let q = render_search_query(&params);
    assert!(!q.sql.contains("INNER JOIN"));
    assert!(q.sql.contains(" AND r.venue_code = ?"));
    assert_eq!(q.binds.len(), 2);
}
