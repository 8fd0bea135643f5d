//! Text helpers and the bulk-fetch accounting machine.

use bort_data::bulk::{build_url, feed_delay_ms, scrape_delay_ms, BulkRun, DateOutcome};
use bort_data::records::ApiDataType;
use bort_data::textutil::{
    parse_u32, str_contains, str_ends_with, str_lt, str_starts_with, two_digit_code,
    u32_to_string, usize_to_string,
};

#[test]
fn decimal_rendering() {
    assert_eq!(usize_to_string(0), "0");
    assert_eq!(usize_to_string(7), "7");
    assert_eq!(usize_to_string(125000), "125000");
    assert_eq!(u32_to_string(4294967295), "4294967295");
    assert_eq!(two_digit_code(7), "07");
    assert_eq!(two_digit_code(24), "24");
    assert_eq!(two_digit_code(0), "00");
}

#[test]
fn number_parsing() {
    assert_eq!(parse_u32("0"), Some(0));
    assert_eq!(parse_u32("01"), Some(1));
    assert_eq!(parse_u32("4294967295"), Some(4294967295));
    assert_eq!(parse_u32("4294967296"), None);
    assert_eq!(parse_u32(""), None);
    assert_eq!(parse_u32("12a"), None);
}

#[test]
fn string_predicates() {
    assert!(str_lt("20250101", "20250102"));
    assert!(!str_lt("20250102", "20250101"));
    assert!(!str_lt("abc", "abc"));
    assert!(str_starts_with("jcd=12", "jcd="));
    assert!(!str_starts_with("jc", "jcd="));
    assert!(str_ends_with("race_x_data", "_data"));
    assert!(!str_ends_with("race_x_odds", "_data"));
    assert!(str_contains("abc race_ def", "race_"));
    assert!(!str_contains("abc", "race_"));
}

#[test]
fn test_date_parsing_logic() {
    assert!(bort_data::validate::is_valid_date_string("20250115"));
    assert!(!bort_data::validate::is_valid_date_string("invalid-date"));
}

#[test]
fn feed_urls_are_built_from_the_date() {
    assert_eq!(
        build_url(ApiDataType::Results, "20250101"),
        "https://boatraceopenapi.github.io/results/v2/2025/20250101.json"
    );
    assert_eq!(
        build_url(ApiDataType::Previews, "19991231"),
        "https://boatraceopenapi.github.io/previews/v2/1999/19991231.json"
    );
}

#[test]
fn bulk_run_accounts_for_every_date() {
    let mut run = BulkRun::start(4);
    let p = run.record("20250101", ApiDataType::Results, DateOutcome::Cached);
    assert_eq!(p.status, "cached");
    assert_eq!(p.current, 1);
    assert_eq!(p.total, 4);
    let p = run.record("20250102", ApiDataType::Results, DateOutcome::Saved(24));
    assert_eq!(p.status, "saved");
    let p = run.record(
        "20250103",
        ApiDataType::Results,
        DateOutcome::FetchFailed("connection refused".to_string()),
    );
    assert_eq!(p.status, "error");
    let p = run.record(
        "20250104",
        ApiDataType::Results,
        DateOutcome::SaveFailed("disk full".to_string()),
    );
    assert_eq!(p.status, "error");

    let summary = run.finish();
    assert_eq!(summary.total_days, 4);
    assert_eq!(summary.success_count, 1);
    assert_eq!(summary.skipped_count, 1);
    assert_eq!(summary.error_count, 2);
    assert_eq!(summary.errors.len(), 2);
    assert_eq!(summary.errors[0].date, "20250103");
    assert_eq!(summary.errors[0].error_message, "connection refused");
    assert_eq!(summary.errors[1].error_message, "disk full");
    assert_eq!(
        summary.success_count + summary.skipped_count + summary.error_count,
        summary.total_days
    );
}

#[test]
fn delays_favor_the_remote_source() {
    assert_eq!(feed_delay_ms(false), 500);
    assert_eq!(feed_delay_ms(true), 0);
    assert_eq!(scrape_delay_ms(false, true), 1000);
    assert_eq!(scrape_delay_ms(false, false), 100);
    assert_eq!(scrape_delay_ms(true, true), 0);
}

#[test]
fn data_type_path_segments() {
    assert_eq!(ApiDataType::Previews.as_str(), "previews");
    assert_eq!(ApiDataType::Results.as_str(), "results");
    assert_eq!(ApiDataType::Programs.as_str(), "programs");
}

#[test]
fn player_basic_info_starts_empty() {
    let p = bort_data::biyori::PlayerBasicInfo::new();
    assert_eq!(p.registration_number, "");
    assert_eq!(p.name, "");
    assert_eq!(p.class_level, "");
    assert_eq!(p.period, "");
    assert_eq!(p.support_group, "");
    assert_eq!(p.gender, "");
}
