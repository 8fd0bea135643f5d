//! Request validation: date strings, venue codes and the other primitive
//! filter arguments.

use bort_data::validate::{
    is_valid_date_string, validate_date_range, validate_date_string, validate_racer_class,
    validate_racer_name, validate_racer_number, validate_venue_code, ValidationError,
};

#[test]
fn dashed_and_short_dates_are_rejected() {
    assert!(validate_date_string("2025-1-1").is_err());
    assert!(validate_date_string("025").is_err());
    assert!(validate_date_string("2025011").is_err());
    assert!(validate_date_string("202501011").is_err());
    assert!(validate_date_string("2025010a").is_err());
}

#[test]
fn eight_digit_dates_are_accepted() {
    assert!(validate_date_string("20250101").is_ok());
    assert!(is_valid_date_string("20251231"));
}

#[test]
fn venue_codes_validate_as_two_digit_range() {
    assert!(validate_venue_code("12").is_ok());
    assert!(validate_venue_code("01").is_ok());
    assert!(validate_venue_code("24").is_ok());
    assert_eq!(
        validate_venue_code("025").unwrap_err(),
        ValidationError::InvalidVenueCode
    );
    assert!(validate_venue_code("00").is_err());
    assert!(validate_venue_code("25").is_err());
    assert!(validate_venue_code("7").is_err());
    assert!(validate_venue_code("ab").is_err());
}

#[test]
fn date_ranges_must_be_ordered() {
    assert!(validate_date_range(&"20250101".to_string(), &"20250102".to_string()).is_ok());
    assert!(validate_date_range(&"20250101".to_string(), &"20250101".to_string()).is_ok());
    assert_eq!(
        validate_date_range(&"20250102".to_string(), &"20250101".to_string()).unwrap_err(),
        ValidationError::DateRangeOrder
    );
    assert_eq!(
        validate_date_range(&"2025-1-1".to_string(), &"20250101".to_string()).unwrap_err(),
        ValidationError::InvalidDate
    );
}

#[test]
fn racer_filters_validate() {
    assert!(validate_racer_class(1).is_ok());
    assert!(validate_racer_class(4).is_ok());
    assert!(validate_racer_class(0).is_err());
    assert!(validate_racer_class(5).is_err());
    assert!(validate_racer_number(0).is_ok());
    assert!(validate_racer_number(-1).is_err());
    assert!(validate_racer_name(&"a".to_string()).is_ok());
    assert_eq!(
        validate_racer_name(&"".to_string()).unwrap_err(),
        ValidationError::EmptyRacerName
    );
}

#[test]
fn test_get_biyori_info_invalid_race_number() {
    let race_number = "invalid";
    let result = bort_data::textutil::parse_u32(race_number);
    assert!(result.is_none());
}

#[test]
fn test_get_biyori_info_invalid_place_number() {
    let place_number = "invalid";
    let result = bort_data::textutil::parse_u32(place_number);
    assert!(result.is_none());
}
