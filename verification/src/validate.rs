//! Input validation for operation requests: date strings, venue codes and the
//! other primitive filter arguments, all rejected before any store access.

use vstd::prelude::*;
use crate::textutil::{all_digits, dec_value, str_all_digits, parse_u32, lex_le, str_le};

verus! {

/// A request argument that failed validation, before any store access.
#[derive(Clone, Copy, PartialEq, Eq, Structural, Debug)]
pub enum ValidationError {
    /// A date string that is not exactly eight decimal digits.
    InvalidDate,
    /// A venue code that is not a two-digit code between 01 and 24.
    InvalidVenueCode,
    /// A payout kind other than win, place, exacta or trifecta.
    InvalidPayoutType,
    /// A racer class outside 1 ..= 4.
    InvalidRacerClass,
    /// A negative racer number.
    InvalidRacerNumber,
    /// A negative minimum payout.
    NegativeMinPayout,
    /// An empty racer name filter.
    EmptyRacerName,
    /// A date range whose start is after its end.
    DateRangeOrder,
}

/// A date string is accepted exactly when it is eight decimal digits
/// (`YYYYMMDD`).
pub open spec fn valid_date_string(s: Seq<char>) -> bool {
    s.len() == 8 && all_digits(s)
}

/// A venue code is accepted exactly when it is two decimal digits whose
/// value lies in 1 ..= 24.
pub open spec fn valid_venue_code(s: Seq<char>) -> bool {
    s.len() == 2 && all_digits(s) && 1 <= dec_value(s) <= 24
}

/// Decides whether `s` is an eight-digit `YYYYMMDD` date string.
pub fn is_valid_date_string(s: &str) -> (r: bool)
    ensures
        r == valid_date_string(s@),
{
    s.unicode_len() == 8 && str_all_digits(s)
}

/// Rejects a date string that is not eight decimal digits.
pub fn validate_date_string(s: &str) -> (r: Result<(), ValidationError>)
    ensures
        r is Ok <==> valid_date_string(s@),
        r is Err ==> r->Err_0 == ValidationError::InvalidDate,
{
    if is_valid_date_string(s) {
        Ok(())
    } else {
        Err(ValidationError::InvalidDate)
    }
}

/// Rejects a venue code that is not a two-digit code in 01 ..= 24.
pub fn validate_venue_code(s: &str) -> (r: Result<(), ValidationError>)
    ensures
        r is Ok <==> valid_venue_code(s@),
        r is Err ==> r->Err_0 == ValidationError::InvalidVenueCode,
{
    if s.unicode_len() != 2 {
        return Err(ValidationError::InvalidVenueCode);
    }
    match parse_u32(s) {
        Some(v) => {
            if 1 <= v && v <= 24 {
                Ok(())
            } else {
                Err(ValidationError::InvalidVenueCode)
            }
        },
        None => Err(ValidationError::InvalidVenueCode),
    }
}

/// Rejects a date range whose bounds are malformed or out of order
/// (`from` must be lexicographically at most `to`).
pub fn validate_date_range(from: &String, to: &String) -> (r: Result<(), ValidationError>)
    ensures
        r is Ok <==> valid_date_string(from@) && valid_date_string(to@) && lex_le(from@, to@),
        r is Err ==> (r->Err_0 == ValidationError::InvalidDate || r->Err_0
            == ValidationError::DateRangeOrder),
{
    if !is_valid_date_string(from.as_str()) {
        return Err(ValidationError::InvalidDate);
    }
    if !is_valid_date_string(to.as_str()) {
        return Err(ValidationError::InvalidDate);
    }
    if str_le(from, to) {
        Ok(())
    } else {
        Err(ValidationError::DateRangeOrder)
    }
}

/// Rejects a racer class outside 1 ..= 4 (1=A1, 2=A2, 3=B1, 4=B2).
pub fn validate_racer_class(class: i32) -> (r: Result<(), ValidationError>)
    ensures
        r is Ok <==> 1 <= class <= 4,
        r is Err ==> r->Err_0 == ValidationError::InvalidRacerClass,
{
    if 1 <= class && class <= 4 {
        Ok(())
    } else {
        Err(ValidationError::InvalidRacerClass)
    }
}

/// Rejects a negative racer number.
pub fn validate_racer_number(n: i32) -> (r: Result<(), ValidationError>)
    ensures
        r is Ok <==> n >= 0,
        r is Err ==> r->Err_0 == ValidationError::InvalidRacerNumber,
{
    if n >= 0 {
        Ok(())
    } else {
        Err(ValidationError::InvalidRacerNumber)
    }
}

/// Rejects an empty racer-name filter.
pub fn validate_racer_name(name: &String) -> (r: Result<(), ValidationError>)
    ensures
        r is Ok <==> name@.len() > 0,
        r is Err ==> r->Err_0 == ValidationError::EmptyRacerName,
{
    if name.as_str().unicode_len() > 0 {
        Ok(())
    } else {
        Err(ValidationError::EmptyRacerName)
    }
}

} // verus!
