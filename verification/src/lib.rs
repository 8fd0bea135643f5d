//! Race-result data processing: turns semi-structured race data (HTML tables
//! with merged cells, typed result/program/preview payloads) into a normalized,
//! queryable store.
//!
//! The three central pieces are:
//! - the grid normalizer ([`grid`]), which resolves `rowspan`/`colspan` merged
//!   cells into a dense rectangular matrix of strings;
//! - the schema migration engine ([`store`]), which transforms accumulated raw
//!   result rows into normalized race / participant entities, verifying
//!   row-count integrity before discarding the raw table;
//! - the compound query builder ([`search`]), which renders an arbitrary
//!   subset of optional filters into one parameterized statement and evaluates
//!   the same filters against the in-memory store.

pub mod biyori;
pub mod bulk;
pub mod grid;
pub mod records;
pub mod search;
pub mod storage;
pub mod store;
pub mod table;
pub mod textutil;
pub mod validate;
pub mod venues;
