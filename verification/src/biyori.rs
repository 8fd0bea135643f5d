//! Racer and odds data as scraped from the daily information pages: the
//! basic racer identity, the betting kinds, and the shape summaries used
//! when inspecting a page's tables.

use vstd::prelude::*;

verus! {

/// One racer's basic identity as shown on a page.
pub struct PlayerBasicInfo {
    pub registration_number: String,
    pub name: String,
    pub class_level: String,
    pub period: String,
    pub support_group: String,
    pub gender: String,
}

impl PlayerBasicInfo {
    /// An empty identity, to be filled field by field.
    pub fn new() -> (r: PlayerBasicInfo)
        ensures
            r.registration_number@.len() == 0,
            r.name@.len() == 0,
            r.class_level@.len() == 0,
            r.period@.len() == 0,
            r.support_group@.len() == 0,
            r.gender@.len() == 0,
    {
        PlayerBasicInfo {
            registration_number: String::new(),
            name: String::new(),
            class_level: String::new(),
            period: String::new(),
            support_group: String::new(),
            gender: String::new(),
        }
    }
}

impl Default for PlayerBasicInfo {
    /// The empty identity.
    fn default() -> (r: PlayerBasicInfo)
        ensures
            r.registration_number@.len() == 0,
            r.name@.len() == 0,
            r.class_level@.len() == 0,
            r.period@.len() == 0,
            r.support_group@.len() == 0,
            r.gender@.len() == 0,
    {
        PlayerBasicInfo::new()
    }
}

/// The betting kinds of a race.
#[derive(Clone, Copy, PartialEq, Eq, Structural, Debug)]
pub enum BettingType {
    Trifecta,
    Tricast,
    Exacta,
    Quinella,
    QuinellaPlace,
    WinPlace,
}

/// The shape of one table of a page: row and column counts, its header row
/// and its first rows.
pub struct TableInfo {
    pub table_index: usize,
    pub row_count: usize,
    pub column_count: usize,
    pub headers: Vec<String>,
    pub sample_rows: Vec<Vec<String>>,
}

/// One cell of a page's table, with its position and CSS classes.
pub struct CellInfo {
    pub table_index: usize,
    pub row_index: usize,
    pub col_index: usize,
    pub content: String,
    pub classes: Vec<String>,
}

} // verus!
