//! The typed payloads and store records.
//!
//! A raw record (preview / result / program) is identified by its
//! (date, venue code, race number) key and carries a typed payload, decoded
//! once at the edge.  A payload that could not be decoded is kept as the
//! original text, so migration can count and skip it.
//!
//! Readings that the feeds publish with a decimal fraction (wind, wave,
//! temperatures, start timing, weights, percentages) are held as integers in
//! hundredths, so that range filters compare exactly.

use vstd::prelude::*;

verus! {

// ------------------------------------------------------------------
// Result payloads
// ------------------------------------------------------------------

/// One payout line: the winning combination and the payout amount in yen.
pub struct PayoutEntry {
    pub combination: Option<String>,
    pub payout: Option<i32>,
}

/// Payout lists per bet type, as published per race.
pub struct PayoutInfo {
    pub win: Option<Vec<PayoutEntry>>,
    pub place: Option<Vec<PayoutEntry>>,
    pub exacta: Option<Vec<PayoutEntry>>,
    pub quinella: Option<Vec<PayoutEntry>>,
    pub quinella_place: Option<Vec<PayoutEntry>>,
    pub trifecta: Option<Vec<PayoutEntry>>,
    pub trio: Option<Vec<PayoutEntry>>,
}

/// One boat's line in a result payload.
pub struct ResultRacerInfo {
    pub racer_boat_number: i32,
    pub racer_course_number: Option<i32>,
    /// Start timing in hundredths of a second.
    pub racer_start_timing: Option<i64>,
    pub racer_place_number: Option<i32>,
    pub racer_number: Option<i32>,
    pub racer_name: Option<String>,
}

/// A decoded result payload: environmental readings (in hundredths), the six
/// boats, and the payout lists.
pub struct RaceResult {
    pub race_date: String,
    pub race_stadium_number: i32,
    pub race_number: i32,
    pub race_wind: Option<i64>,
    pub race_wind_direction_number: Option<i64>,
    pub race_wave: Option<i64>,
    pub race_weather_number: Option<i64>,
    pub race_temperature: Option<i64>,
    pub race_water_temperature: Option<i64>,
    pub race_technique_number: Option<i64>,
    pub boats: Vec<ResultRacerInfo>,
    pub payouts: PayoutInfo,
}

// ------------------------------------------------------------------
// Program payloads
// ------------------------------------------------------------------

/// One boat's line in a program payload (hundredths for fractional fields).
pub struct ProgramRacerInfo {
    pub racer_boat_number: Option<i32>,
    pub racer_name: Option<String>,
    pub racer_number: Option<i32>,
    pub racer_class_number: Option<i32>,
    pub racer_branch_number: Option<i32>,
    pub racer_birthplace_number: Option<i32>,
    pub racer_age: Option<i32>,
    pub racer_weight: Option<i64>,
    pub racer_flying_count: Option<i32>,
    pub racer_late_count: Option<i32>,
    pub racer_average_start_timing: Option<i64>,
    pub racer_national_top_1_percent: Option<i64>,
    pub racer_national_top_2_percent: Option<i64>,
    pub racer_national_top_3_percent: Option<i64>,
    pub racer_local_top_1_percent: Option<i64>,
    pub racer_local_top_2_percent: Option<i64>,
    pub racer_local_top_3_percent: Option<i64>,
    pub racer_assigned_motor_number: Option<i32>,
    pub racer_assigned_motor_top_2_percent: Option<i64>,
    pub racer_assigned_motor_top_3_percent: Option<i64>,
    pub racer_assigned_boat_number: Option<i32>,
    pub racer_assigned_boat_top_2_percent: Option<i64>,
    pub racer_assigned_boat_top_3_percent: Option<i64>,
}

/// A decoded program payload: race metadata and the boats' entries.
pub struct RaceProgram {
    pub race_date: String,
    pub race_stadium_number: i32,
    pub race_number: i32,
    pub race_closed_at: Option<String>,
    pub race_grade_number: Option<i32>,
    pub race_title: Option<String>,
    pub race_subtitle: Option<String>,
    pub race_distance: Option<i32>,
    pub boats: Vec<ProgramRacerInfo>,
}

// ------------------------------------------------------------------
// Preview payloads
// ------------------------------------------------------------------

/// One boat's line in a preview payload (hundredths for fractional fields).
pub struct PreviewRacerInfo {
    pub racer_boat_number: Option<i32>,
    pub racer_course_number: Option<i32>,
    pub racer_start_timing: Option<i64>,
    pub racer_weight: Option<i64>,
    pub racer_weight_adjustment: Option<i64>,
    pub racer_exhibition_time: Option<i64>,
    pub racer_tilt_adjustment: Option<i64>,
}

/// A decoded preview payload.
pub struct RacePreview {
    pub race_date: String,
    pub race_stadium_number: i32,
    pub race_number: i32,
    pub race_wind: Option<i64>,
    pub race_wind_direction_number: Option<i64>,
    pub race_wave: Option<i64>,
    pub race_weather_number: Option<i64>,
    pub race_temperature: Option<i64>,
    pub race_water_temperature: Option<i64>,
    pub boats: Vec<PreviewRacerInfo>,
}

// ------------------------------------------------------------------
// Payloads as stored: decoded once, or kept as undecodable text
// ------------------------------------------------------------------

/// A result payload as stored: decoded, or the original text that failed to
/// decode.
pub enum ResultPayload {
    Parsed(RaceResult),
    Undecoded(String),
}

/// A program payload as stored.
pub enum ProgramPayload {
    Parsed(RaceProgram),
    Undecoded(String),
}

/// A preview payload as stored.
pub enum PreviewPayload {
    Parsed(RacePreview),
    Undecoded(String),
}

// ------------------------------------------------------------------
// Raw records
// ------------------------------------------------------------------

/// A raw preview record keyed by (date, venue code, race number).
pub struct PreviewRecord {
    pub id: i64,
    pub date: String,
    pub venue_code: String,
    pub race_number: i32,
    pub payload: PreviewPayload,
    pub created_at: String,
    pub updated_at: String,
}

/// A raw result record keyed by (date, venue code, race number).
pub struct ResultRecord {
    pub id: i64,
    pub date: String,
    pub venue_code: String,
    pub race_number: i32,
    pub payload: ResultPayload,
    pub created_at: String,
    pub updated_at: String,
}

/// A raw program record keyed by (date, venue code, race number).
pub struct ProgramRecord {
    pub id: i64,
    pub date: String,
    pub venue_code: String,
    pub race_number: i32,
    pub payload: ProgramPayload,
    pub created_at: String,
    pub updated_at: String,
}

// ------------------------------------------------------------------
// Normalized records
// ------------------------------------------------------------------

/// The columns that the second schema stage derives from a result payload.
pub struct DerivedResultColumns {
    pub race_wind: Option<i64>,
    pub race_wind_direction_number: Option<i64>,
    pub race_wave: Option<i64>,
    pub race_weather_number: Option<i64>,
    pub race_temperature: Option<i64>,
    pub race_water_temperature: Option<i64>,
    pub race_technique_number: Option<i64>,
    pub win_payout: Option<i32>,
    pub place_payout_max: Option<i32>,
    pub exacta_payout: Option<i32>,
    pub trifecta_payout: Option<i32>,
    pub winner_boat_number: Option<i32>,
    pub winner_racer_number: Option<i32>,
}

/// A normalized race row: one per (date, venue, race number).
pub struct RaceRecord {
    pub id: i64,
    pub race_date: String,
    pub venue_code: String,
    pub race_number: i32,
    pub race_wind: Option<i64>,
    pub race_wind_direction_number: Option<i64>,
    pub race_wave: Option<i64>,
    pub race_weather_number: Option<i64>,
    pub race_temperature: Option<i64>,
    pub race_water_temperature: Option<i64>,
    pub race_technique_number: Option<i64>,
    pub win_payout: Option<i32>,
    pub place_payout_max: Option<i32>,
    pub exacta_payout: Option<i32>,
    pub quinella_payout: Option<i32>,
    pub trifecta_payout: Option<i32>,
    pub trio_payout: Option<i32>,
    pub winner_boat_number: Option<i32>,
    pub winner_racer_number: Option<i32>,
    pub race_grade_number: Option<i32>,
    pub race_title: Option<String>,
    pub race_subtitle: Option<String>,
    pub race_distance: Option<i32>,
    pub result_payload: Option<ResultPayload>,
    pub program_payload: Option<ProgramPayload>,
    pub created_at: String,
    pub updated_at: String,
}

/// A normalized participant row: one per boat per race, owned by its race.
pub struct RaceParticipantRecord {
    pub id: i64,
    pub race_id: i64,
    pub boat_number: i32,
    pub racer_number: Option<i32>,
    pub racer_name: Option<String>,
    pub racer_class_number: Option<i32>,
    pub racer_branch_number: Option<i32>,
    pub racer_birthplace_number: Option<i32>,
    pub racer_age: Option<i32>,
    pub racer_weight: Option<i64>,
    pub course_number: Option<i32>,
    pub start_timing: Option<i64>,
    pub entry_number: Option<i32>,
    pub place_number: Option<i32>,
    pub decision_hand: Option<String>,
    pub flying_count: Option<i32>,
    pub late_count: Option<i32>,
    pub average_start_timing: Option<i64>,
    pub national_top_1_percent: Option<i64>,
    pub national_top_2_percent: Option<i64>,
    pub national_top_3_percent: Option<i64>,
    pub local_top_1_percent: Option<i64>,
    pub local_top_2_percent: Option<i64>,
    pub local_top_3_percent: Option<i64>,
    pub assigned_motor_number: Option<i32>,
    pub assigned_motor_top_2_percent: Option<i64>,
    pub assigned_motor_top_3_percent: Option<i64>,
    pub assigned_boat_number: Option<i32>,
    pub assigned_boat_top_2_percent: Option<i64>,
    pub assigned_boat_top_3_percent: Option<i64>,
    pub created_at: String,
    pub updated_at: String,
}

// ------------------------------------------------------------------
// Data-type tags and export rows
// ------------------------------------------------------------------

/// The three feed shapes a raw record may hold.
#[derive(Clone, Copy, PartialEq, Eq, Structural, Debug)]
pub enum ApiDataType {
    Previews,
    Results,
    Programs,
}

impl ApiDataType {
    /// The feed's path segment for this data type.
    pub fn as_str(&self) -> (r: &'static str)
        ensures
            *self == ApiDataType::Previews ==> r@ == "previews"@,
            *self == ApiDataType::Results ==> r@ == "results"@,
            *self == ApiDataType::Programs ==> r@ == "programs"@,
    {
        match self {
            ApiDataType::Previews => "previews",
            ApiDataType::Results => "results",
            ApiDataType::Programs => "programs",
        }
    }
}

/// One row of the flat raw-record export.
pub struct CsvExportRow {
    pub date: String,
    pub venue_code: String,
    pub race_number: i32,
    pub data_type: String,
    pub data_json: String,
}

/// Per-date ingestion summary: how many records of each kind are stored.
pub struct DataSummaryRow {
    pub date: String,
    pub preview_count: i32,
    pub result_count: i32,
    pub program_count: i32,
    pub venue_codes: String,
    pub total_venues: i32,
}

/// Aggregate payout statistics over the normalized races: sums and counts are
/// kept as integers so a caller can form the averages exactly.
pub struct PayoutStats {
    pub trifecta_sum: i64,
    pub trifecta_count: i64,
    pub max_trifecta: Option<i32>,
    pub win_sum: i64,
    pub win_count: i64,
    pub max_win: Option<i32>,
}

// ------------------------------------------------------------------
// Value equivalence
//
// A copied list agrees with its source element for element (their views
// are equal), which is what every contract of this crate depends on.  The
// relations below state exactly that; scalar and string fields are compared
// as values.
// ------------------------------------------------------------------

/// Whether two optional payout lists hold equal entries.
pub open spec fn opt_payouts_eqv(a: Option<Vec<PayoutEntry>>, b: Option<Vec<PayoutEntry>>) -> bool {
    match (a, b) {
        (None, None) => true,
        (Some(x), Some(y)) => x@ == y@,
        _ => false,
    }
}

/// Whether two payout tables hold equal entries per bet type.
pub open spec fn payout_info_eqv(a: PayoutInfo, b: PayoutInfo) -> bool {
    &&& opt_payouts_eqv(a.win, b.win)
    &&& opt_payouts_eqv(a.place, b.place)
    &&& opt_payouts_eqv(a.exacta, b.exacta)
    &&& opt_payouts_eqv(a.quinella, b.quinella)
    &&& opt_payouts_eqv(a.quinella_place, b.quinella_place)
    &&& opt_payouts_eqv(a.trifecta, b.trifecta)
    &&& opt_payouts_eqv(a.trio, b.trio)
}

/// Whether two decoded result payloads agree in every field.
pub open spec fn race_result_eqv(a: RaceResult, b: RaceResult) -> bool {
    &&& a.race_date == b.race_date
    &&& a.race_stadium_number == b.race_stadium_number
    &&& a.race_number == b.race_number
    &&& a.race_wind == b.race_wind
    &&& a.race_wind_direction_number == b.race_wind_direction_number
    &&& a.race_wave == b.race_wave
    &&& a.race_weather_number == b.race_weather_number
    &&& a.race_temperature == b.race_temperature
    &&& a.race_water_temperature == b.race_water_temperature
    &&& a.race_technique_number == b.race_technique_number
    &&& a.boats@ == b.boats@
    &&& payout_info_eqv(a.payouts, b.payouts)
}

/// Whether two stored result payloads agree.
pub open spec fn result_payload_eqv(a: ResultPayload, b: ResultPayload) -> bool {
    match (a, b) {
        (ResultPayload::Parsed(x), ResultPayload::Parsed(y)) => race_result_eqv(x, y),
        (ResultPayload::Undecoded(x), ResultPayload::Undecoded(y)) => x == y,
        _ => false,
    }
}

/// Whether two optional stored result payloads agree.
pub open spec fn opt_result_payload_eqv(a: Option<ResultPayload>, b: Option<ResultPayload>) -> bool {
    match (a, b) {
        (None, None) => true,
        (Some(x), Some(y)) => result_payload_eqv(x, y),
        _ => false,
    }
}

/// Whether two decoded program payloads agree in every field.
pub open spec fn race_program_eqv(a: RaceProgram, b: RaceProgram) -> bool {
    &&& a.race_date == b.race_date
    &&& a.race_stadium_number == b.race_stadium_number
    &&& a.race_number == b.race_number
    &&& a.race_closed_at == b.race_closed_at
    &&& a.race_grade_number == b.race_grade_number
    &&& a.race_title == b.race_title
    &&& a.race_subtitle == b.race_subtitle
    &&& a.race_distance == b.race_distance
    &&& a.boats@ == b.boats@
}

/// Whether two stored program payloads agree.
pub open spec fn program_payload_eqv(a: ProgramPayload, b: ProgramPayload) -> bool {
    match (a, b) {
        (ProgramPayload::Parsed(x), ProgramPayload::Parsed(y)) => race_program_eqv(x, y),
        (ProgramPayload::Undecoded(x), ProgramPayload::Undecoded(y)) => x == y,
        _ => false,
    }
}

/// Whether two optional stored program payloads agree.
pub open spec fn opt_program_payload_eqv(
    a: Option<ProgramPayload>,
    b: Option<ProgramPayload>,
) -> bool {
    match (a, b) {
        (None, None) => true,
        (Some(x), Some(y)) => program_payload_eqv(x, y),
        _ => false,
    }
}

/// Whether two decoded preview payloads agree in every field.
pub open spec fn race_preview_eqv(a: RacePreview, b: RacePreview) -> bool {
    &&& a.race_date == b.race_date
    &&& a.race_stadium_number == b.race_stadium_number
    &&& a.race_number == b.race_number
    &&& a.race_wind == b.race_wind
    &&& a.race_wind_direction_number == b.race_wind_direction_number
    &&& a.race_wave == b.race_wave
    &&& a.race_weather_number == b.race_weather_number
    &&& a.race_temperature == b.race_temperature
    &&& a.race_water_temperature == b.race_water_temperature
    &&& a.boats@ == b.boats@
}

/// Whether two stored preview payloads agree.
pub open spec fn preview_payload_eqv(a: PreviewPayload, b: PreviewPayload) -> bool {
    match (a, b) {
        (PreviewPayload::Parsed(x), PreviewPayload::Parsed(y)) => race_preview_eqv(x, y),
        (PreviewPayload::Undecoded(x), PreviewPayload::Undecoded(y)) => x == y,
        _ => false,
    }
}

/// Whether two raw program records agree (payloads element for element).
pub open spec fn program_record_eqv(a: ProgramRecord, b: ProgramRecord) -> bool {
    &&& a.id == b.id
    &&& a.date == b.date
    &&& a.venue_code == b.venue_code
    &&& a.race_number == b.race_number
    &&& program_payload_eqv(a.payload, b.payload)
    &&& a.created_at == b.created_at
    &&& a.updated_at == b.updated_at
}

/// Whether two raw result records agree (payloads element for element).
pub open spec fn result_record_eqv(a: ResultRecord, b: ResultRecord) -> bool {
    &&& a.id == b.id
    &&& a.date == b.date
    &&& a.venue_code == b.venue_code
    &&& a.race_number == b.race_number
    &&& result_payload_eqv(a.payload, b.payload)
    &&& a.created_at == b.created_at
    &&& a.updated_at == b.updated_at
}

// ------------------------------------------------------------------
// Deep copies with equivalence contracts
// ------------------------------------------------------------------

/// Copies an optional string, yielding an equal value.
pub fn clone_opt_string(v: &Option<String>) -> (r: Option<String>)
    ensures
        r == *v,
{
    match v {
        None => None,
        Some(s) => Some(s.clone()),
    }
}

/// Copies one payout line.
pub fn clone_payout_entry(v: &PayoutEntry) -> (r: PayoutEntry)
    ensures
        r == *v,
{
    PayoutEntry { combination: clone_opt_string(&v.combination), payout: v.payout }
}

/// Copies an optional payout list, entry for entry.
pub fn clone_opt_payouts(v: &Option<Vec<PayoutEntry>>) -> (r: Option<Vec<PayoutEntry>>)
    ensures
        opt_payouts_eqv(r, *v),
{
    match v {
        None => None,
        Some(list) => {
            let mut out: Vec<PayoutEntry> = Vec::new();
            let mut i: usize = 0;
            while i < list.len()
                invariant
                    i <= list@.len(),
                    out@ =~= list@.take(i as int),
                decreases list@.len() - i,
            {
                out.push(clone_payout_entry(&list[i]));
                proof {
                    assert(out@ =~= list@.take(i as int + 1));
                }
                i = i + 1;
            }
            proof {
                assert(list@.take(list@.len() as int) =~= list@);
            }
            Some(out)
        },
    }
}

/// Copies the payout lists of a result payload, entry for entry.
pub fn clone_payout_info(v: &PayoutInfo) -> (r: PayoutInfo)
    ensures
        payout_info_eqv(r, *v),
{
    PayoutInfo {
        win: clone_opt_payouts(&v.win),
        place: clone_opt_payouts(&v.place),
        exacta: clone_opt_payouts(&v.exacta),
        quinella: clone_opt_payouts(&v.quinella),
        quinella_place: clone_opt_payouts(&v.quinella_place),
        trifecta: clone_opt_payouts(&v.trifecta),
        trio: clone_opt_payouts(&v.trio),
    }
}

/// Copies one boat's result line.
pub fn clone_result_racer(v: &ResultRacerInfo) -> (r: ResultRacerInfo)
    ensures
        r == *v,
{
    ResultRacerInfo {
        racer_boat_number: v.racer_boat_number,
        racer_course_number: v.racer_course_number,
        racer_start_timing: v.racer_start_timing,
        racer_place_number: v.racer_place_number,
        racer_number: v.racer_number,
        racer_name: clone_opt_string(&v.racer_name),
    }
}

/// Copies a result payload's boat list, element for element.
pub fn clone_result_boats(v: &Vec<ResultRacerInfo>) -> (r: Vec<ResultRacerInfo>)
    ensures
        r@ == v@,
{
    let mut out: Vec<ResultRacerInfo> = Vec::new();
    let mut i: usize = 0;
    while i < v.len()
        invariant
            i <= v@.len(),
            out@ =~= v@.take(i as int),
        decreases v@.len() - i,
    {
        out.push(clone_result_racer(&v[i]));
        proof {
            assert(out@ =~= v@.take(i as int + 1));
        }
        i = i + 1;
    }
    proof {
        assert(v@.take(v@.len() as int) =~= v@);
    }
    out
}

/// Copies a decoded result payload, field for field.
pub fn clone_race_result(v: &RaceResult) -> (r: RaceResult)
    ensures
        race_result_eqv(r, *v),
{
    RaceResult {
        race_date: v.race_date.clone(),
        race_stadium_number: v.race_stadium_number,
        race_number: v.race_number,
        race_wind: v.race_wind,
        race_wind_direction_number: v.race_wind_direction_number,
        race_wave: v.race_wave,
        race_weather_number: v.race_weather_number,
        race_temperature: v.race_temperature,
        race_water_temperature: v.race_water_temperature,
        race_technique_number: v.race_technique_number,
        boats: clone_result_boats(&v.boats),
        payouts: clone_payout_info(&v.payouts),
    }
}

/// Copies one boat's program line.
pub fn clone_program_racer(v: &ProgramRacerInfo) -> (r: ProgramRacerInfo)
    ensures
        r == *v,
{
    ProgramRacerInfo {
        racer_boat_number: v.racer_boat_number,
        racer_name: clone_opt_string(&v.racer_name),
        racer_number: v.racer_number,
        racer_class_number: v.racer_class_number,
        racer_branch_number: v.racer_branch_number,
        racer_birthplace_number: v.racer_birthplace_number,
        racer_age: v.racer_age,
        racer_weight: v.racer_weight,
        racer_flying_count: v.racer_flying_count,
        racer_late_count: v.racer_late_count,
        racer_average_start_timing: v.racer_average_start_timing,
        racer_national_top_1_percent: v.racer_national_top_1_percent,
        racer_national_top_2_percent: v.racer_national_top_2_percent,
        racer_national_top_3_percent: v.racer_national_top_3_percent,
        racer_local_top_1_percent: v.racer_local_top_1_percent,
        racer_local_top_2_percent: v.racer_local_top_2_percent,
        racer_local_top_3_percent: v.racer_local_top_3_percent,
        racer_assigned_motor_number: v.racer_assigned_motor_number,
        racer_assigned_motor_top_2_percent: v.racer_assigned_motor_top_2_percent,
        racer_assigned_motor_top_3_percent: v.racer_assigned_motor_top_3_percent,
        racer_assigned_boat_number: v.racer_assigned_boat_number,
        racer_assigned_boat_top_2_percent: v.racer_assigned_boat_top_2_percent,
        racer_assigned_boat_top_3_percent: v.racer_assigned_boat_top_3_percent,
    }
}

/// Copies a program payload's boat list, element for element.
pub fn clone_program_boats(v: &Vec<ProgramRacerInfo>) -> (r: Vec<ProgramRacerInfo>)
    ensures
        r@ == v@,
{
    let mut out: Vec<ProgramRacerInfo> = Vec::new();
    let mut i: usize = 0;
    while i < v.len()
        invariant
            i <= v@.len(),
            out@ =~= v@.take(i as int),
        decreases v@.len() - i,
    {
        out.push(clone_program_racer(&v[i]));
        proof {
            assert(out@ =~= v@.take(i as int + 1));
        }
        i = i + 1;
    }
    proof {
        assert(v@.take(v@.len() as int) =~= v@);
    }
    out
}

/// Copies a decoded program payload, field for field.
pub fn clone_race_program(v: &RaceProgram) -> (r: RaceProgram)
    ensures
        race_program_eqv(r, *v),
{
    RaceProgram {
        race_date: v.race_date.clone(),
        race_stadium_number: v.race_stadium_number,
        race_number: v.race_number,
        race_closed_at: clone_opt_string(&v.race_closed_at),
        race_grade_number: v.race_grade_number,
        race_title: clone_opt_string(&v.race_title),
        race_subtitle: clone_opt_string(&v.race_subtitle),
        race_distance: v.race_distance,
        boats: clone_program_boats(&v.boats),
    }
}

/// Copies a stored result payload.
pub fn clone_result_payload(v: &ResultPayload) -> (r: ResultPayload)
    ensures
        result_payload_eqv(r, *v),
{
    match v {
        ResultPayload::Parsed(d) => ResultPayload::Parsed(clone_race_result(d)),
        ResultPayload::Undecoded(s) => ResultPayload::Undecoded(s.clone()),
    }
}

/// Copies a stored program payload.
pub fn clone_program_payload(v: &ProgramPayload) -> (r: ProgramPayload)
    ensures
        program_payload_eqv(r, *v),
{
    match v {
        ProgramPayload::Parsed(d) => ProgramPayload::Parsed(clone_race_program(d)),
        ProgramPayload::Undecoded(s) => ProgramPayload::Undecoded(s.clone()),
    }
}

/// Copies an optional stored result payload.
pub fn clone_opt_result_payload(v: &Option<ResultPayload>) -> (r: Option<ResultPayload>)
    ensures
        opt_result_payload_eqv(r, *v),
{
    match v {
        None => None,
        Some(p) => Some(clone_result_payload(p)),
    }
}

/// Copies an optional stored program payload.
pub fn clone_opt_program_payload(v: &Option<ProgramPayload>) -> (r: Option<ProgramPayload>)
    ensures
        opt_program_payload_eqv(r, *v),
{
    match v {
        None => None,
        Some(p) => Some(clone_program_payload(p)),
    }
}

// ------------------------------------------------------------------
// Derivations from a result payload
// ------------------------------------------------------------------

/// The first payout of a bet type's list, if any.
pub open spec fn spec_first_payout(entries: Option<Vec<PayoutEntry>>) -> Option<i32> {
    match entries {
        None => None,
        Some(v) => if v@.len() == 0 {
            None
        } else {
            v@[0].payout
        },
    }
}

/// The first payout of a bet type's list, if any.
pub fn first_payout(entries: &Option<Vec<PayoutEntry>>) -> (r: Option<i32>)
    ensures
        r == spec_first_payout(*entries),
{
    match entries {
        None => None,
        Some(v) => {
            if v.len() == 0 {
                None
            } else {
                v[0].payout
            }
        },
    }
}

/// The maximum payout among the first `k` entries, ignoring absent payouts.
pub open spec fn spec_max_payout_upto(s: Seq<PayoutEntry>, k: int) -> Option<i32>
    decreases k,
{
    if k <= 0 {
        None
    } else {
        let prev = spec_max_payout_upto(s, k - 1);
        match s[k - 1].payout {
            None => prev,
            Some(p) => match prev {
                None => Some(p),
                Some(q) => if p > q {
                    Some(p)
                } else {
                    Some(q)
                },
            },
        }
    }
}

/// The maximum "place" payout across all entries of the list, if any carries
/// a payout.
pub open spec fn spec_max_place_payout(entries: Option<Vec<PayoutEntry>>) -> Option<i32> {
    match entries {
        None => None,
        Some(v) => spec_max_payout_upto(v@, v@.len() as int),
    }
}

/// The maximum payout across a bet type's entries.
pub fn max_place_payout(entries: &Option<Vec<PayoutEntry>>) -> (r: Option<i32>)
    ensures
        r == spec_max_place_payout(*entries),
{
    match entries {
        None => None,
        Some(v) => {
            let mut best: Option<i32> = None;
            let mut i: usize = 0;
            while i < v.len()
                invariant
                    i <= v@.len(),
                    best == spec_max_payout_upto(v@, i as int),
                decreases v@.len() - i,
            {
                match v[i].payout {
                    None => {},
                    Some(p) => {
                        best = match best {
                            None => Some(p),
                            Some(q) => if p > q {
                                Some(p)
                            } else {
                                Some(q)
                            },
                        };
                    },
                }
                i = i + 1;
            }
            best
        },
    }
}

/// The index of the first boat whose finishing place is 1, if any.
pub open spec fn spec_winner_index(boats: Seq<ResultRacerInfo>, k: int) -> Option<int>
    decreases k,
{
    if k <= 0 {
        None
    } else {
        match spec_winner_index(boats, k - 1) {
            Some(i) => Some(i),
            None => if boats[k - 1].racer_place_number == Some(1i32) {
                Some(k - 1)
            } else {
                None
            },
        }
    }
}

/// The winner's boat number, if some boat finished in place 1.
pub open spec fn spec_winner_boat(boats: Seq<ResultRacerInfo>) -> Option<i32> {
    match spec_winner_index(boats, boats.len() as int) {
        None => None,
        Some(i) => Some(boats[i].racer_boat_number),
    }
}

/// The winner's racer number, if some boat finished in place 1 and carries one.
pub open spec fn spec_winner_racer(boats: Seq<ResultRacerInfo>) -> Option<i32> {
    match spec_winner_index(boats, boats.len() as int) {
        None => None,
        Some(i) => boats[i].racer_number,
    }
}

/// Finds the first boat with finishing place 1 and returns its boat number
/// and racer number; both absent when no boat holds place 1.
pub fn find_winner(boats: &Vec<ResultRacerInfo>) -> (r: (Option<i32>, Option<i32>))
    ensures
        r.0 == spec_winner_boat(boats@),
        r.1 == spec_winner_racer(boats@),
{
    let mut i: usize = 0;
    while i < boats.len()
        invariant
            i <= boats@.len(),
            spec_winner_index(boats@, i as int) is None,
        decreases boats@.len() - i,
    {
        let is_first = match boats[i].racer_place_number {
            Some(p) => p == 1,
            None => false,
        };
        if is_first {
            proof {
                lemma_winner_index_stable(boats@, i as int + 1, boats@.len() as int);
            }
            return (Some(boats[i].racer_boat_number), boats[i].racer_number);
        }
        i = i + 1;
    }
    (None, None)
}

proof fn lemma_winner_index_stable(boats: Seq<ResultRacerInfo>, k: int, n: int)
    requires
        0 < k <= n <= boats.len(),
        spec_winner_index(boats, k) is Some,
    ensures
        spec_winner_index(boats, n) == spec_winner_index(boats, k),
    decreases n - k,
{
    if k < n {
        lemma_winner_index_stable(boats, k + 1, n);
    }
}

} // verus!
