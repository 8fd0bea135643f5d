//! The relational store model and its schema migration engine.
//!
//! The store holds three raw tables (previews, results, programs) and the two
//! normalized tables (races, race participants).  Two gated, transactional
//! migration stages turn accumulated raw result rows into normalized rows:
//! the second stage backfills derived search columns onto the raw results
//! table, the third splits every raw result row into one race row and six
//! participant rows, verifies the row counts, and only then drops the raw
//! results table.  Any failure leaves the store exactly as it was.

use vstd::prelude::*;
use crate::records::{
    PreviewRecord, ResultRecord, ProgramRecord, RaceRecord, RaceParticipantRecord,
    DerivedResultColumns, ResultPayload, ProgramPayload, RaceResult, RaceProgram,
    ResultRacerInfo, ProgramRacerInfo, PayoutStats,
    spec_first_payout, spec_max_place_payout, spec_winner_boat, spec_winner_racer,
    first_payout, max_place_payout, find_winner,
    clone_opt_string, clone_program_payload, program_payload_eqv, opt_program_payload_eqv,
    opt_result_payload_eqv, result_payload_eqv, clone_opt_result_payload, clone_result_boats, clone_program_boats,
    clone_opt_program_payload,
};
use crate::textutil::str_eq;

verus! {

/// A store operation that failed.
#[derive(Clone, Copy, PartialEq, Eq, Structural, Debug)]
pub enum StoreError {
    /// A record whose payload did not decode was handed to a save.
    Decode,
    /// The post-migration row counts did not match the raw rows.
    Integrity,
    /// Two boats of one result payload share a boat number.
    Conflict,
    /// A payout kind other than win, place, exacta or trifecta.
    UnknownPayoutType,
}

/// A raw result row together with the derived search columns that the second
/// migration stage backfills.
pub struct RawResultRow {
    pub record: ResultRecord,
    pub derived: Option<DerivedResultColumns>,
}

/// The store: raw tables, normalized tables, migration gates and id counters.
pub struct Store {
    pub previews: Vec<PreviewRecord>,
    /// The raw results table; `None` once the third stage has dropped it.
    pub results: Option<Vec<RawResultRow>>,
    pub programs: Vec<ProgramRecord>,
    /// Whether the second stage's derived columns exist on the results table.
    pub results_v2: bool,
    /// Whether the normalized tables exist (the third stage's gate).
    pub races_created: bool,
    pub races: Vec<RaceRecord>,
    pub participants: Vec<RaceParticipantRecord>,
    /// Names of the covering indexes the migrations created.
    pub indexes: Vec<String>,
    pub next_raw_id: i64,
    pub next_race_id: i64,
    pub next_participant_id: i64,
}

// ------------------------------------------------------------------
// Keys and lookups
// ------------------------------------------------------------------

/// Whether two (date, venue, race number) keys agree.
pub open spec fn same_key(
    d1: Seq<char>,
    v1: Seq<char>,
    n1: int,
    d2: Seq<char>,
    v2: Seq<char>,
    n2: int,
) -> bool {
    d1 == d2 && v1 == v2 && n1 == n2
}

/// The first raw result row (before `k`) with the given key.
pub open spec fn spec_find_result(
    rows: Seq<RawResultRow>,
    date: Seq<char>,
    venue: Seq<char>,
    rn: int,
    k: int,
) -> Option<int>
    decreases k,
{
    if k <= 0 {
        None
    } else {
        match spec_find_result(rows, date, venue, rn, k - 1) {
            Some(i) => Some(i),
            None => if same_key(
                rows[k - 1].record.date@,
                rows[k - 1].record.venue_code@,
                rows[k - 1].record.race_number as int,
                date,
                venue,
                rn,
            ) {
                Some(k - 1)
            } else {
                None
            },
        }
    }
}

/// The first program record (before `k`) with the given key.
pub open spec fn spec_find_program(
    rows: Seq<ProgramRecord>,
    date: Seq<char>,
    venue: Seq<char>,
    rn: int,
    k: int,
) -> Option<int>
    decreases k,
{
    if k <= 0 {
        None
    } else {
        match spec_find_program(rows, date, venue, rn, k - 1) {
            Some(i) => Some(i),
            None => if same_key(
                rows[k - 1].date@,
                rows[k - 1].venue_code@,
                rows[k - 1].race_number as int,
                date,
                venue,
                rn,
            ) {
                Some(k - 1)
            } else {
                None
            },
        }
    }
}

/// The first preview record (before `k`) with the given key.
pub open spec fn spec_find_preview(
    rows: Seq<PreviewRecord>,
    date: Seq<char>,
    venue: Seq<char>,
    rn: int,
    k: int,
) -> Option<int>
    decreases k,
{
    if k <= 0 {
        None
    } else {
        match spec_find_preview(rows, date, venue, rn, k - 1) {
            Some(i) => Some(i),
            None => if same_key(
                rows[k - 1].date@,
                rows[k - 1].venue_code@,
                rows[k - 1].race_number as int,
                date,
                venue,
                rn,
            ) {
                Some(k - 1)
            } else {
                None
            },
        }
    }
}

/// The first race row (before `k`) with the given key.
pub open spec fn spec_find_race(
    rows: Seq<RaceRecord>,
    date: Seq<char>,
    venue: Seq<char>,
    rn: int,
    k: int,
) -> Option<int>
    decreases k,
{
    if k <= 0 {
        None
    } else {
        match spec_find_race(rows, date, venue, rn, k - 1) {
            Some(i) => Some(i),
            None => if same_key(
                rows[k - 1].race_date@,
                rows[k - 1].venue_code@,
                rows[k - 1].race_number as int,
                date,
                venue,
                rn,
            ) {
                Some(k - 1)
            } else {
                None
            },
        }
    }
}

// ------------------------------------------------------------------
// Well-formedness
// ------------------------------------------------------------------

/// No two preview records share a key.
pub open spec fn previews_unique(rows: Seq<PreviewRecord>) -> bool {
    forall|i: int, j: int|
        0 <= i < j < rows.len() ==> !same_key(
            (#[trigger] rows[i]).date@,
            rows[i].venue_code@,
            rows[i].race_number as int,
            (#[trigger] rows[j]).date@,
            rows[j].venue_code@,
            rows[j].race_number as int,
        )
}

/// No two raw result rows share a key.
pub open spec fn results_unique(rows: Seq<RawResultRow>) -> bool {
    forall|i: int, j: int|
        0 <= i < j < rows.len() ==> !same_key(
            (#[trigger] rows[i]).record.date@,
            rows[i].record.venue_code@,
            rows[i].record.race_number as int,
            (#[trigger] rows[j]).record.date@,
            rows[j].record.venue_code@,
            rows[j].record.race_number as int,
        )
}

/// No two program records share a key.
pub open spec fn programs_unique(rows: Seq<ProgramRecord>) -> bool {
    forall|i: int, j: int|
        0 <= i < j < rows.len() ==> !same_key(
            (#[trigger] rows[i]).date@,
            rows[i].venue_code@,
            rows[i].race_number as int,
            (#[trigger] rows[j]).date@,
            rows[j].venue_code@,
            rows[j].race_number as int,
        )
}

/// No two race rows share a key, and their ids are distinct.
pub open spec fn races_unique(rows: Seq<RaceRecord>) -> bool {
    forall|i: int, j: int|
        0 <= i < j < rows.len() ==> !same_key(
            (#[trigger] rows[i]).race_date@,
            rows[i].venue_code@,
            rows[i].race_number as int,
            (#[trigger] rows[j]).race_date@,
            rows[j].venue_code@,
            rows[j].race_number as int,
        ) && rows[i].id != rows[j].id
}

/// No two participant rows share (race id, boat number).
pub open spec fn participants_unique(rows: Seq<RaceParticipantRecord>) -> bool {
    forall|i: int, j: int|
        0 <= i < j < rows.len() ==> !((#[trigger] rows[i]).race_id == (#[trigger] rows[j]).race_id
            && rows[i].boat_number == rows[j].boat_number)
}

impl Store {
    /// Store invariant: unique keys per table, gates consistent with table
    /// presence, and ids below their counters.
    pub open spec fn wf(self) -> bool {
        &&& previews_unique(self.previews@)
        &&& match self.results {
            Some(rows) => results_unique(rows@) && (!self.results_v2 ==> forall|i: int|
                0 <= i < rows@.len() ==> (#[trigger] rows@[i]).derived is None),
            None => true,
        }
        &&& programs_unique(self.programs@)
        &&& races_unique(self.races@)
        &&& participants_unique(self.participants@)
        &&& (self.results is None ==> self.results_v2 && self.races_created)
        &&& (!self.races_created ==> self.races@.len() == 0 && self.participants@.len() == 0)
        &&& 0 < self.next_raw_id
        &&& 0 < self.next_race_id
        &&& 0 < self.next_participant_id
        &&& (forall|i: int|
            0 <= i < self.races@.len() ==> 0 <= (#[trigger] self.races@[i]).id
                < self.next_race_id)
        &&& (forall|i: int|
            0 <= i < self.participants@.len() ==> 0 <= (#[trigger] self.participants@[i]).id
                < self.next_participant_id)
    }

    /// A bare store: raw tables present and empty, no migration applied.
    pub fn empty() -> (s: Store)
        ensures
            s.wf(),
            s.previews@.len() == 0,
            s.results matches Some(rows) && rows@.len() == 0,
            s.programs@.len() == 0,
            !s.results_v2,
            !s.races_created,
            s.races@.len() == 0,
            s.participants@.len() == 0,
            s.indexes@.len() == 0,
    {
        Store {
            previews: Vec::new(),
            results: Some(Vec::new()),
            programs: Vec::new(),
            results_v2: false,
            races_created: false,
            races: Vec::new(),
            participants: Vec::new(),
            indexes: Vec::new(),
            next_raw_id: 1,
            next_race_id: 1,
            next_participant_id: 1,
        }
    }
}

// ------------------------------------------------------------------
// Derived search columns
// ------------------------------------------------------------------

/// The search columns the second stage derives from one decoded result:
/// first payout per bet type, the maximum place payout, and the boat that
/// finished in place 1.
pub open spec fn spec_derived(data: RaceResult) -> DerivedResultColumns {
    DerivedResultColumns {
        race_wind: data.race_wind,
        race_wind_direction_number: data.race_wind_direction_number,
        race_wave: data.race_wave,
        race_weather_number: data.race_weather_number,
        race_temperature: data.race_temperature,
        race_water_temperature: data.race_water_temperature,
        race_technique_number: data.race_technique_number,
        win_payout: spec_first_payout(data.payouts.win),
        place_payout_max: spec_max_place_payout(data.payouts.place),
        exacta_payout: spec_first_payout(data.payouts.exacta),
        trifecta_payout: spec_first_payout(data.payouts.trifecta),
        winner_boat_number: spec_winner_boat(data.boats@),
        winner_racer_number: spec_winner_racer(data.boats@),
    }
}

/// The derived columns of a stored payload: absent when it never decoded.
pub open spec fn spec_v2_derived(p: ResultPayload) -> Option<DerivedResultColumns> {
    match p {
        ResultPayload::Parsed(data) => Some(spec_derived(data)),
        ResultPayload::Undecoded(_) => None,
    }
}

/// Computes the derived search columns of one decoded result payload.
pub fn derive_columns(data: &RaceResult) -> (d: DerivedResultColumns)
    ensures
        d == spec_derived(*data),
{
    let (winner_boat, winner_racer) = find_winner(&data.boats);
    DerivedResultColumns {
        race_wind: data.race_wind,
        race_wind_direction_number: data.race_wind_direction_number,
        race_wave: data.race_wave,
        race_weather_number: data.race_weather_number,
        race_temperature: data.race_temperature,
        race_water_temperature: data.race_water_temperature,
        race_technique_number: data.race_technique_number,
        win_payout: first_payout(&data.payouts.win),
        place_payout_max: max_place_payout(&data.payouts.place),
        exacta_payout: first_payout(&data.payouts.exacta),
        trifecta_payout: first_payout(&data.payouts.trifecta),
        winner_boat_number: winner_boat,
        winner_racer_number: winner_racer,
    }
}

// ------------------------------------------------------------------
// Stage two: derived search columns on the raw results table
// ------------------------------------------------------------------

/// The views of a list of index names.
pub open spec fn index_views(v: Seq<String>) -> Seq<Seq<char>> {
    v.map_values(|s: String| s@)
}

/// The names of the covering indexes stage two creates.
pub open spec fn v2_index_names() -> Seq<Seq<char>> {
    seq![
        "idx_results_trifecta_payout"@,
        "idx_results_win_payout"@,
        "idx_results_exacta_payout"@,
        "idx_results_venue"@,
        "idx_results_date_venue"@,
    ]
}

impl Store {
    /// Stage two: backfills the derived search columns onto every decodable
    /// raw result row and records the covering indexes.  A second run is a
    /// no-op; a row whose payload never decoded keeps absent columns.
    pub fn migrate_to_v2(&mut self)
        requires
            old(self).wf(),
        ensures
            final(self).wf(),
            old(self).results_v2 ==> *final(self) == *old(self),
            !old(self).results_v2 ==> {
                &&& final(self).results_v2
                &&& final(self).races_created == old(self).races_created
                &&& final(self).previews == old(self).previews
                &&& final(self).programs == old(self).programs
                &&& final(self).races == old(self).races
                &&& final(self).participants == old(self).participants
                &&& final(self).next_raw_id == old(self).next_raw_id
                &&& final(self).next_race_id == old(self).next_race_id
                &&& final(self).next_participant_id == old(self).next_participant_id
                &&& index_views(final(self).indexes@) == index_views(old(self).indexes@)
                    + v2_index_names()
                &&& match (final(self).results, old(self).results) {
                    (Some(rows), Some(orows)) => {
                        &&& rows@.len() == orows@.len()
                        &&& (forall|i: int|
                            0 <= i < rows@.len() ==> (#[trigger] rows@[i]).record
                                == orows@[i].record && rows@[i].derived == spec_v2_derived(
                                orows@[i].record.payload,
                            ))
                    },
                    _ => false,
                }
            },
    {
        if self.results_v2 {
            return ;
        }
        let mut rows_opt: Option<Vec<RawResultRow>> = None;
        core::mem::swap(&mut self.results, &mut rows_opt);
        let mut rows = match rows_opt {
            Some(r) => r,
            None => {
                // The invariant rules this out: the raw table exists until
                // stage three, which also sets the stage-two gate.
                proof {
                    assert(false);
                }
                Vec::new()
            },
        };
        let ghost orows = rows@;
        let mut out: Vec<RawResultRow> = Vec::new();
        while rows.len() > 0
            invariant
                out@.len() + rows@.len() == orows.len(),
                rows@ == orows.skip(out@.len() as int),
                forall|i: int|
                    0 <= i < out@.len() ==> (#[trigger] out@[i]).record == orows[i].record
                        && out@[i].derived == spec_v2_derived(orows[i].record.payload),
            decreases rows@.len(),
        {
            let row = rows.remove(0);
            proof {
                assert(row == orows.skip(out@.len() as int)[0]);
                assert(row == orows[out@.len() as int]);
                assert(rows@ =~= orows.skip(out@.len() as int + 1));
            }
            let derived: Option<DerivedResultColumns> = match &row.record.payload {
                ResultPayload::Parsed(data) => Some(derive_columns(data)),
                ResultPayload::Undecoded(_) => None,
            };
            out.push(RawResultRow { record: row.record, derived });
        }
        proof {
            assert(out@.len() == orows.len());
        }
        self.results = Some(out);
        self.results_v2 = true;
        self.indexes.push(String::from_str("idx_results_trifecta_payout"));
        self.indexes.push(String::from_str("idx_results_win_payout"));
        self.indexes.push(String::from_str("idx_results_exacta_payout"));
        self.indexes.push(String::from_str("idx_results_venue"));
        self.indexes.push(String::from_str("idx_results_date_venue"));
        proof {
            assert(index_views(self.indexes@) =~= index_views(old(self).indexes@)
                + v2_index_names());
        }
    }
}

// ------------------------------------------------------------------
// Stage three: the normalized schema, as a function of the raw rows
// ------------------------------------------------------------------

/// The decoded data of a stored result payload (meaningful only when parsed).
pub open spec fn spec_result_data(p: ResultPayload) -> RaceResult {
    match p {
        ResultPayload::Parsed(d) => d,
        ResultPayload::Undecoded(_) => vstd::pervasive::arbitrary(),
    }
}

/// The decoded data of a matched program record, when present and parsed.
pub open spec fn spec_prog_data(p: Option<ProgramRecord>) -> Option<RaceProgram> {
    match p {
        None => None,
        Some(pr) => match pr.payload {
            ProgramPayload::Parsed(d) => Some(d),
            ProgramPayload::Undecoded(_) => None,
        },
    }
}

/// The program record sharing a raw result row's key, if one exists.
pub open spec fn spec_program_at(
    programs: Seq<ProgramRecord>,
    date: Seq<char>,
    venue: Seq<char>,
    rn: int,
) -> Option<ProgramRecord> {
    match spec_find_program(programs, date, venue, rn, programs.len() as int) {
        Some(j) => Some(programs[j]),
        None => None,
    }
}

/// The first program boat entry (before `k`) carrying the given boat number.
pub open spec fn spec_find_prog_boat(boats: Seq<ProgramRacerInfo>, no: i32, k: int) -> Option<int>
    decreases k,
{
    if k <= 0 {
        None
    } else {
        match spec_find_prog_boat(boats, no, k - 1) {
            Some(i) => Some(i),
            None => if boats[k - 1].racer_boat_number == Some(no) {
                Some(k - 1)
            } else {
                None
            },
        }
    }
}

/// The program boat entry matched to a result boat by boat number.
pub open spec fn spec_prog_boat_for(prog: Option<RaceProgram>, no: i32) -> Option<
    ProgramRacerInfo,
> {
    match prog {
        None => None,
        Some(d) => match spec_find_prog_boat(d.boats@, no, d.boats@.len() as int) {
            Some(j) => Some(d.boats@[j]),
            None => None,
        },
    }
}

/// The race row stage three builds from one raw result row: key and payloads
/// from the result record, payout and winner columns derived from the decoded
/// result, race metadata merged from the matched program when it decodes.
pub open spec fn spec_race_from_row(
    rec: ResultRecord,
    prog_rec: Option<ProgramRecord>,
    id: int,
) -> RaceRecord {
    let data = spec_result_data(rec.payload);
    let prog = spec_prog_data(prog_rec);
    RaceRecord {
        id: id as i64,
        race_date: rec.date,
        venue_code: rec.venue_code,
        race_number: rec.race_number,
        race_wind: data.race_wind,
        race_wind_direction_number: data.race_wind_direction_number,
        race_wave: data.race_wave,
        race_weather_number: data.race_weather_number,
        race_temperature: data.race_temperature,
        race_water_temperature: data.race_water_temperature,
        race_technique_number: data.race_technique_number,
        win_payout: spec_first_payout(data.payouts.win),
        place_payout_max: spec_max_place_payout(data.payouts.place),
        exacta_payout: spec_first_payout(data.payouts.exacta),
        quinella_payout: spec_first_payout(data.payouts.quinella),
        trifecta_payout: spec_first_payout(data.payouts.trifecta),
        trio_payout: spec_first_payout(data.payouts.trio),
        winner_boat_number: spec_winner_boat(data.boats@),
        winner_racer_number: spec_winner_racer(data.boats@),
        race_grade_number: match prog {
            Some(d) => d.race_grade_number,
            None => None,
        },
        race_title: match prog {
            Some(d) => d.race_title,
            None => None,
        },
        race_subtitle: match prog {
            Some(d) => d.race_subtitle,
            None => None,
        },
        race_distance: match prog {
            Some(d) => d.race_distance,
            None => None,
        },
        result_payload: Some(rec.payload),
        program_payload: match prog_rec {
            Some(pr) => Some(pr.payload),
            None => None,
        },
        created_at: rec.created_at,
        updated_at: rec.updated_at,
    }
}

/// The participant row stage three builds for one boat: identity, start and
/// finish data from the result boat, class and equipment statistics merged
/// from the matching program boat.
pub open spec fn spec_participant_from(
    boat: ResultRacerInfo,
    pboat: Option<ProgramRacerInfo>,
    race_id: int,
    pid: int,
    created: String,
    updated: String,
) -> RaceParticipantRecord {
    RaceParticipantRecord {
        id: pid as i64,
        race_id: race_id as i64,
        boat_number: boat.racer_boat_number,
        racer_number: boat.racer_number,
        racer_name: boat.racer_name,
        racer_class_number: match pboat {
            Some(pb) => pb.racer_class_number,
            None => None,
        },
        racer_branch_number: match pboat {
            Some(pb) => pb.racer_branch_number,
            None => None,
        },
        racer_birthplace_number: match pboat {
            Some(pb) => pb.racer_birthplace_number,
            None => None,
        },
        racer_age: match pboat {
            Some(pb) => pb.racer_age,
            None => None,
        },
        racer_weight: match pboat {
            Some(pb) => pb.racer_weight,
            None => None,
        },
        course_number: boat.racer_course_number,
        start_timing: boat.racer_start_timing,
        entry_number: None,
        place_number: boat.racer_place_number,
        decision_hand: None,
        flying_count: match pboat {
            Some(pb) => pb.racer_flying_count,
            None => None,
        },
        late_count: match pboat {
            Some(pb) => pb.racer_late_count,
            None => None,
        },
        average_start_timing: match pboat {
            Some(pb) => pb.racer_average_start_timing,
            None => None,
        },
        national_top_1_percent: match pboat {
            Some(pb) => pb.racer_national_top_1_percent,
            None => None,
        },
        national_top_2_percent: match pboat {
            Some(pb) => pb.racer_national_top_2_percent,
            None => None,
        },
        national_top_3_percent: match pboat {
            Some(pb) => pb.racer_national_top_3_percent,
            None => None,
        },
        local_top_1_percent: match pboat {
            Some(pb) => pb.racer_local_top_1_percent,
            None => None,
        },
        local_top_2_percent: match pboat {
            Some(pb) => pb.racer_local_top_2_percent,
            None => None,
        },
        local_top_3_percent: match pboat {
            Some(pb) => pb.racer_local_top_3_percent,
            None => None,
        },
        assigned_motor_number: match pboat {
            Some(pb) => pb.racer_assigned_motor_number,
            None => None,
        },
        assigned_motor_top_2_percent: match pboat {
            Some(pb) => pb.racer_assigned_motor_top_2_percent,
            None => None,
        },
        assigned_motor_top_3_percent: match pboat {
            Some(pb) => pb.racer_assigned_motor_top_3_percent,
            None => None,
        },
        assigned_boat_number: match pboat {
            Some(pb) => pb.racer_assigned_boat_number,
            None => None,
        },
        assigned_boat_top_2_percent: match pboat {
            Some(pb) => pb.racer_assigned_boat_top_2_percent,
            None => None,
        },
        assigned_boat_top_3_percent: match pboat {
            Some(pb) => pb.racer_assigned_boat_top_3_percent,
            None => None,
        },
        created_at: created,
        updated_at: updated,
    }
}

/// The race rows built from the first `k` raw result rows.
pub open spec fn spec_build_races(
    rows: Seq<RawResultRow>,
    programs: Seq<ProgramRecord>,
    base: int,
    k: int,
) -> Seq<RaceRecord>
    decreases k,
{
    if k <= 0 {
        Seq::empty()
    } else {
        spec_build_races(rows, programs, base, k - 1).push(
            spec_race_from_row(
                rows[k - 1].record,
                spec_program_at(
                    programs,
                    rows[k - 1].record.date@,
                    rows[k - 1].record.venue_code@,
                    rows[k - 1].record.race_number as int,
                ),
                base + (k - 1),
            ),
        )
    }
}

/// The participant rows built for one raw result row (one per boat).
pub open spec fn spec_parts_for_row(
    row: RawResultRow,
    prog_rec: Option<ProgramRecord>,
    race_id: int,
    pid_base: int,
) -> Seq<RaceParticipantRecord> {
    let data = spec_result_data(row.record.payload);
    let prog = spec_prog_data(prog_rec);
    Seq::new(
        data.boats@.len(),
        |j: int|
            spec_participant_from(
                data.boats@[j],
                spec_prog_boat_for(prog, data.boats@[j].racer_boat_number),
                race_id,
                pid_base + j,
                row.record.created_at,
                row.record.updated_at,
            ),
    )
}

/// The participant rows built from the first `k` raw result rows, six per
/// row.
pub open spec fn spec_build_parts(
    rows: Seq<RawResultRow>,
    programs: Seq<ProgramRecord>,
    rid_base: int,
    pid_base: int,
    k: int,
) -> Seq<RaceParticipantRecord>
    decreases k,
{
    if k <= 0 {
        Seq::empty()
    } else {
        spec_build_parts(rows, programs, rid_base, pid_base, k - 1) + spec_parts_for_row(
            rows[k - 1],
            spec_program_at(
                programs,
                rows[k - 1].record.date@,
                rows[k - 1].record.venue_code@,
                rows[k - 1].record.race_number as int,
            ),
            rid_base + (k - 1),
            pid_base + 6 * (k - 1),
        )
    }
}

// ------------------------------------------------------------------
// Migratability: what stage three's verification accepts
// ------------------------------------------------------------------

/// Whether a raw result row will count correctly: its payload decoded and it
/// names exactly six boats.
pub open spec fn row_countable(row: RawResultRow) -> bool {
    match row.record.payload {
        ResultPayload::Parsed(d) => d.boats@.len() == 6,
        ResultPayload::Undecoded(_) => false,
    }
}

/// Whether the boats of one payload carry pairwise distinct boat numbers.
pub open spec fn boats_distinct(boats: Seq<ResultRacerInfo>) -> bool {
    forall|a: int, b: int|
        0 <= a < b < boats.len() ==> (#[trigger] boats[a]).racer_boat_number != (
        #[trigger] boats[b]).racer_boat_number
}

/// Whether a raw result row migrates cleanly: countable and without a boat
/// number conflict.
pub open spec fn row_migratable(row: RawResultRow) -> bool {
    &&& row_countable(row)
    &&& boats_distinct(spec_result_data(row.record.payload).boats@)
}

/// Whether every raw result row migrates cleanly: exactly the condition
/// under which stage three's row-count verification succeeds.
pub open spec fn all_migratable(rows: Seq<RawResultRow>) -> bool {
    forall|i: int| 0 <= i < rows.len() ==> row_migratable(#[trigger] rows[i])
}

/// Whether the boats of one result payload carry pairwise distinct numbers.
pub fn boats_all_distinct(boats: &Vec<ResultRacerInfo>) -> (r: bool)
    ensures
        r == boats_distinct(boats@),
{
    let n = boats.len();
    let mut a: usize = 0;
    while a < n
        invariant
            a <= n,
            n == boats@.len(),
            forall|x: int, y: int|
                0 <= x < y < n && x < a ==> (#[trigger] boats@[x]).racer_boat_number != (
                #[trigger] boats@[y]).racer_boat_number,
        decreases n - a,
    {
        let mut b: usize = a + 1;
        while b < n
            invariant
                a < b <= n,
                a < n,
                n == boats@.len(),
                forall|y: int|
                    a < y < b ==> (#[trigger] boats@[y]).racer_boat_number
                        != boats@[a as int].racer_boat_number,
            decreases n - b,
        {
            if boats[a].racer_boat_number == boats[b].racer_boat_number {
                proof {
                    assert(!boats_distinct(boats@)) by {
                        assert((boats@[a as int]).racer_boat_number == (
                        boats@[b as int]).racer_boat_number);
                    }
                }
                return false;
            }
            b = b + 1;
        }
        a = a + 1;
    }
    true
}

// ------------------------------------------------------------------
// Race-row equivalence (payload copies compared element for element)
// ------------------------------------------------------------------

/// Whether two race rows agree: every column equal, the retained payloads
/// equal element for element.
pub open spec fn race_eqv(a: RaceRecord, b: RaceRecord) -> bool {
    &&& a.id == b.id
    &&& a.race_date == b.race_date
    &&& a.venue_code == b.venue_code
    &&& a.race_number == b.race_number
    &&& a.race_wind == b.race_wind
    &&& a.race_wind_direction_number == b.race_wind_direction_number
    &&& a.race_wave == b.race_wave
    &&& a.race_weather_number == b.race_weather_number
    &&& a.race_temperature == b.race_temperature
    &&& a.race_water_temperature == b.race_water_temperature
    &&& a.race_technique_number == b.race_technique_number
    &&& a.win_payout == b.win_payout
    &&& a.place_payout_max == b.place_payout_max
    &&& a.exacta_payout == b.exacta_payout
    &&& a.quinella_payout == b.quinella_payout
    &&& a.trifecta_payout == b.trifecta_payout
    &&& a.trio_payout == b.trio_payout
    &&& a.winner_boat_number == b.winner_boat_number
    &&& a.winner_racer_number == b.winner_racer_number
    &&& a.race_grade_number == b.race_grade_number
    &&& a.race_title == b.race_title
    &&& a.race_subtitle == b.race_subtitle
    &&& a.race_distance == b.race_distance
    &&& opt_result_payload_eqv(a.result_payload, b.result_payload)
    &&& opt_program_payload_eqv(a.program_payload, b.program_payload)
    &&& a.created_at == b.created_at
    &&& a.updated_at == b.updated_at
}

/// Element-wise [`race_eqv`] over two race tables.
pub open spec fn races_eqv(a: Seq<RaceRecord>, b: Seq<RaceRecord>) -> bool {
    a.len() == b.len() && forall|i: int| 0 <= i < a.len() ==> race_eqv(#[trigger] a[i], b[i])
}

/// The names of the secondary indexes stage three creates for the query
/// builder.
pub open spec fn v3_index_names() -> Seq<Seq<char>> {
    seq![
        "idx_races_date"@,
        "idx_races_venue"@,
        "idx_races_date_venue"@,
        "idx_races_trifecta_payout"@,
        "idx_races_win_payout"@,
        "idx_races_exacta_payout"@,
        "idx_races_wind"@,
        "idx_races_wave"@,
        "idx_races_winner_boat"@,
        "idx_races_winner_racer"@,
        "idx_races_grade"@,
        "idx_participants_race_id"@,
        "idx_participants_racer_number"@,
        "idx_participants_racer_name"@,
        "idx_participants_class"@,
        "idx_participants_branch"@,
        "idx_participants_place"@,
        "idx_participants_boat"@,
        "idx_participants_course"@,
        "idx_participants_class_place"@,
        "idx_participants_racer_place"@,
    ]
}

/// The raw result rows of a store (empty once the table is dropped).
pub open spec fn rows_of(s: Store) -> Seq<RawResultRow> {
    match s.results {
        Some(r) => r@,
        None => Seq::empty(),
    }
}

// ------------------------------------------------------------------
// Characterizations of the stage-three builders
// ------------------------------------------------------------------

proof fn lemma_build_races_index(
    rows: Seq<RawResultRow>,
    programs: Seq<ProgramRecord>,
    base: int,
    k: int,
    i: int,
)
    requires
        0 <= i < k <= rows.len(),
    ensures
        spec_build_races(rows, programs, base, k).len() == k,
        spec_build_races(rows, programs, base, k)[i] == spec_race_from_row(
            rows[i].record,
            spec_program_at(
                programs,
                rows[i].record.date@,
                rows[i].record.venue_code@,
                rows[i].record.race_number as int,
            ),
            base + i,
        ),
    decreases k,
{
    lemma_build_races_len(rows, programs, base, k);
    if i < k - 1 {
        lemma_build_races_index(rows, programs, base, k - 1, i);
    }
}

proof fn lemma_build_races_len(
    rows: Seq<RawResultRow>,
    programs: Seq<ProgramRecord>,
    base: int,
    k: int,
)
    requires
        0 <= k <= rows.len(),
    ensures
        spec_build_races(rows, programs, base, k).len() == k,
    decreases k,
{
    if k > 0 {
        lemma_build_races_len(rows, programs, base, k - 1);
    }
}

proof fn lemma_build_parts_len(
    rows: Seq<RawResultRow>,
    programs: Seq<ProgramRecord>,
    rid_base: int,
    pid_base: int,
    k: int,
)
    requires
        0 <= k <= rows.len(),
        forall|i: int| 0 <= i < rows.len() ==> row_countable(#[trigger] rows[i]),
    ensures
        spec_build_parts(rows, programs, rid_base, pid_base, k).len() == 6 * k,
    decreases k,
{
    if k > 0 {
        lemma_build_parts_len(rows, programs, rid_base, pid_base, k - 1);
    }
}

proof fn lemma_build_parts_index(
    rows: Seq<RawResultRow>,
    programs: Seq<ProgramRecord>,
    rid_base: int,
    pid_base: int,
    k: int,
    q: int,
    j: int,
)
    requires
        0 <= q < k <= rows.len(),
        0 <= j < 6,
        forall|i: int| 0 <= i < rows.len() ==> row_countable(#[trigger] rows[i]),
    ensures
        spec_build_parts(rows, programs, rid_base, pid_base, k).len() == 6 * k,
        spec_build_parts(rows, programs, rid_base, pid_base, k)[6 * q + j]
            == spec_parts_for_row(
            rows[q],
            spec_program_at(
                programs,
                rows[q].record.date@,
                rows[q].record.venue_code@,
                rows[q].record.race_number as int,
            ),
            rid_base + q,
            pid_base + 6 * q,
        )[j],
    decreases k,
{
    lemma_build_parts_len(rows, programs, rid_base, pid_base, k);
    if q < k - 1 {
        lemma_build_parts_index(rows, programs, rid_base, pid_base, k - 1, q, j);
        lemma_build_parts_len(rows, programs, rid_base, pid_base, k - 1);
    } else {
        lemma_build_parts_len(rows, programs, rid_base, pid_base, k - 1);
    }
}

// ------------------------------------------------------------------
// The stage-three verification check
// ------------------------------------------------------------------

/// Verifies, before anything is written, that stage three's row counts will
/// match: every payload decoded, exactly six boats per race, no boat-number
/// conflict.  This is the check whose failure rolls the stage back.
fn check_migratable(rows: &Vec<RawResultRow>) -> (r: Result<(), StoreError>)
    ensures
        r is Ok <==> all_migratable(rows@),
        r == Err::<(), StoreError>(StoreError::Integrity) ==> exists|i: int|
            0 <= i < rows@.len() && !row_countable(#[trigger] rows@[i]),
        r == Err::<(), StoreError>(StoreError::Conflict) ==> exists|i: int|
            0 <= i < rows@.len() && row_countable(#[trigger] rows@[i]) && !boats_distinct(
                spec_result_data(rows@[i].record.payload).boats@,
            ),
        r is Err ==> r->Err_0 == StoreError::Integrity || r->Err_0 == StoreError::Conflict,
{
    let mut i: usize = 0;
    while i < rows.len()
        invariant
            i <= rows@.len(),
            forall|j: int| 0 <= j < i ==> row_migratable(#[trigger] rows@[j]),
        decreases rows@.len() - i,
    {
        match &rows[i].record.payload {
            ResultPayload::Undecoded(_) => {
                proof {
                    assert(!row_countable(rows@[i as int]));
                }
                return Err(StoreError::Integrity);
            },
            ResultPayload::Parsed(data) => {
                if data.boats.len() != 6 {
                    proof {
                        assert(!row_countable(rows@[i as int]));
                    }
                    return Err(StoreError::Integrity);
                }
                if !boats_all_distinct(&data.boats) {
                    proof {
                        assert(row_countable(rows@[i as int]));
                        assert(!boats_distinct(spec_result_data(rows@[i as int].record.payload).boats@));
                        assert(!row_migratable(rows@[i as int]));
                    }
                    return Err(StoreError::Conflict);
                }
                proof {
                    assert(row_migratable(rows@[i as int]));
                }
            },
        }
        i = i + 1;
    }
    Ok(())
}

/// The first program boat entry carrying the given boat number, if any.
fn find_prog_boat(boats: &Vec<ProgramRacerInfo>, no: i32) -> (r: Option<usize>)
    ensures
        match r {
            Some(i) => i < boats@.len() && spec_find_prog_boat(boats@, no, boats@.len() as int)
                == Some(i as int),
            None => spec_find_prog_boat(boats@, no, boats@.len() as int) is None,
        },
{
    let mut i: usize = 0;
    while i < boats.len()
        invariant
            i <= boats@.len(),
            spec_find_prog_boat(boats@, no, i as int) is None,
        decreases boats@.len() - i,
    {
        let hit = match boats[i].racer_boat_number {
            Some(b) => b == no,
            None => false,
        };
        if hit {
            proof {
                lemma_find_prog_boat_stable(boats@, no, i as int + 1, boats@.len() as int);
            }
            return Some(i);
        }
        i = i + 1;
    }
    None
}

proof fn lemma_find_prog_boat_stable(boats: Seq<ProgramRacerInfo>, no: i32, k: int, n: int)
    requires
        0 < k <= n <= boats.len(),
        spec_find_prog_boat(boats, no, k) is Some,
    ensures
        spec_find_prog_boat(boats, no, n) == spec_find_prog_boat(boats, no, k),
    decreases n - k,
{
    if k < n {
        lemma_find_prog_boat_stable(boats, no, k + 1, n);
    }
}

/// Builds one participant row from a result boat and its matching program
/// boat entry.
fn build_participant(
    boat: &ResultRacerInfo,
    pb: Option<&ProgramRacerInfo>,
    race_id: i64,
    pid: i64,
    created: &String,
    updated: &String,
) -> (p: RaceParticipantRecord)
    ensures
        p == spec_participant_from(
            *boat,
            match pb {
                Some(r) => Some(*r),
                None => None,
            },
            race_id as int,
            pid as int,
            *created,
            *updated,
        ),
{
    RaceParticipantRecord {
        id: pid,
        race_id,
        boat_number: boat.racer_boat_number,
        racer_number: boat.racer_number,
        racer_name: clone_opt_string(&boat.racer_name),
        racer_class_number: match pb {
            Some(r) => r.racer_class_number,
            None => None,
        },
        racer_branch_number: match pb {
            Some(r) => r.racer_branch_number,
            None => None,
        },
        racer_birthplace_number: match pb {
            Some(r) => r.racer_birthplace_number,
            None => None,
        },
        racer_age: match pb {
            Some(r) => r.racer_age,
            None => None,
        },
        racer_weight: match pb {
            Some(r) => r.racer_weight,
            None => None,
        },
        course_number: boat.racer_course_number,
        start_timing: boat.racer_start_timing,
        entry_number: None,
        place_number: boat.racer_place_number,
        decision_hand: None,
        flying_count: match pb {
            Some(r) => r.racer_flying_count,
            None => None,
        },
        late_count: match pb {
            Some(r) => r.racer_late_count,
            None => None,
        },
        average_start_timing: match pb {
            Some(r) => r.racer_average_start_timing,
            None => None,
        },
        national_top_1_percent: match pb {
            Some(r) => r.racer_national_top_1_percent,
            None => None,
        },
        national_top_2_percent: match pb {
            Some(r) => r.racer_national_top_2_percent,
            None => None,
        },
        national_top_3_percent: match pb {
            Some(r) => r.racer_national_top_3_percent,
            None => None,
        },
        local_top_1_percent: match pb {
            Some(r) => r.racer_local_top_1_percent,
            None => None,
        },
        local_top_2_percent: match pb {
            Some(r) => r.racer_local_top_2_percent,
            None => None,
        },
        local_top_3_percent: match pb {
            Some(r) => r.racer_local_top_3_percent,
            None => None,
        },
        assigned_motor_number: match pb {
            Some(r) => r.racer_assigned_motor_number,
            None => None,
        },
        assigned_motor_top_2_percent: match pb {
            Some(r) => r.racer_assigned_motor_top_2_percent,
            None => None,
        },
        assigned_motor_top_3_percent: match pb {
            Some(r) => r.racer_assigned_motor_top_3_percent,
            None => None,
        },
        assigned_boat_number: match pb {
            Some(r) => r.racer_assigned_boat_number,
            None => None,
        },
        assigned_boat_top_2_percent: match pb {
            Some(r) => r.racer_assigned_boat_top_2_percent,
            None => None,
        },
        assigned_boat_top_3_percent: match pb {
            Some(r) => r.racer_assigned_boat_top_3_percent,
            None => None,
        },
        created_at: created.clone(),
        updated_at: updated.clone(),
    }
}

// ------------------------------------------------------------------
// Executable key lookups
// ------------------------------------------------------------------

/// Finds the raw result row with the given key, if one exists.
pub fn find_result_row(
    rows: &Vec<RawResultRow>,
    date: &String,
    venue: &String,
    rn: i32,
) -> (r: Option<usize>)
    ensures
        match r {
            Some(i) => i < rows@.len() && spec_find_result(
                rows@,
                date@,
                venue@,
                rn as int,
                rows@.len() as int,
            ) == Some(i as int),
            None => spec_find_result(rows@, date@, venue@, rn as int, rows@.len() as int) is None,
        },
{
    let mut i: usize = 0;
    while i < rows.len()
        invariant
            i <= rows@.len(),
            spec_find_result(rows@, date@, venue@, rn as int, i as int) is None,
        decreases rows@.len() - i,
    {
        if str_eq(rows[i].record.date.as_str(), date.as_str()) && str_eq(
            rows[i].record.venue_code.as_str(),
            venue.as_str(),
        ) && rows[i].record.race_number == rn {
            proof {
                lemma_find_result_stable(rows@, date@, venue@, rn as int, i as int + 1, rows@.len() as int);
            }
            return Some(i);
        }
        i = i + 1;
    }
    None
}

proof fn lemma_find_result_stable(
    rows: Seq<RawResultRow>,
    date: Seq<char>,
    venue: Seq<char>,
    rn: int,
    k: int,
    n: int,
)
    requires
        0 < k <= n <= rows.len(),
        spec_find_result(rows, date, venue, rn, k) is Some,
    ensures
        spec_find_result(rows, date, venue, rn, n) == spec_find_result(rows, date, venue, rn, k),
    decreases n - k,
{
    if k < n {
        lemma_find_result_stable(rows, date, venue, rn, k + 1, n);
    }
}

/// Finds the program record with the given key, if one exists.
pub fn find_program_row(
    rows: &Vec<ProgramRecord>,
    date: &String,
    venue: &String,
    rn: i32,
) -> (r: Option<usize>)
    ensures
        match r {
            Some(i) => i < rows@.len() && spec_find_program(
                rows@,
                date@,
                venue@,
                rn as int,
                rows@.len() as int,
            ) == Some(i as int),
            None => spec_find_program(rows@, date@, venue@, rn as int, rows@.len() as int) is None,
        },
{
    let mut i: usize = 0;
    while i < rows.len()
        invariant
            i <= rows@.len(),
            spec_find_program(rows@, date@, venue@, rn as int, i as int) is None,
        decreases rows@.len() - i,
    {
        if str_eq(rows[i].date.as_str(), date.as_str()) && str_eq(
            rows[i].venue_code.as_str(),
            venue.as_str(),
        ) && rows[i].race_number == rn {
            proof {
                lemma_find_program_stable(rows@, date@, venue@, rn as int, i as int + 1, rows@.len() as int);
            }
            return Some(i);
        }
        i = i + 1;
    }
    None
}

proof fn lemma_find_program_stable(
    rows: Seq<ProgramRecord>,
    date: Seq<char>,
    venue: Seq<char>,
    rn: int,
    k: int,
    n: int,
)
    requires
        0 < k <= n <= rows.len(),
        spec_find_program(rows, date, venue, rn, k) is Some,
    ensures
        spec_find_program(rows, date, venue, rn, n) == spec_find_program(rows, date, venue, rn, k),
    decreases n - k,
{
    if k < n {
        lemma_find_program_stable(rows, date, venue, rn, k + 1, n);
    }
}

/// Finds the preview record with the given key, if one exists.
pub fn find_preview_row(
    rows: &Vec<PreviewRecord>,
    date: &String,
    venue: &String,
    rn: i32,
) -> (r: Option<usize>)
    ensures
        match r {
            Some(i) => i < rows@.len() && spec_find_preview(
                rows@,
                date@,
                venue@,
                rn as int,
                rows@.len() as int,
            ) == Some(i as int),
            None => spec_find_preview(rows@, date@, venue@, rn as int, rows@.len() as int) is None,
        },
{
    let mut i: usize = 0;
    while i < rows.len()
        invariant
            i <= rows@.len(),
            spec_find_preview(rows@, date@, venue@, rn as int, i as int) is None,
        decreases rows@.len() - i,
    {
        if str_eq(rows[i].date.as_str(), date.as_str()) && str_eq(
            rows[i].venue_code.as_str(),
            venue.as_str(),
        ) && rows[i].race_number == rn {
            proof {
                lemma_find_preview_stable(rows@, date@, venue@, rn as int, i as int + 1, rows@.len() as int);
            }
            return Some(i);
        }
        i = i + 1;
    }
    None
}

proof fn lemma_find_preview_stable(
    rows: Seq<PreviewRecord>,
    date: Seq<char>,
    venue: Seq<char>,
    rn: int,
    k: int,
    n: int,
)
    requires
        0 < k <= n <= rows.len(),
        spec_find_preview(rows, date, venue, rn, k) is Some,
    ensures
        spec_find_preview(rows, date, venue, rn, n) == spec_find_preview(rows, date, venue, rn, k),
    decreases n - k,
{
    if k < n {
        lemma_find_preview_stable(rows, date, venue, rn, k + 1, n);
    }
}

/// Finds the race row with the given key, if one exists.
pub fn find_race_row(rows: &Vec<RaceRecord>, date: &String, venue: &String, rn: i32) -> (r: Option<
    usize,
>)
    ensures
        match r {
            Some(i) => i < rows@.len() && spec_find_race(
                rows@,
                date@,
                venue@,
                rn as int,
                rows@.len() as int,
            ) == Some(i as int),
            None => spec_find_race(rows@, date@, venue@, rn as int, rows@.len() as int) is None,
        },
{
    let mut i: usize = 0;
    while i < rows.len()
        invariant
            i <= rows@.len(),
            spec_find_race(rows@, date@, venue@, rn as int, i as int) is None,
        decreases rows@.len() - i,
    {
        if str_eq(rows[i].race_date.as_str(), date.as_str()) && str_eq(
            rows[i].venue_code.as_str(),
            venue.as_str(),
        ) && rows[i].race_number == rn {
            proof {
                lemma_find_race_stable(rows@, date@, venue@, rn as int, i as int + 1, rows@.len() as int);
            }
            return Some(i);
        }
        i = i + 1;
    }
    None
}

proof fn lemma_find_race_stable(
    rows: Seq<RaceRecord>,
    date: Seq<char>,
    venue: Seq<char>,
    rn: int,
    k: int,
    n: int,
)
    requires
        0 < k <= n <= rows.len(),
        spec_find_race(rows, date, venue, rn, k) is Some,
    ensures
        spec_find_race(rows, date, venue, rn, n) == spec_find_race(rows, date, venue, rn, k),
    decreases n - k,
{
    if k < n {
        lemma_find_race_stable(rows, date, venue, rn, k + 1, n);
    }
}


// ------------------------------------------------------------------
// Stage three: the migration itself
// ------------------------------------------------------------------

impl Store {
    /// Stage three: splits every raw result row into one race row and six
    /// participant rows, merging metadata from the program record that shares
    /// its key, after verifying that the row counts will hold.  A second run
    /// is a no-op; any failed verification leaves the store untouched, raw
    /// results table included.  Only a clean pass drops the raw results
    /// table.
    pub fn migrate_to_v3(&mut self) -> (r: Result<(), StoreError>)
        requires
            old(self).wf(),
            old(self).races_created || old(self).results_v2,
            old(self).next_race_id + rows_of(*old(self)).len() <= i64::MAX,
            old(self).next_participant_id + 6 * rows_of(*old(self)).len() <= i64::MAX,
        ensures
            final(self).wf(),
            old(self).races_created ==> r is Ok && *final(self) == *old(self),
            r is Err ==> *final(self) == *old(self),
            !old(self).races_created ==> {
                &&& (r is Ok <==> all_migratable(rows_of(*old(self))))
                &&& (r == Err::<(), StoreError>(StoreError::Integrity) ==> exists|i: int|
                    0 <= i < rows_of(*old(self)).len() && !row_countable(
                        #[trigger] rows_of(*old(self))[i],
                    ))
                &&& (r == Err::<(), StoreError>(StoreError::Conflict) ==> exists|i: int|
                    0 <= i < rows_of(*old(self)).len() && row_countable(
                        #[trigger] rows_of(*old(self))[i],
                    ) && !boats_distinct(
                        spec_result_data(rows_of(*old(self))[i].record.payload).boats@,
                    ))
                &&& (r is Ok ==> {
                    let orows = rows_of(*old(self));
                    &&& final(self).races@.len() == orows.len()
                    &&& final(self).participants@.len() == 6 * orows.len()
                    &&& races_eqv(
                        final(self).races@,
                        spec_build_races(
                            orows,
                            old(self).programs@,
                            old(self).next_race_id as int,
                            orows.len() as int,
                        ),
                    )
                    &&& final(self).participants@ == spec_build_parts(
                        orows,
                        old(self).programs@,
                        old(self).next_race_id as int,
                        old(self).next_participant_id as int,
                        orows.len() as int,
                    )
                    &&& final(self).results is None
                    &&& final(self).races_created
                    &&& final(self).results_v2 == old(self).results_v2
                    &&& final(self).previews == old(self).previews
                    &&& final(self).programs == old(self).programs
                    &&& final(self).next_race_id == old(self).next_race_id + orows.len()
                    &&& final(self).next_participant_id == old(self).next_participant_id + 6
                        * orows.len()
                    &&& index_views(final(self).indexes@) == index_views(old(self).indexes@)
                        + v3_index_names()
                })
            },
    {
        if self.races_created {
            return Ok(());
        }
        match &self.results {
            Some(rows_ref) => {
                match check_migratable(rows_ref) {
                    Err(e) => {
                        return Err(e);
                    },
                    Ok(()) => {},
                }
            },
            None => {
                proof {
                    assert(false);
                }
                return Err(StoreError::Integrity);
            },
        }
        let mut rows_opt: Option<Vec<RawResultRow>> = None;
        core::mem::swap(&mut self.results, &mut rows_opt);
        let mut rows = match rows_opt {
            Some(r) => r,
            None => {
                proof {
                    assert(false);
                }
                Vec::new()
            },
        };
        let ghost orows = rows@;
        let ghost progs = self.programs@;
        let rid_base: i64 = self.next_race_id;
        let pid_base: i64 = self.next_participant_id;
        let ghost base = rid_base as int;
        let ghost pbase = pid_base as int;
        let n = rows.len();
        let mut races_new: Vec<RaceRecord> = Vec::new();
        let mut parts_new: Vec<RaceParticipantRecord> = Vec::new();
        let mut i: usize = 0;
        proof {
            assert(orows.skip(0) =~= orows);
        }
        while rows.len() > 0
            invariant
                i + rows@.len() == n,
                n == orows.len(),
                rows@ == orows.skip(i as int),
                all_migratable(orows),
                self.programs@ == progs,
                races_eqv(races_new@, spec_build_races(orows, progs, base, i as int)),
                parts_new@ == spec_build_parts(orows, progs, base, pbase, i as int),
                races_new@.len() == i,
                parts_new@.len() == 6 * i,
                base == rid_base as int,
                pbase == pid_base as int,
                0 < base,
                0 < pbase,
                base + n <= i64::MAX,
                pbase + 6 * n <= i64::MAX,
            decreases rows@.len(),
        {
            let row = rows.remove(0);
            proof {
                assert(row == orows.skip(i as int)[0]);
                assert(row == orows[i as int]);
                assert(rows@ =~= orows.skip(i as int + 1));
                assert(row_migratable(orows[i as int]));
            }
            let prog_idx = find_program_row(
                &self.programs,
                &row.record.date,
                &row.record.venue_code,
                row.record.race_number,
            );
            let ghost prog_rec = spec_program_at(
                progs,
                row.record.date@,
                row.record.venue_code@,
                row.record.race_number as int,
            );
            let mut grade: Option<i32> = None;
            let mut title: Option<String> = None;
            let mut subtitle: Option<String> = None;
            let mut distance: Option<i32> = None;
            let mut prog_payload: Option<ProgramPayload> = None;
            let mut prog_boats_idx: Option<usize> = None;
            match prog_idx {
                None => {
                    proof {
                        assert(prog_rec is None);
                        assert(spec_prog_data(prog_rec) is None);
                    }
                },
                Some(pi) => {
                    let pr = &self.programs[pi];
                    proof {
                        assert(prog_rec == Some(*pr));
                    }
                    prog_payload = Some(clone_program_payload(&pr.payload));
                    match &pr.payload {
                        ProgramPayload::Parsed(d) => {
                            grade = d.race_grade_number;
                            title = clone_opt_string(&d.race_title);
                            subtitle = clone_opt_string(&d.race_subtitle);
                            distance = d.race_distance;
                            prog_boats_idx = Some(pi);
                        },
                        ProgramPayload::Undecoded(_) => {
                            proof {
                                assert(spec_prog_data(prog_rec) is None);
                            }
                        },
                    }
                },
            }
            let race_id: i64 = rid_base + (i as i64);
            let data = match &row.record.payload {
                ResultPayload::Parsed(d) => d,
                ResultPayload::Undecoded(_) => {
                    proof {
                        assert(false);
                    }
                    return Err(StoreError::Integrity);
                },
            };
            proof {
                assert(*data == spec_result_data(row.record.payload));
                assert(data.boats@.len() == 6);
            }
            let win_p = first_payout(&data.payouts.win);
            let place_p = max_place_payout(&data.payouts.place);
            let exacta_p = first_payout(&data.payouts.exacta);
            let quinella_p = first_payout(&data.payouts.quinella);
            let trifecta_p = first_payout(&data.payouts.trifecta);
            let trio_p = first_payout(&data.payouts.trio);
            let (winner_boat, winner_racer) = find_winner(&data.boats);
            let race_wind = data.race_wind;
            let race_wind_direction_number = data.race_wind_direction_number;
            let race_wave = data.race_wave;
            let race_weather_number = data.race_weather_number;
            let race_temperature = data.race_temperature;
            let race_water_temperature = data.race_water_temperature;
            let race_technique_number = data.race_technique_number;
            let ghost parts_before = parts_new@;
            let mut j: usize = 0;
            while j < 6
                invariant
                    j <= 6,
                    data == spec_result_data(orows[i as int].record.payload),
                    data.boats@.len() == 6,
                    i < n,
                    n == orows.len(),
                    all_migratable(orows),
                    self.programs@ == progs,
                    prog_rec == spec_program_at(
                        progs,
                        orows[i as int].record.date@,
                        orows[i as int].record.venue_code@,
                        orows[i as int].record.race_number as int,
                    ),
                    match prog_boats_idx {
                        Some(pi) => pi < progs.len() && prog_rec == Some(progs[pi as int])
                            && progs[pi as int].payload is Parsed,
                        None => spec_prog_data(prog_rec) is None,
                    },
                    race_id as int == base + i,
                    parts_before == spec_build_parts(orows, progs, base, pbase, i as int),
                    parts_before.len() == 6 * i,
                    parts_new@ == parts_before + Seq::new(
                        j as nat,
                        |jj: int|
                            spec_participant_from(
                                data.boats@[jj],
                                spec_prog_boat_for(
                                    spec_prog_data(prog_rec),
                                    data.boats@[jj].racer_boat_number,
                                ),
                                base + i,
                                pbase + 6 * (i as int) + jj,
                                orows[i as int].record.created_at,
                                orows[i as int].record.updated_at,
                            ),
                    ),
                    base == rid_base as int,
                    pbase == pid_base as int,
                    0 < base,
                    0 < pbase,
                    base + n <= i64::MAX,
                    pbase + 6 * n <= i64::MAX,
                    row.record == orows[i as int].record,
                decreases 6 - j,
            {
                let boat = &data.boats[j];
                let pbr: Option<&ProgramRacerInfo> = match prog_boats_idx {
                    Some(pi) => {
                        match &self.programs[pi].payload {
                            ProgramPayload::Parsed(d) => {
                                match find_prog_boat(&d.boats, boat.racer_boat_number) {
                                    Some(k) => Some(&d.boats[k]),
                                    None => None,
                                }
                            },
                            ProgramPayload::Undecoded(_) => {
                                proof {
                                    assert(false);
                                }
                                None
                            },
                        }
                    },
                    None => None,
                };
                proof {
                    assert((match pbr {
                        Some(r) => Some(*r),
                        None => None,
                    }) == spec_prog_boat_for(
                        spec_prog_data(prog_rec),
                        data.boats@[j as int].racer_boat_number,
                    ));
                }
                let pid: i64 = pid_base + (6 * (i as i64)) + (j as i64);
                let part = build_participant(
                    boat,
                    pbr,
                    race_id,
                    pid,
                    &row.record.created_at,
                    &row.record.updated_at,
                );
                parts_new.push(part);
                proof {
                    assert(parts_new@ =~= parts_before + Seq::new(
                        (j + 1) as nat,
                        |jj: int|
                            spec_participant_from(
                                data.boats@[jj],
                                spec_prog_boat_for(
                                    spec_prog_data(prog_rec),
                                    data.boats@[jj].racer_boat_number,
                                ),
                                base + i,
                                pbase + 6 * (i as int) + jj,
                                orows[i as int].record.created_at,
                                orows[i as int].record.updated_at,
                            ),
                    ));
                }
                j = j + 1;
            }
            proof {
                assert(Seq::new(
                    6,
                    |jj: int|
                        spec_participant_from(
                            data.boats@[jj],
                            spec_prog_boat_for(
                                spec_prog_data(prog_rec),
                                data.boats@[jj].racer_boat_number,
                            ),
                            base + i,
                            pbase + 6 * (i as int) + jj,
                            orows[i as int].record.created_at,
                            orows[i as int].record.updated_at,
                        ),
                ) =~= spec_parts_for_row(orows[i as int], prog_rec, base + i, pbase + 6 * (
                i as int)));
                assert(parts_new@ == spec_build_parts(orows, progs, base, pbase, i as int + 1));
            }
            let race = RaceRecord {
                id: race_id,
                race_date: row.record.date,
                venue_code: row.record.venue_code,
                race_number: row.record.race_number,
                race_wind,
                race_wind_direction_number,
                race_wave,
                race_weather_number,
                race_temperature,
                race_water_temperature,
                race_technique_number,
                win_payout: win_p,
                place_payout_max: place_p,
                exacta_payout: exacta_p,
                quinella_payout: quinella_p,
                trifecta_payout: trifecta_p,
                trio_payout: trio_p,
                winner_boat_number: winner_boat,
                winner_racer_number: winner_racer,
                race_grade_number: grade,
                race_title: title,
                race_subtitle: subtitle,
                race_distance: distance,
                result_payload: Some(row.record.payload),
                program_payload: prog_payload,
                created_at: row.record.created_at,
                updated_at: row.record.updated_at,
            };
            proof {
                let expected = spec_race_from_row(orows[i as int].record, prog_rec, base + i);
                assert(race_eqv(race, expected));
                assert(races_eqv(
                    races_new@.push(race),
                    spec_build_races(orows, progs, base, i as int + 1),
                )) by {
                    lemma_build_races_len(orows, progs, base, i as int);
                    assert(spec_build_races(orows, progs, base, i as int + 1)
                        == spec_build_races(orows, progs, base, i as int).push(expected));
                    assert(forall|q: int|
                        0 <= q < races_new@.len() ==> race_eqv(
                            #[trigger] races_new@.push(race)[q],
                            spec_build_races(orows, progs, base, i as int + 1)[q],
                        ));
                }
            }
            races_new.push(race);
            i = i + 1;
        }
        proof {
            assert(i == n);
            assert(orows.skip(n as int) =~= Seq::<RawResultRow>::empty());
        }
        self.races = races_new;
        self.participants = parts_new;
        self.races_created = true;
        self.next_race_id = rid_base + (n as i64);
        self.next_participant_id = pid_base + (6 * (n as i64));
        self.indexes.push(String::from_str("idx_races_date"));
        self.indexes.push(String::from_str("idx_races_venue"));
        self.indexes.push(String::from_str("idx_races_date_venue"));
        self.indexes.push(String::from_str("idx_races_trifecta_payout"));
        self.indexes.push(String::from_str("idx_races_win_payout"));
        self.indexes.push(String::from_str("idx_races_exacta_payout"));
        self.indexes.push(String::from_str("idx_races_wind"));
        self.indexes.push(String::from_str("idx_races_wave"));
        self.indexes.push(String::from_str("idx_races_winner_boat"));
        self.indexes.push(String::from_str("idx_races_winner_racer"));
        self.indexes.push(String::from_str("idx_races_grade"));
        self.indexes.push(String::from_str("idx_participants_race_id"));
        self.indexes.push(String::from_str("idx_participants_racer_number"));
        self.indexes.push(String::from_str("idx_participants_racer_name"));
        self.indexes.push(String::from_str("idx_participants_class"));
        self.indexes.push(String::from_str("idx_participants_branch"));
        self.indexes.push(String::from_str("idx_participants_place"));
        self.indexes.push(String::from_str("idx_participants_boat"));
        self.indexes.push(String::from_str("idx_participants_course"));
        self.indexes.push(String::from_str("idx_participants_class_place"));
        self.indexes.push(String::from_str("idx_participants_racer_place"));
        proof {
            assert(index_views(self.indexes@) =~= index_views(old(self).indexes@)
                + v3_index_names());
            lemma_v3_wf(
                orows,
                progs,
                base,
                pbase,
                self.races@,
                self.participants@,
            );
        }
        Ok(())
    }
}

/// The normalized rows stage three builds satisfy the store invariant's
/// uniqueness conditions.
proof fn lemma_v3_wf(
    orows: Seq<RawResultRow>,
    progs: Seq<ProgramRecord>,
    base: int,
    pbase: int,
    races: Seq<RaceRecord>,
    parts: Seq<RaceParticipantRecord>,
)
    requires
        results_unique(orows),
        all_migratable(orows),
        0 < base,
        0 < pbase,
        base + orows.len() <= i64::MAX,
        pbase + 6 * orows.len() <= i64::MAX,
        races_eqv(races, spec_build_races(orows, progs, base, orows.len() as int)),
        parts == spec_build_parts(orows, progs, base, pbase, orows.len() as int),
    ensures
        races_unique(races),
        participants_unique(parts),
        forall|i: int| 0 <= i < races.len() ==> 0 <= (#[trigger] races[i]).id < base + orows.len(),
        forall|i: int|
            0 <= i < parts.len() ==> 0 <= (#[trigger] parts[i]).id < pbase + 6 * orows.len(),
        parts.len() == 6 * orows.len(),
{
    let n = orows.len() as int;
    lemma_build_races_len(orows, progs, base, n);
    lemma_build_parts_len(orows, progs, base, pbase, n);
    assert forall|i: int| 0 <= i < races.len() implies 0 <= (#[trigger] races[i]).id < base
        + orows.len() by {
        lemma_build_races_index(orows, progs, base, n, i);
    }
    assert forall|i: int, j: int|
        0 <= i < j < races.len() implies !same_key(
        (#[trigger] races[i]).race_date@,
        races[i].venue_code@,
        races[i].race_number as int,
        (#[trigger] races[j]).race_date@,
        races[j].venue_code@,
        races[j].race_number as int,
    ) && races[i].id != races[j].id by {
        lemma_build_races_index(orows, progs, base, n, i);
        lemma_build_races_index(orows, progs, base, n, j);
    }
    assert forall|i: int|
        0 <= i < parts.len() implies 0 <= (#[trigger] parts[i]).id < pbase + 6 * orows.len() by {
        lemma_part_position(orows, progs, base, pbase, i);
    }
    assert forall|k1: int, k2: int|
        0 <= k1 < k2 < parts.len() implies !((#[trigger] parts[k1]).race_id == (
    #[trigger] parts[k2]).race_id && parts[k1].boat_number == parts[k2].boat_number) by {
        lemma_part_position(orows, progs, base, pbase, k1);
        lemma_part_position(orows, progs, base, pbase, k2);
        let q1 = k1 / 6;
        let j1 = k1 % 6;
        let q2 = k2 / 6;
        let j2 = k2 % 6;
        if q1 == q2 {
            assert(j1 != j2);
            let row = orows[q1];
            assert(row_migratable(row));
            let boats = spec_result_data(row.record.payload).boats;
            if j1 < j2 {
                assert(boats@[j1].racer_boat_number != boats@[j2].racer_boat_number);
            } else {
                assert(boats@[j2].racer_boat_number != boats@[j1].racer_boat_number);
            }
        }
    }
}

/// Characterizes the position of one built participant row: its race id,
/// boat number and id in terms of its row and boat indices.
proof fn lemma_part_position(
    orows: Seq<RawResultRow>,
    progs: Seq<ProgramRecord>,
    base: int,
    pbase: int,
    k: int,
)
    requires
        all_migratable(orows),
        0 <= k < 6 * orows.len(),
        0 < pbase,
        pbase + 6 * orows.len() <= i64::MAX,
        0 < base,
        base + orows.len() <= i64::MAX,
    ensures
        spec_build_parts(orows, progs, base, pbase, orows.len() as int).len() == 6 * orows.len(),
        0 <= k / 6 < orows.len(),
        0 <= k % 6 < 6,
        k == 6 * (k / 6) + (k % 6),
        spec_build_parts(orows, progs, base, pbase, orows.len() as int)[k].race_id == base + k / 6,
        spec_build_parts(orows, progs, base, pbase, orows.len() as int)[k].id == pbase + k,
        spec_build_parts(orows, progs, base, pbase, orows.len() as int)[k].boat_number
            == spec_result_data(orows[k / 6].record.payload).boats@[k % 6].racer_boat_number,
{
    let n = orows.len() as int;
    lemma_build_parts_len(orows, progs, base, pbase, n);
    vstd::arithmetic::div_mod::lemma_fundamental_div_mod(k, 6);
    assert(0 <= k / 6 < n) by (nonlinear_arith)
        requires
            0 <= k < 6 * n,
            k == 6 * (k / 6) + (k % 6),
            0 <= k % 6 < 6,
    ;
    let q = k / 6;
    let j = k % 6;
    lemma_build_parts_index(orows, progs, base, pbase, n, q, j);
    let row = orows[q];
    assert(row_migratable(row));
}


// ------------------------------------------------------------------
// Running the migrations, and the migrated store
// ------------------------------------------------------------------

proof fn lemma_build_records_only(
    a: Seq<RawResultRow>,
    b: Seq<RawResultRow>,
    progs: Seq<ProgramRecord>,
    base: int,
    pbase: int,
    k: int,
)
    requires
        0 <= k <= a.len(),
        a.len() == b.len(),
        forall|i: int| 0 <= i < a.len() ==> (#[trigger] a[i]).record == (#[trigger] b[i]).record,
    ensures
        spec_build_races(a, progs, base, k) == spec_build_races(b, progs, base, k),
        spec_build_parts(a, progs, base, pbase, k) == spec_build_parts(b, progs, base, pbase, k),
    decreases k,
{
    if k > 0 {
        lemma_build_records_only(a, b, progs, base, pbase, k - 1);
        if k <= a.len() {
            assert(a[k - 1].record == b[k - 1].record);
            assert(spec_parts_for_row(
                a[k - 1],
                spec_program_at(
                    progs,
                    a[k - 1].record.date@,
                    a[k - 1].record.venue_code@,
                    a[k - 1].record.race_number as int,
                ),
                base + (k - 1),
                pbase + 6 * (k - 1),
            ) =~= spec_parts_for_row(
                b[k - 1],
                spec_program_at(
                    progs,
                    b[k - 1].record.date@,
                    b[k - 1].record.venue_code@,
                    b[k - 1].record.race_number as int,
                ),
                base + (k - 1),
                pbase + 6 * (k - 1),
            ));
        }
    }
}

impl Store {
    /// Runs the migration stages in order: stage two (derived columns on the
    /// raw results table), then stage three (the normalized schema).  Each
    /// stage is gated, so a run over an already-migrated store changes
    /// nothing; a failed stage-three verification leaves the raw table (and
    /// everything else) exactly as stage two left it.
    pub fn run_migrations(&mut self) -> (r: Result<(), StoreError>)
        requires
            old(self).wf(),
            old(self).next_race_id + rows_of(*old(self)).len() <= i64::MAX,
            old(self).next_participant_id + 6 * rows_of(*old(self)).len() <= i64::MAX,
        ensures
            final(self).wf(),
            r is Ok <==> old(self).races_created || all_migratable(rows_of(*old(self))),
            r is Ok ==> final(self).races_created && final(self).results_v2,
            old(self).races_created && old(self).results_v2 ==> r is Ok && *final(self) == *old(
                self,
            ),
            final(self).previews == old(self).previews,
            final(self).programs == old(self).programs,
            !old(self).races_created && r is Ok ==> {
                let orows = rows_of(*old(self));
                &&& final(self).races@.len() == orows.len()
                &&& final(self).participants@.len() == 6 * orows.len()
                &&& races_eqv(
                    final(self).races@,
                    spec_build_races(
                        orows,
                        old(self).programs@,
                        old(self).next_race_id as int,
                        orows.len() as int,
                    ),
                )
                &&& final(self).participants@ == spec_build_parts(
                    orows,
                    old(self).programs@,
                    old(self).next_race_id as int,
                    old(self).next_participant_id as int,
                    orows.len() as int,
                )
                &&& final(self).results is None
            },
            !old(self).races_created && r is Err ==> {
                &&& !final(self).races_created
                &&& final(self).races == old(self).races
                &&& final(self).participants == old(self).participants
                &&& final(self).results_v2
                &&& rows_of(*final(self)).len() == rows_of(*old(self)).len()
                &&& (forall|i: int|
                    0 <= i < rows_of(*final(self)).len() ==> (#[trigger] rows_of(
                        *final(self),
                    )[i]).record == rows_of(*old(self))[i].record)
            },
    {
        let ghost orows = rows_of(*old(self));
        self.migrate_to_v2();
        proof {
            if !old(self).results_v2 {
                assert(rows_of(*self).len() == orows.len());
                assert(forall|i: int|
                    0 <= i < orows.len() ==> (#[trigger] rows_of(*self)[i]).record
                        == orows[i].record);
            }
        }
        let ghost mid = *self;
        let r = self.migrate_to_v3();
        proof {
            if !mid.races_created {
                assert forall|i: int|
                    0 <= i < orows.len() implies row_migratable(#[trigger] rows_of(mid)[i])
                    == row_migratable(orows[i]) by {
                    assert(rows_of(mid)[i].record == orows[i].record);
                }
                assert(all_migratable(rows_of(mid)) == all_migratable(orows)) by {
                    if all_migratable(rows_of(mid)) {
                        assert forall|i: int|
                            0 <= i < orows.len() implies row_migratable(#[trigger] orows[i]) by {
                            assert(row_migratable(rows_of(mid)[i]));
                        }
                    }
                    if all_migratable(orows) {
                        assert forall|i: int|
                            0 <= i < rows_of(mid).len() implies row_migratable(
                            #[trigger] rows_of(mid)[i]) by {
                            assert(row_migratable(orows[i]));
                        }
                    }
                }
                if r is Ok {
                    lemma_build_records_only(
                        rows_of(mid),
                        orows,
                        mid.programs@,
                        mid.next_race_id as int,
                        mid.next_participant_id as int,
                        orows.len() as int,
                    );
                }
            }
        }
        r
    }

    /// A freshly opened store: tables created and both migration stages run
    /// (trivially, over no rows).
    pub fn new() -> (s: Store)
        ensures
            s.wf(),
            s.races_created,
            s.results_v2,
            s.results is None,
            s.previews@.len() == 0,
            s.programs@.len() == 0,
            s.races@.len() == 0,
            s.participants@.len() == 0,
    {
        let mut s = Store::empty();
        let r = s.run_migrations();
        proof {
            assert(all_migratable(rows_of(s)));
            assert(r is Ok);
        }
        s
    }
}

// ------------------------------------------------------------------
// Seeding the raw tables (upsert on key conflict)
// ------------------------------------------------------------------

proof fn lemma_find_result_none(
    rows: Seq<RawResultRow>,
    date: Seq<char>,
    venue: Seq<char>,
    rn: int,
    k: int,
)
    requires
        spec_find_result(rows, date, venue, rn, k) is None,
        k <= rows.len(),
    ensures
        forall|j: int|
            0 <= j < k ==> !same_key(
                (#[trigger] rows[j]).record.date@,
                rows[j].record.venue_code@,
                rows[j].record.race_number as int,
                date,
                venue,
                rn,
            ),
    decreases k,
{
    if k > 0 {
        lemma_find_result_none(rows, date, venue, rn, k - 1);
    }
}

proof fn lemma_find_program_none(
    rows: Seq<ProgramRecord>,
    date: Seq<char>,
    venue: Seq<char>,
    rn: int,
    k: int,
)
    requires
        spec_find_program(rows, date, venue, rn, k) is None,
        k <= rows.len(),
    ensures
        forall|j: int|
            0 <= j < k ==> !same_key(
                (#[trigger] rows[j]).date@,
                rows[j].venue_code@,
                rows[j].race_number as int,
                date,
                venue,
                rn,
            ),
    decreases k,
{
    if k > 0 {
        lemma_find_program_none(rows, date, venue, rn, k - 1);
    }
}

proof fn lemma_find_preview_none(
    rows: Seq<PreviewRecord>,
    date: Seq<char>,
    venue: Seq<char>,
    rn: int,
    k: int,
)
    requires
        spec_find_preview(rows, date, venue, rn, k) is None,
        k <= rows.len(),
    ensures
        forall|j: int|
            0 <= j < k ==> !same_key(
                (#[trigger] rows[j]).date@,
                rows[j].venue_code@,
                rows[j].race_number as int,
                date,
                venue,
                rn,
            ),
    decreases k,
{
    if k > 0 {
        lemma_find_preview_none(rows, date, venue, rn, k - 1);
    }
}

impl Store {
    /// Upserts one raw result record into the (pre-migration) results table:
    /// a record with the same key has its payload and update time replaced,
    /// a new key is appended with a fresh id and absent derived columns.
    pub fn insert_raw_result(&mut self, rec: ResultRecord)
        requires
            old(self).wf(),
            !old(self).results_v2,
            old(self).results is Some,
            old(self).next_raw_id < i64::MAX,
        ensures
            final(self).wf(),
            final(self).previews == old(self).previews,
            final(self).programs == old(self).programs,
            final(self).races == old(self).races,
            final(self).participants == old(self).participants,
            final(self).results_v2 == old(self).results_v2,
            final(self).races_created == old(self).races_created,
            final(self).indexes == old(self).indexes,
            final(self).next_race_id == old(self).next_race_id,
            final(self).next_participant_id == old(self).next_participant_id,
            match (final(self).results, old(self).results) {
                (Some(newrows), Some(orows)) => {
                    match spec_find_result(
                        orows@,
                        rec.date@,
                        rec.venue_code@,
                        rec.race_number as int,
                        orows@.len() as int,
                    ) {
                        Some(i) => newrows@ == orows@.update(
                            i,
                            RawResultRow {
                                record: ResultRecord {
                                    id: orows@[i].record.id,
                                    date: orows@[i].record.date,
                                    venue_code: orows@[i].record.venue_code,
                                    race_number: orows@[i].record.race_number,
                                    payload: rec.payload,
                                    created_at: orows@[i].record.created_at,
                                    updated_at: rec.updated_at,
                                },
                                derived: orows@[i].derived,
                            },
                        ) && final(self).next_raw_id == old(self).next_raw_id,
                        None => newrows@ == orows@.push(
                            RawResultRow {
                                record: ResultRecord {
                                    id: old(self).next_raw_id,
                                    date: rec.date,
                                    venue_code: rec.venue_code,
                                    race_number: rec.race_number,
                                    payload: rec.payload,
                                    created_at: rec.created_at,
                                    updated_at: rec.updated_at,
                                },
                                derived: None,
                            },
                        ) && final(self).next_raw_id == old(self).next_raw_id + 1,
                    }
                },
                _ => false,
            },
    {
        let mut rows_opt: Option<Vec<RawResultRow>> = None;
        core::mem::swap(&mut self.results, &mut rows_opt);
        let mut rows = match rows_opt {
            Some(r) => r,
            None => {
                proof {
                    assert(false);
                }
                Vec::new()
            },
        };
        let ghost orows = rows@;
        let found = find_result_row(&rows, &rec.date, &rec.venue_code, rec.race_number);
        match found {
            Some(i) => {
                let mut tmp = RawResultRow {
                    record: ResultRecord {
                        id: 0,
                        date: String::new(),
                        venue_code: String::new(),
                        race_number: 0,
                        payload: ResultPayload::Undecoded(String::new()),
                        created_at: String::new(),
                        updated_at: String::new(),
                    },
                    derived: None,
                };
                rows.set_and_swap(i, &mut tmp);
                let updated = RawResultRow {
                    record: ResultRecord {
                        id: tmp.record.id,
                        date: tmp.record.date,
                        venue_code: tmp.record.venue_code,
                        race_number: tmp.record.race_number,
                        payload: rec.payload,
                        created_at: tmp.record.created_at,
                        updated_at: rec.updated_at,
                    },
                    derived: tmp.derived,
                };
                rows.set(i, updated);
                proof {
                    assert(rows@ =~= orows.update(
                        i as int,
                        RawResultRow {
                            record: ResultRecord {
                                id: orows[i as int].record.id,
                                date: orows[i as int].record.date,
                                venue_code: orows[i as int].record.venue_code,
                                race_number: orows[i as int].record.race_number,
                                payload: rec.payload,
                                created_at: orows[i as int].record.created_at,
                                updated_at: rec.updated_at,
                            },
                            derived: orows[i as int].derived,
                        },
                    ));
                }
            },
            None => {
                let id = self.next_raw_id;
                self.next_raw_id = self.next_raw_id + 1;
                rows.push(
                    RawResultRow {
                        record: ResultRecord {
                            id,
                            date: rec.date,
                            venue_code: rec.venue_code,
                            race_number: rec.race_number,
                            payload: rec.payload,
                            created_at: rec.created_at,
                            updated_at: rec.updated_at,
                        },
                        derived: None,
                    },
                );
                proof {
                    lemma_find_result_none(
                        orows,
                        rec.date@,
                        rec.venue_code@,
                        rec.race_number as int,
                        orows.len() as int,
                    );
                }
            },
        }
        self.results = Some(rows);
    }

    /// Upserts one raw program record into the programs table: a record with
    /// the same key has its payload and update time replaced, a new key is
    /// appended with a fresh id.
    pub fn insert_raw_program(&mut self, rec: ProgramRecord)
        requires
            old(self).wf(),
            old(self).next_raw_id < i64::MAX,
        ensures
            final(self).wf(),
            final(self).previews == old(self).previews,
            final(self).results == old(self).results,
            final(self).races == old(self).races,
            final(self).participants == old(self).participants,
            final(self).results_v2 == old(self).results_v2,
            final(self).races_created == old(self).races_created,
            final(self).indexes == old(self).indexes,
            match spec_find_program(
                old(self).programs@,
                rec.date@,
                rec.venue_code@,
                rec.race_number as int,
                old(self).programs@.len() as int,
            ) {
                Some(i) => final(self).programs@ == old(self).programs@.update(
                    i,
                    ProgramRecord {
                        id: old(self).programs@[i].id,
                        date: old(self).programs@[i].date,
                        venue_code: old(self).programs@[i].venue_code,
                        race_number: old(self).programs@[i].race_number,
                        payload: rec.payload,
                        created_at: old(self).programs@[i].created_at,
                        updated_at: rec.updated_at,
                    },
                ) && final(self).next_raw_id == old(self).next_raw_id,
                None => final(self).programs@ == old(self).programs@.push(
                    ProgramRecord {
                        id: old(self).next_raw_id,
                        date: rec.date,
                        venue_code: rec.venue_code,
                        race_number: rec.race_number,
                        payload: rec.payload,
                        created_at: rec.created_at,
                        updated_at: rec.updated_at,
                    },
                ) && final(self).next_raw_id == old(self).next_raw_id + 1,
            },
    {
        let ghost orows = self.programs@;
        let found = find_program_row(&self.programs, &rec.date, &rec.venue_code, rec.race_number);
        match found {
            Some(i) => {
                let mut tmp = ProgramRecord {
                    id: 0,
                    date: String::new(),
                    venue_code: String::new(),
                    race_number: 0,
                    payload: ProgramPayload::Undecoded(String::new()),
                    created_at: String::new(),
                    updated_at: String::new(),
                };
                self.programs.set_and_swap(i, &mut tmp);
                let updated = ProgramRecord {
                    id: tmp.id,
                    date: tmp.date,
                    venue_code: tmp.venue_code,
                    race_number: tmp.race_number,
                    payload: rec.payload,
                    created_at: tmp.created_at,
                    updated_at: rec.updated_at,
                };
                self.programs.set(i, updated);
                proof {
                    assert(self.programs@ =~= orows.update(
                        i as int,
                        ProgramRecord {
                            id: orows[i as int].id,
                            date: orows[i as int].date,
                            venue_code: orows[i as int].venue_code,
                            race_number: orows[i as int].race_number,
                            payload: rec.payload,
                            created_at: orows[i as int].created_at,
                            updated_at: rec.updated_at,
                        },
                    ));
                }
            },
            None => {
                let id = self.next_raw_id;
                self.next_raw_id = self.next_raw_id + 1;
                self.programs.push(
                    ProgramRecord {
                        id,
                        date: rec.date,
                        venue_code: rec.venue_code,
                        race_number: rec.race_number,
                        payload: rec.payload,
                        created_at: rec.created_at,
                        updated_at: rec.updated_at,
                    },
                );
                proof {
                    lemma_find_program_none(
                        orows,
                        rec.date@,
                        rec.venue_code@,
                        rec.race_number as int,
                        orows.len() as int,
                    );
                }
            },
        }
    }

    /// Upserts one preview record: a record with the same key has its payload
    /// and update time replaced, a new key is appended with a fresh id.
    pub fn save_preview(&mut self, rec: PreviewRecord)
        requires
            old(self).wf(),
            old(self).next_raw_id < i64::MAX,
        ensures
            final(self).wf(),
            final(self).results == old(self).results,
            final(self).programs == old(self).programs,
            final(self).races == old(self).races,
            final(self).participants == old(self).participants,
            final(self).results_v2 == old(self).results_v2,
            final(self).races_created == old(self).races_created,
            final(self).indexes == old(self).indexes,
            match spec_find_preview(
                old(self).previews@,
                rec.date@,
                rec.venue_code@,
                rec.race_number as int,
                old(self).previews@.len() as int,
            ) {
                Some(i) => final(self).previews@ == old(self).previews@.update(
                    i,
                    PreviewRecord {
                        id: old(self).previews@[i].id,
                        date: old(self).previews@[i].date,
                        venue_code: old(self).previews@[i].venue_code,
                        race_number: old(self).previews@[i].race_number,
                        payload: rec.payload,
                        created_at: old(self).previews@[i].created_at,
                        updated_at: rec.updated_at,
                    },
                ) && final(self).next_raw_id == old(self).next_raw_id,
                None => final(self).previews@ == old(self).previews@.push(
                    PreviewRecord {
                        id: old(self).next_raw_id,
                        date: rec.date,
                        venue_code: rec.venue_code,
                        race_number: rec.race_number,
                        payload: rec.payload,
                        created_at: rec.created_at,
                        updated_at: rec.updated_at,
                    },
                ) && final(self).next_raw_id == old(self).next_raw_id + 1,
            },
    {
        let ghost orows = self.previews@;
        let found = find_preview_row(&self.previews, &rec.date, &rec.venue_code, rec.race_number);
        match found {
            Some(i) => {
                let mut tmp = PreviewRecord {
                    id: 0,
                    date: String::new(),
                    venue_code: String::new(),
                    race_number: 0,
                    payload: crate::records::PreviewPayload::Undecoded(String::new()),
                    created_at: String::new(),
                    updated_at: String::new(),
                };
                self.previews.set_and_swap(i, &mut tmp);
                let updated = PreviewRecord {
                    id: tmp.id,
                    date: tmp.date,
                    venue_code: tmp.venue_code,
                    race_number: tmp.race_number,
                    payload: rec.payload,
                    created_at: tmp.created_at,
                    updated_at: rec.updated_at,
                };
                self.previews.set(i, updated);
                proof {
                    assert(self.previews@ =~= orows.update(
                        i as int,
                        PreviewRecord {
                            id: orows[i as int].id,
                            date: orows[i as int].date,
                            venue_code: orows[i as int].venue_code,
                            race_number: orows[i as int].race_number,
                            payload: rec.payload,
                            created_at: orows[i as int].created_at,
                            updated_at: rec.updated_at,
                        },
                    ));
                }
            },
            None => {
                let id = self.next_raw_id;
                self.next_raw_id = self.next_raw_id + 1;
                self.previews.push(
                    PreviewRecord {
                        id,
                        date: rec.date,
                        venue_code: rec.venue_code,
                        race_number: rec.race_number,
                        payload: rec.payload,
                        created_at: rec.created_at,
                        updated_at: rec.updated_at,
                    },
                );
                proof {
                    lemma_find_preview_none(
                        orows,
                        rec.date@,
                        rec.venue_code@,
                        rec.race_number as int,
                        orows.len() as int,
                    );
                }
            },
        }
    }
}


// ------------------------------------------------------------------
// Copies of normalized rows
// ------------------------------------------------------------------

/// Copies one participant row, yielding an equal value.
pub fn clone_participant(v: &RaceParticipantRecord) -> (r: RaceParticipantRecord)
    ensures
        r == *v,
{
    RaceParticipantRecord {
        id: v.id,
        race_id: v.race_id,
        boat_number: v.boat_number,
        racer_number: v.racer_number,
        racer_name: clone_opt_string(&v.racer_name),
        racer_class_number: v.racer_class_number,
        racer_branch_number: v.racer_branch_number,
        racer_birthplace_number: v.racer_birthplace_number,
        racer_age: v.racer_age,
        racer_weight: v.racer_weight,
        course_number: v.course_number,
        start_timing: v.start_timing,
        entry_number: v.entry_number,
        place_number: v.place_number,
        decision_hand: clone_opt_string(&v.decision_hand),
        flying_count: v.flying_count,
        late_count: v.late_count,
        average_start_timing: v.average_start_timing,
        national_top_1_percent: v.national_top_1_percent,
        national_top_2_percent: v.national_top_2_percent,
        national_top_3_percent: v.national_top_3_percent,
        local_top_1_percent: v.local_top_1_percent,
        local_top_2_percent: v.local_top_2_percent,
        local_top_3_percent: v.local_top_3_percent,
        assigned_motor_number: v.assigned_motor_number,
        assigned_motor_top_2_percent: v.assigned_motor_top_2_percent,
        assigned_motor_top_3_percent: v.assigned_motor_top_3_percent,
        assigned_boat_number: v.assigned_boat_number,
        assigned_boat_top_2_percent: v.assigned_boat_top_2_percent,
        assigned_boat_top_3_percent: v.assigned_boat_top_3_percent,
        created_at: v.created_at.clone(),
        updated_at: v.updated_at.clone(),
    }
}

/// Copies one race row; the retained payloads are copied element for
/// element.
pub fn clone_race_record(v: &RaceRecord) -> (r: RaceRecord)
    ensures
        race_eqv(r, *v),
{
    RaceRecord {
        id: v.id,
        race_date: v.race_date.clone(),
        venue_code: v.venue_code.clone(),
        race_number: v.race_number,
        race_wind: v.race_wind,
        race_wind_direction_number: v.race_wind_direction_number,
        race_wave: v.race_wave,
        race_weather_number: v.race_weather_number,
        race_temperature: v.race_temperature,
        race_water_temperature: v.race_water_temperature,
        race_technique_number: v.race_technique_number,
        win_payout: v.win_payout,
        place_payout_max: v.place_payout_max,
        exacta_payout: v.exacta_payout,
        quinella_payout: v.quinella_payout,
        trifecta_payout: v.trifecta_payout,
        trio_payout: v.trio_payout,
        winner_boat_number: v.winner_boat_number,
        winner_racer_number: v.winner_racer_number,
        race_grade_number: v.race_grade_number,
        race_title: clone_opt_string(&v.race_title),
        race_subtitle: clone_opt_string(&v.race_subtitle),
        race_distance: v.race_distance,
        result_payload: clone_opt_result_payload(&v.result_payload),
        program_payload: clone_opt_program_payload(&v.program_payload),
        created_at: v.created_at.clone(),
        updated_at: v.updated_at.clone(),
    }
}


// ------------------------------------------------------------------
// Result upserts after migration
// ------------------------------------------------------------------

/// The first participant row (before `k`) of the race carrying the boat
/// number.
pub open spec fn spec_find_part(
    ps: Seq<RaceParticipantRecord>,
    race_id: i64,
    boat: i32,
    k: int,
) -> Option<int>
    decreases k,
{
    if k <= 0 {
        None
    } else {
        match spec_find_part(ps, race_id, boat, k - 1) {
            Some(i) => Some(i),
            None => if ps[k - 1].race_id == race_id && ps[k - 1].boat_number == boat {
                Some(k - 1)
            } else {
                None
            },
        }
    }
}

/// A race row after a result upsert hit its key: readings, payouts, winner,
/// the retained result payload and the update time are replaced; the key,
/// the program-derived columns and the creation time stay.
pub open spec fn spec_result_race_update(old_race: RaceRecord, rec: ResultRecord) -> RaceRecord {
    let data = spec_result_data(rec.payload);
    RaceRecord {
        race_wind: data.race_wind,
        race_wind_direction_number: data.race_wind_direction_number,
        race_wave: data.race_wave,
        race_weather_number: data.race_weather_number,
        race_temperature: data.race_temperature,
        race_water_temperature: data.race_water_temperature,
        race_technique_number: data.race_technique_number,
        win_payout: spec_first_payout(data.payouts.win),
        place_payout_max: spec_max_place_payout(data.payouts.place),
        exacta_payout: spec_first_payout(data.payouts.exacta),
        quinella_payout: spec_first_payout(data.payouts.quinella),
        trifecta_payout: spec_first_payout(data.payouts.trifecta),
        trio_payout: spec_first_payout(data.payouts.trio),
        winner_boat_number: spec_winner_boat(data.boats@),
        winner_racer_number: spec_winner_racer(data.boats@),
        result_payload: Some(rec.payload),
        updated_at: rec.updated_at,
        ..old_race
    }
}

/// A participant row after a result upsert hit its (race, boat) key: the
/// racer identity, start data, finish and update time are replaced; the
/// program-derived columns and the creation time stay.
pub open spec fn spec_part_merge(
    old_p: RaceParticipantRecord,
    boat: ResultRacerInfo,
    updated: String,
) -> RaceParticipantRecord {
    RaceParticipantRecord {
        racer_number: boat.racer_number,
        racer_name: boat.racer_name,
        course_number: boat.racer_course_number,
        start_timing: boat.racer_start_timing,
        place_number: boat.racer_place_number,
        updated_at: updated,
        ..old_p
    }
}

/// The participant table after upserting the first `k` boats of a result
/// payload for one race, with the next fresh id.
pub open spec fn spec_upsert_parts(
    ps: Seq<RaceParticipantRecord>,
    race_id: i64,
    boats: Seq<ResultRacerInfo>,
    created: String,
    updated: String,
    pid: int,
    k: int,
) -> (Seq<RaceParticipantRecord>, int)
    decreases k,
{
    if k <= 0 {
        (ps, pid)
    } else {
        let prev = spec_upsert_parts(ps, race_id, boats, created, updated, pid, k - 1);
        let b = boats[k - 1];
        match spec_find_part(prev.0, race_id, b.racer_boat_number, prev.0.len() as int) {
            Some(i) => (prev.0.update(i, spec_part_merge(prev.0[i], b, updated)), prev.1),
            None => (
                prev.0.push(
                    spec_participant_from(b, None, race_id as int, prev.1, created, updated),
                ),
                prev.1 + 1,
            ),
        }
    }
}

/// Finds the participant row of the race carrying the boat number, if any.
fn find_part_row(
    ps: &Vec<RaceParticipantRecord>,
    race_id: i64,
    boat: i32,
) -> (r: Option<usize>)
    ensures
        match r {
            Some(i) => i < ps@.len() && spec_find_part(ps@, race_id, boat, ps@.len() as int)
                == Some(i as int),
            None => spec_find_part(ps@, race_id, boat, ps@.len() as int) is None,
        },
{
    let mut i: usize = 0;
    while i < ps.len()
        invariant
            i <= ps@.len(),
            spec_find_part(ps@, race_id, boat, i as int) is None,
        decreases ps@.len() - i,
    {
        if ps[i].race_id == race_id && ps[i].boat_number == boat {
            proof {
                lemma_find_part_stable(ps@, race_id, boat, i as int + 1, ps@.len() as int);
            }
            return Some(i);
        }
        i = i + 1;
    }
    None
}

proof fn lemma_find_part_stable(
    ps: Seq<RaceParticipantRecord>,
    race_id: i64,
    boat: i32,
    k: int,
    n: int,
)
    requires
        0 < k <= n <= ps.len(),
        (spec_find_part(ps, race_id, boat, k) is Some),
    ensures
        spec_find_part(ps, race_id, boat, n) == spec_find_part(ps, race_id, boat, k),
    decreases n - k,
{
    if k < n {
        lemma_find_part_stable(ps, race_id, boat, k + 1, n);
    }
}

proof fn lemma_find_part_none(
    ps: Seq<RaceParticipantRecord>,
    race_id: i64,
    boat: i32,
    k: int,
)
    requires
        k <= ps.len(),
        (spec_find_part(ps, race_id, boat, k) is None),
    ensures
        forall|j: int|
            0 <= j < k ==> !((#[trigger] ps[j]).race_id == race_id && ps[j].boat_number == boat),
    decreases k,
{
    if k > 0 {
        lemma_find_part_none(ps, race_id, boat, k - 1);
    }
}

proof fn lemma_find_part_first(
    ps: Seq<RaceParticipantRecord>,
    race_id: i64,
    boat: i32,
    k: int,
)
    requires
        k <= ps.len(),
        (spec_find_part(ps, race_id, boat, k) is Some),
    ensures
        ({
            let i = spec_find_part(ps, race_id, boat, k)->0;
            0 <= i < k && ps[i].race_id == race_id && ps[i].boat_number == boat
        }),
    decreases k,
{
    if k > 0 && (match spec_find_part(ps, race_id, boat, k - 1) {
        Some(_) => true,
        None => false,
    }) {
        lemma_find_part_first(ps, race_id, boat, k - 1);
    }
}

proof fn lemma_find_race_none(
    rows: Seq<RaceRecord>,
    date: Seq<char>,
    venue: Seq<char>,
    rn: int,
    k: int,
)
    requires
        k <= rows.len(),
        (spec_find_race(rows, date, venue, rn, k) is None),
    ensures
        forall|j: int|
            0 <= j < k ==> !same_key(
                (#[trigger] rows[j]).race_date@,
                rows[j].venue_code@,
                rows[j].race_number as int,
                date,
                venue,
                rn,
            ),
    decreases k,
{
    if k > 0 {
        lemma_find_race_none(rows, date, venue, rn, k - 1);
    }
}

proof fn lemma_find_race_first(
    rows: Seq<RaceRecord>,
    date: Seq<char>,
    venue: Seq<char>,
    rn: int,
    k: int,
)
    requires
        k <= rows.len(),
        (spec_find_race(rows, date, venue, rn, k) is Some),
    ensures
        ({
            let i = spec_find_race(rows, date, venue, rn, k)->0;
            0 <= i < k && same_key(
                rows[i].race_date@,
                rows[i].venue_code@,
                rows[i].race_number as int,
                date,
                venue,
                rn,
            )
        }),
    decreases k,
{
    if k > 0 && (match spec_find_race(rows, date, venue, rn, k - 1) {
        Some(_) => true,
        None => false,
    }) {
        lemma_find_race_first(rows, date, venue, rn, k - 1);
    }
}

impl Store {
    /// Saves one result record after migration: upserts the race row by its
    /// (date, venue, race number) key — deriving payout, reading and winner
    /// columns from the decoded payload and keeping any program-derived
    /// columns — then upserts one participant row per boat of the payload,
    /// keeping their program-derived columns too.  A record whose payload
    /// never decoded is rejected and nothing changes.
    pub fn save_result(&mut self, rec: ResultRecord) -> (r: Result<(), StoreError>)
        requires
            old(self).wf(),
            old(self).races_created,
            old(self).next_race_id < i64::MAX,
            old(self).next_participant_id + (match rec.payload {
                ResultPayload::Parsed(d) => d.boats@.len(),
                ResultPayload::Undecoded(_) => 0,
            }) <= i64::MAX,
        ensures
            final(self).wf(),
            r is Ok <==> rec.payload is Parsed,
            r matches Err(e) ==> e == StoreError::Decode && *final(self) == *old(self),
            r is Ok ==> ({
                let data = spec_result_data(rec.payload);
                let found = spec_find_race(
                    old(self).races@,
                    rec.date@,
                    rec.venue_code@,
                    rec.race_number as int,
                    old(self).races@.len() as int,
                );
                let race_id = match found {
                    Some(i) => old(self).races@[i].id,
                    None => old(self).next_race_id,
                };
                let folded = spec_upsert_parts(
                    old(self).participants@,
                    race_id,
                    data.boats@,
                    rec.created_at,
                    rec.updated_at,
                    old(self).next_participant_id as int,
                    data.boats@.len() as int,
                );
                &&& (match found {
                    Some(i) => final(self).races@ == old(self).races@.update(
                        i,
                        spec_result_race_update(old(self).races@[i], rec),
                    ) && final(self).next_race_id == old(self).next_race_id,
                    None => final(self).races@ == old(self).races@.push(
                        spec_race_from_row(rec, None, old(self).next_race_id as int),
                    ) && final(self).next_race_id == old(self).next_race_id + 1,
                })
                &&& final(self).participants@ == folded.0
                &&& final(self).next_participant_id == folded.1
                &&& final(self).previews == old(self).previews
                &&& final(self).programs == old(self).programs
                &&& final(self).results == old(self).results
                &&& final(self).races_created
            }),
    {
        let data = match &rec.payload {
            ResultPayload::Parsed(d) => d,
            ResultPayload::Undecoded(_) => {
                return Err(StoreError::Decode);
            },
        };
        proof {
            assert(*data == spec_result_data(rec.payload));
        }
        let boats = clone_result_boats(&data.boats);
        let created = rec.created_at.clone();
        let updated = rec.updated_at.clone();
        let win_p = first_payout(&data.payouts.win);
        let place_p = max_place_payout(&data.payouts.place);
        let exacta_p = first_payout(&data.payouts.exacta);
        let quinella_p = first_payout(&data.payouts.quinella);
        let trifecta_p = first_payout(&data.payouts.trifecta);
        let trio_p = first_payout(&data.payouts.trio);
        let (winner_boat, winner_racer) = find_winner(&data.boats);
        let race_wind = data.race_wind;
        let race_wind_direction_number = data.race_wind_direction_number;
        let race_wave = data.race_wave;
        let race_weather_number = data.race_weather_number;
        let race_temperature = data.race_temperature;
        let race_water_temperature = data.race_water_temperature;
        let race_technique_number = data.race_technique_number;
        let found = find_race_row(&self.races, &rec.date, &rec.venue_code, rec.race_number);
        let ghost oraces = self.races@;
        let race_id: i64;
        match found {
            Some(i) => {
                proof {
                    lemma_find_race_first(
                        oraces,
                        rec.date@,
                        rec.venue_code@,
                        rec.race_number as int,
                        oraces.len() as int,
                    );
                }
                let mut tmp = RaceRecord {
                    id: 0,
                    race_date: String::new(),
                    venue_code: String::new(),
                    race_number: 0,
                    race_wind: None,
                    race_wind_direction_number: None,
                    race_wave: None,
                    race_weather_number: None,
                    race_temperature: None,
                    race_water_temperature: None,
                    race_technique_number: None,
                    win_payout: None,
                    place_payout_max: None,
                    exacta_payout: None,
                    quinella_payout: None,
                    trifecta_payout: None,
                    trio_payout: None,
                    winner_boat_number: None,
                    winner_racer_number: None,
                    race_grade_number: None,
                    race_title: None,
                    race_subtitle: None,
                    race_distance: None,
                    result_payload: None,
                    program_payload: None,
                    created_at: String::new(),
                    updated_at: String::new(),
                };
                self.races.set_and_swap(i, &mut tmp);
                race_id = tmp.id;
                let updated_row = RaceRecord {
                    id: tmp.id,
                    race_date: tmp.race_date,
                    venue_code: tmp.venue_code,
                    race_number: tmp.race_number,
                    race_wind,
                    race_wind_direction_number,
                    race_wave,
                    race_weather_number,
                    race_temperature,
                    race_water_temperature,
                    race_technique_number,
                    win_payout: win_p,
                    place_payout_max: place_p,
                    exacta_payout: exacta_p,
                    quinella_payout: quinella_p,
                    trifecta_payout: trifecta_p,
                    trio_payout: trio_p,
                    winner_boat_number: winner_boat,
                    winner_racer_number: winner_racer,
                    race_grade_number: tmp.race_grade_number,
                    race_title: tmp.race_title,
                    race_subtitle: tmp.race_subtitle,
                    race_distance: tmp.race_distance,
                    result_payload: Some(rec.payload),
                    program_payload: tmp.program_payload,
                    created_at: tmp.created_at,
                    updated_at: rec.updated_at,
                };
                self.races.set(i, updated_row);
                proof {
                    assert(self.races@ =~= oraces.update(
                        i as int,
                        spec_result_race_update(oraces[i as int], rec),
                    ));
                }
            },
            None => {
                race_id = self.next_race_id;
                self.next_race_id = self.next_race_id + 1;
                let race = RaceRecord {
                    id: race_id,
                    race_date: rec.date,
                    venue_code: rec.venue_code,
                    race_number: rec.race_number,
                    race_wind,
                    race_wind_direction_number,
                    race_wave,
                    race_weather_number,
                    race_temperature,
                    race_water_temperature,
                    race_technique_number,
                    win_payout: win_p,
                    place_payout_max: place_p,
                    exacta_payout: exacta_p,
                    quinella_payout: quinella_p,
                    trifecta_payout: trifecta_p,
                    trio_payout: trio_p,
                    winner_boat_number: winner_boat,
                    winner_racer_number: winner_racer,
                    race_grade_number: None,
                    race_title: None,
                    race_subtitle: None,
                    race_distance: None,
                    result_payload: Some(rec.payload),
                    program_payload: None,
                    created_at: rec.created_at,
                    updated_at: rec.updated_at,
                };
                self.races.push(race);
                proof {
                    lemma_find_race_none(
                        oraces,
                        rec.date@,
                        rec.venue_code@,
                        rec.race_number as int,
                        oraces.len() as int,
                    );
                    assert(self.races@ =~= oraces.push(
                        spec_race_from_row(rec, None, old(self).next_race_id as int),
                    ));
                }
            },
        }
        proof {
            assert(races_unique(self.races@)) by {
                match found {
                    Some(i) => {
                        assert(forall|q: int|
                            0 <= q < self.races@.len() && q != i ==> self.races@[q] == oraces[q]);
                    },
                    None => {
                        assert(forall|q: int|
                            0 <= q < oraces.len() ==> self.races@[q] == oraces[q]);
                    },
                }
            }
            assert(forall|q: int|
                0 <= q < self.races@.len() ==> 0 <= (#[trigger] self.races@[q]).id
                    < self.next_race_id);
        }
        // Participant upsert, boat by boat.
        let ghost oparts = self.participants@;
        let ghost boatseq = boats@;
        let ghost pid0 = self.next_participant_id as int;
        let ghost races_after = self.races;
        let ghost nrid_after = self.next_race_id;
        let mut boats = boats;
        let mut j: usize = 0;
        let nboats = boats.len();
        while boats.len() > 0
            invariant
                j + boats@.len() == nboats,
                nboats == boatseq.len(),
                boats@ == boatseq.skip(j as int),
                (self.participants@, self.next_participant_id as int) == spec_upsert_parts(
                    oparts,
                    race_id,
                    boatseq,
                    rec.created_at,
                    rec.updated_at,
                    pid0,
                    j as int,
                ),
                created == rec.created_at,
                updated == rec.updated_at,
                participants_unique(self.participants@),
                forall|q: int|
                    0 <= q < self.participants@.len() ==> 0 <= (
                    #[trigger] self.participants@[q]).id < self.next_participant_id,
                pid0 <= self.next_participant_id,
                self.next_participant_id + boats@.len() <= i64::MAX,
                0 < self.next_participant_id,
                self.races == races_after,
                self.next_race_id == nrid_after,
                0 < self.next_race_id,
                races_unique(self.races@),
                forall|q: int|
                    0 <= q < self.races@.len() ==> 0 <= (#[trigger] self.races@[q]).id
                        < self.next_race_id,
                self.previews == old(self).previews,
                self.programs == old(self).programs,
                self.results == old(self).results,
                self.races_created,
                self.results_v2 == old(self).results_v2,
                self.indexes == old(self).indexes,
                0 < self.next_raw_id,
                previews_unique(self.previews@),
                programs_unique(self.programs@),
                match self.results {
                    Some(rows) => results_unique(rows@) && (!self.results_v2 ==> forall|q: int|
                        0 <= q < rows@.len() ==> (#[trigger] rows@[q]).derived is None),
                    None => true,
                },
                (self.results is None ==> self.results_v2 && self.races_created),
            decreases boats@.len(),
        {
            let b = boats.remove(0);
            proof {
                assert(b == boatseq.skip(j as int)[0]);
                assert(b == boatseq[j as int]);
                assert(boats@ =~= boatseq.skip(j as int + 1));
            }
            let ghost pprev = self.participants@;
            let bfound = find_part_row(&self.participants, race_id, b.racer_boat_number);
            match bfound {
                Some(i) => {
                    proof {
                        lemma_find_part_first(
                            pprev,
                            race_id,
                            b.racer_boat_number,
                            pprev.len() as int,
                        );
                    }
                    let mut tmp = RaceParticipantRecord {
                        id: 0,
                        race_id: 0,
                        boat_number: 0,
                        racer_number: None,
                        racer_name: None,
                        racer_class_number: None,
                        racer_branch_number: None,
                        racer_birthplace_number: None,
                        racer_age: None,
                        racer_weight: None,
                        course_number: None,
                        start_timing: None,
                        entry_number: None,
                        place_number: None,
                        decision_hand: None,
                        flying_count: None,
                        late_count: None,
                        average_start_timing: None,
                        national_top_1_percent: None,
                        national_top_2_percent: None,
                        national_top_3_percent: None,
                        local_top_1_percent: None,
                        local_top_2_percent: None,
                        local_top_3_percent: None,
                        assigned_motor_number: None,
                        assigned_motor_top_2_percent: None,
                        assigned_motor_top_3_percent: None,
                        assigned_boat_number: None,
                        assigned_boat_top_2_percent: None,
                        assigned_boat_top_3_percent: None,
                        created_at: String::new(),
                        updated_at: String::new(),
                    };
                    self.participants.set_and_swap(i, &mut tmp);
                    let merged = RaceParticipantRecord {
                        racer_number: b.racer_number,
                        racer_name: b.racer_name,
                        course_number: b.racer_course_number,
                        start_timing: b.racer_start_timing,
                        place_number: b.racer_place_number,
                        updated_at: updated.clone(),
                        ..tmp
                    };
                    self.participants.set(i, merged);
                    proof {
                        assert(self.participants@ =~= pprev.update(
                            i as int,
                            spec_part_merge(pprev[i as int], b, rec.updated_at),
                        ));
                        assert(participants_unique(self.participants@)) by {
                            assert(forall|q: int|
                                0 <= q < self.participants@.len() && q != i
                                    ==> self.participants@[q] == pprev[q]);
                        }
                    }
                },
                None => {
                    let pid = self.next_participant_id;
                    self.next_participant_id = self.next_participant_id + 1;
                    let fresh = build_participant(
                        &b,
                        None,
                        race_id,
                        pid,
                        &created,
                        &updated,
                    );
                    self.participants.push(fresh);
                    proof {
                        lemma_find_part_none(
                            pprev,
                            race_id,
                            b.racer_boat_number,
                            pprev.len() as int,
                        );
                        assert(self.participants@ =~= pprev.push(
                            spec_participant_from(
                                b,
                                None,
                                race_id as int,
                                pid as int,
                                rec.created_at,
                                rec.updated_at,
                            ),
                        ));
                        assert(participants_unique(self.participants@)) by {
                            assert(forall|q: int|
                                0 <= q < pprev.len() ==> self.participants@[q] == pprev[q]);
                        }
                    }
                },
            }
            j = j + 1;
        }
        proof {
            assert(boatseq.skip(nboats as int) =~= Seq::<ResultRacerInfo>::empty());
        }
        Ok(())
    }
}


// ------------------------------------------------------------------
// Program upserts after migration
// ------------------------------------------------------------------

/// The decoded data of a stored program payload (meaningful only when
/// parsed).
pub open spec fn spec_program_data(p: ProgramPayload) -> RaceProgram {
    match p {
        ProgramPayload::Parsed(d) => d,
        ProgramPayload::Undecoded(_) => vstd::pervasive::arbitrary(),
    }
}

/// A race row after a program upsert hit its key: the race metadata, the
/// retained program payload and the update time are replaced; the key, the
/// result-derived columns and the creation time stay.
pub open spec fn spec_program_race_update(old_race: RaceRecord, rec: ProgramRecord) -> RaceRecord {
    let d = spec_program_data(rec.payload);
    RaceRecord {
        race_grade_number: d.race_grade_number,
        race_title: d.race_title,
        race_subtitle: d.race_subtitle,
        race_distance: d.race_distance,
        program_payload: Some(rec.payload),
        updated_at: rec.updated_at,
        ..old_race
    }
}

/// A fresh race row created by a program upsert: key and metadata only, no
/// result-derived columns yet.
pub open spec fn spec_program_race_new(rec: ProgramRecord, id: int) -> RaceRecord {
    let d = spec_program_data(rec.payload);
    RaceRecord {
        id: id as i64,
        race_date: rec.date,
        venue_code: rec.venue_code,
        race_number: rec.race_number,
        race_wind: None,
        race_wind_direction_number: None,
        race_wave: None,
        race_weather_number: None,
        race_temperature: None,
        race_water_temperature: None,
        race_technique_number: None,
        win_payout: None,
        place_payout_max: None,
        exacta_payout: None,
        quinella_payout: None,
        trifecta_payout: None,
        trio_payout: None,
        winner_boat_number: None,
        winner_racer_number: None,
        race_grade_number: d.race_grade_number,
        race_title: d.race_title,
        race_subtitle: d.race_subtitle,
        race_distance: d.race_distance,
        result_payload: None,
        program_payload: Some(rec.payload),
        created_at: rec.created_at,
        updated_at: rec.updated_at,
    }
}

/// A participant row after a program upsert hit its (race, boat) key: the
/// racer identity, class and equipment statistics are replaced; the
/// start, finish and creation data stay.
pub open spec fn spec_prog_part_merge(
    old_p: RaceParticipantRecord,
    pb: ProgramRacerInfo,
    updated: String,
) -> RaceParticipantRecord {
    RaceParticipantRecord {
        racer_number: pb.racer_number,
        racer_name: pb.racer_name,
        racer_class_number: pb.racer_class_number,
        racer_branch_number: pb.racer_branch_number,
        racer_birthplace_number: pb.racer_birthplace_number,
        racer_age: pb.racer_age,
        racer_weight: pb.racer_weight,
        flying_count: pb.racer_flying_count,
        late_count: pb.racer_late_count,
        average_start_timing: pb.racer_average_start_timing,
        national_top_1_percent: pb.racer_national_top_1_percent,
        national_top_2_percent: pb.racer_national_top_2_percent,
        national_top_3_percent: pb.racer_national_top_3_percent,
        local_top_1_percent: pb.racer_local_top_1_percent,
        local_top_2_percent: pb.racer_local_top_2_percent,
        local_top_3_percent: pb.racer_local_top_3_percent,
        assigned_motor_number: pb.racer_assigned_motor_number,
        assigned_motor_top_2_percent: pb.racer_assigned_motor_top_2_percent,
        assigned_motor_top_3_percent: pb.racer_assigned_motor_top_3_percent,
        assigned_boat_number: pb.racer_assigned_boat_number,
        assigned_boat_top_2_percent: pb.racer_assigned_boat_top_2_percent,
        assigned_boat_top_3_percent: pb.racer_assigned_boat_top_3_percent,
        updated_at: updated,
        ..old_p
    }
}

/// A fresh participant row created by a program upsert: identity and
/// statistics from the program boat, no start or finish data yet.
pub open spec fn spec_prog_participant_new(
    pb: ProgramRacerInfo,
    race_id: i64,
    pid: int,
    created: String,
    updated: String,
) -> RaceParticipantRecord {
    RaceParticipantRecord {
        id: pid as i64,
        race_id,
        boat_number: pb.racer_boat_number->0,
        racer_number: pb.racer_number,
        racer_name: pb.racer_name,
        racer_class_number: pb.racer_class_number,
        racer_branch_number: pb.racer_branch_number,
        racer_birthplace_number: pb.racer_birthplace_number,
        racer_age: pb.racer_age,
        racer_weight: pb.racer_weight,
        course_number: None,
        start_timing: None,
        entry_number: None,
        place_number: None,
        decision_hand: None,
        flying_count: pb.racer_flying_count,
        late_count: pb.racer_late_count,
        average_start_timing: pb.racer_average_start_timing,
        national_top_1_percent: pb.racer_national_top_1_percent,
        national_top_2_percent: pb.racer_national_top_2_percent,
        national_top_3_percent: pb.racer_national_top_3_percent,
        local_top_1_percent: pb.racer_local_top_1_percent,
        local_top_2_percent: pb.racer_local_top_2_percent,
        local_top_3_percent: pb.racer_local_top_3_percent,
        assigned_motor_number: pb.racer_assigned_motor_number,
        assigned_motor_top_2_percent: pb.racer_assigned_motor_top_2_percent,
        assigned_motor_top_3_percent: pb.racer_assigned_motor_top_3_percent,
        assigned_boat_number: pb.racer_assigned_boat_number,
        assigned_boat_top_2_percent: pb.racer_assigned_boat_top_2_percent,
        assigned_boat_top_3_percent: pb.racer_assigned_boat_top_3_percent,
        created_at: created,
        updated_at: updated,
    }
}

/// The participant table after upserting the first `k` program boats for
/// one race; a boat without a usable boat number is skipped.
pub open spec fn spec_upsert_prog_parts(
    ps: Seq<RaceParticipantRecord>,
    race_id: i64,
    boats: Seq<ProgramRacerInfo>,
    created: String,
    updated: String,
    pid: int,
    k: int,
) -> (Seq<RaceParticipantRecord>, int)
    decreases k,
{
    if k <= 0 {
        (ps, pid)
    } else {
        let prev = spec_upsert_prog_parts(ps, race_id, boats, created, updated, pid, k - 1);
        let pb = boats[k - 1];
        match pb.racer_boat_number {
            None => prev,
            Some(bn) => if bn == 0 {
                prev
            } else {
                match spec_find_part(prev.0, race_id, bn, prev.0.len() as int) {
                    Some(i) => (
                        prev.0.update(i, spec_prog_part_merge(prev.0[i], pb, updated)),
                        prev.1,
                    ),
                    None => (
                        prev.0.push(
                            spec_prog_participant_new(pb, race_id, prev.1, created, updated),
                        ),
                        prev.1 + 1,
                    ),
                }
            },
        }
    }
}

/// Builds one fresh participant row from a program boat.
fn build_prog_participant(
    pb: &ProgramRacerInfo,
    boat_number: i32,
    race_id: i64,
    pid: i64,
    created: &String,
    updated: &String,
) -> (p: RaceParticipantRecord)
    requires
        pb.racer_boat_number == Some(boat_number),
    ensures
        p == spec_prog_participant_new(*pb, race_id, pid as int, *created, *updated),
{
    RaceParticipantRecord {
        id: pid,
        race_id,
        boat_number,
        racer_number: pb.racer_number,
        racer_name: clone_opt_string(&pb.racer_name),
        racer_class_number: pb.racer_class_number,
        racer_branch_number: pb.racer_branch_number,
        racer_birthplace_number: pb.racer_birthplace_number,
        racer_age: pb.racer_age,
        racer_weight: pb.racer_weight,
        course_number: None,
        start_timing: None,
        entry_number: None,
        place_number: None,
        decision_hand: None,
        flying_count: pb.racer_flying_count,
        late_count: pb.racer_late_count,
        average_start_timing: pb.racer_average_start_timing,
        national_top_1_percent: pb.racer_national_top_1_percent,
        national_top_2_percent: pb.racer_national_top_2_percent,
        national_top_3_percent: pb.racer_national_top_3_percent,
        local_top_1_percent: pb.racer_local_top_1_percent,
        local_top_2_percent: pb.racer_local_top_2_percent,
        local_top_3_percent: pb.racer_local_top_3_percent,
        assigned_motor_number: pb.racer_assigned_motor_number,
        assigned_motor_top_2_percent: pb.racer_assigned_motor_top_2_percent,
        assigned_motor_top_3_percent: pb.racer_assigned_motor_top_3_percent,
        assigned_boat_number: pb.racer_assigned_boat_number,
        assigned_boat_top_2_percent: pb.racer_assigned_boat_top_2_percent,
        assigned_boat_top_3_percent: pb.racer_assigned_boat_top_3_percent,
        created_at: created.clone(),
        updated_at: updated.clone(),
    }
}

impl Store {
    /// Saves one program record after migration: upserts the race row by its
    /// key — replacing the race metadata and the retained program payload,
    /// keeping any result-derived columns — then upserts one participant row
    /// per program boat, keeping their start and finish data; a boat without
    /// a usable boat number is skipped.  A record whose payload never
    /// decoded is rejected and nothing changes.
    pub fn save_program(&mut self, rec: ProgramRecord) -> (r: Result<(), StoreError>)
        requires
            old(self).wf(),
            old(self).races_created,
            old(self).next_race_id < i64::MAX,
            old(self).next_participant_id + (match rec.payload {
                ProgramPayload::Parsed(d) => d.boats@.len(),
                ProgramPayload::Undecoded(_) => 0,
            }) <= i64::MAX,
        ensures
            final(self).wf(),
            r is Ok <==> rec.payload is Parsed,
            r matches Err(e) ==> e == StoreError::Decode && *final(self) == *old(self),
            r is Ok ==> ({
                let d = spec_program_data(rec.payload);
                let found = spec_find_race(
                    old(self).races@,
                    rec.date@,
                    rec.venue_code@,
                    rec.race_number as int,
                    old(self).races@.len() as int,
                );
                let race_id = match found {
                    Some(i) => old(self).races@[i].id,
                    None => old(self).next_race_id,
                };
                let folded = spec_upsert_prog_parts(
                    old(self).participants@,
                    race_id,
                    d.boats@,
                    rec.created_at,
                    rec.updated_at,
                    old(self).next_participant_id as int,
                    d.boats@.len() as int,
                );
                &&& (match found {
                    Some(i) => final(self).races@ == old(self).races@.update(
                        i,
                        spec_program_race_update(old(self).races@[i], rec),
                    ) && final(self).next_race_id == old(self).next_race_id,
                    None => final(self).races@ == old(self).races@.push(
                        spec_program_race_new(rec, old(self).next_race_id as int),
                    ) && final(self).next_race_id == old(self).next_race_id + 1,
                })
                &&& final(self).participants@ == folded.0
                &&& final(self).next_participant_id == folded.1
                &&& final(self).previews == old(self).previews
                &&& final(self).programs == old(self).programs
                &&& final(self).results == old(self).results
                &&& final(self).races_created
            }),
    {
        let d = match &rec.payload {
            ProgramPayload::Parsed(d) => d,
            ProgramPayload::Undecoded(_) => {
                return Err(StoreError::Decode);
            },
        };
        proof {
            assert(*d == spec_program_data(rec.payload));
        }
        let boats = clone_program_boats(&d.boats);
        let created = rec.created_at.clone();
        let updated = rec.updated_at.clone();
        let grade = d.race_grade_number;
        let title = clone_opt_string(&d.race_title);
        let subtitle = clone_opt_string(&d.race_subtitle);
        let distance = d.race_distance;
        let found = find_race_row(&self.races, &rec.date, &rec.venue_code, rec.race_number);
        let ghost oraces = self.races@;
        let race_id: i64;
        match found {
            Some(i) => {
                proof {
                    lemma_find_race_first(
                        oraces,
                        rec.date@,
                        rec.venue_code@,
                        rec.race_number as int,
                        oraces.len() as int,
                    );
                }
                let mut tmp = RaceRecord {
                    id: 0,
                    race_date: String::new(),
                    venue_code: String::new(),
                    race_number: 0,
                    race_wind: None,
                    race_wind_direction_number: None,
                    race_wave: None,
                    race_weather_number: None,
                    race_temperature: None,
                    race_water_temperature: None,
                    race_technique_number: None,
                    win_payout: None,
                    place_payout_max: None,
                    exacta_payout: None,
                    quinella_payout: None,
                    trifecta_payout: None,
                    trio_payout: None,
                    winner_boat_number: None,
                    winner_racer_number: None,
                    race_grade_number: None,
                    race_title: None,
                    race_subtitle: None,
                    race_distance: None,
                    result_payload: None,
                    program_payload: None,
                    created_at: String::new(),
                    updated_at: String::new(),
                };
                self.races.set_and_swap(i, &mut tmp);
                race_id = tmp.id;
                let updated_row = RaceRecord {
                    race_grade_number: grade,
                    race_title: title,
                    race_subtitle: subtitle,
                    race_distance: distance,
                    program_payload: Some(rec.payload),
                    updated_at: rec.updated_at,
                    ..tmp
                };
                self.races.set(i, updated_row);
                proof {
                    assert(self.races@ =~= oraces.update(
                        i as int,
                        spec_program_race_update(oraces[i as int], rec),
                    ));
                }
            },
            None => {
                race_id = self.next_race_id;
                self.next_race_id = self.next_race_id + 1;
                let race = RaceRecord {
                    id: race_id,
                    race_date: rec.date,
                    venue_code: rec.venue_code,
                    race_number: rec.race_number,
                    race_wind: None,
                    race_wind_direction_number: None,
                    race_wave: None,
                    race_weather_number: None,
                    race_temperature: None,
                    race_water_temperature: None,
                    race_technique_number: None,
                    win_payout: None,
                    place_payout_max: None,
                    exacta_payout: None,
                    quinella_payout: None,
                    trifecta_payout: None,
                    trio_payout: None,
                    winner_boat_number: None,
                    winner_racer_number: None,
                    race_grade_number: grade,
                    race_title: title,
                    race_subtitle: subtitle,
                    race_distance: distance,
                    result_payload: None,
                    program_payload: Some(rec.payload),
                    created_at: rec.created_at,
                    updated_at: rec.updated_at,
                };
                self.races.push(race);
                proof {
                    lemma_find_race_none(
                        oraces,
                        rec.date@,
                        rec.venue_code@,
                        rec.race_number as int,
                        oraces.len() as int,
                    );
                    assert(self.races@ =~= oraces.push(
                        spec_program_race_new(rec, old(self).next_race_id as int),
                    ));
                }
            },
        }
        proof {
            assert(races_unique(self.races@)) by {
                match found {
                    Some(i) => {
                        assert(forall|q: int|
                            0 <= q < self.races@.len() && q != i ==> self.races@[q] == oraces[q]);
                    },
                    None => {
                        assert(forall|q: int|
                            0 <= q < oraces.len() ==> self.races@[q] == oraces[q]);
                    },
                }
            }
            assert(forall|q: int|
                0 <= q < self.races@.len() ==> 0 <= (#[trigger] self.races@[q]).id
                    < self.next_race_id);
        }
        // Participant upsert, boat by boat; unknown boat numbers skipped.
        let ghost oparts = self.participants@;
        let ghost boatseq = boats@;
        let ghost pid0 = self.next_participant_id as int;
        let ghost races_after = self.races;
        let ghost nrid_after = self.next_race_id;
        let mut boats = boats;
        let mut j: usize = 0;
        let nboats = boats.len();
        while boats.len() > 0
            invariant
                j + boats@.len() == nboats,
                nboats == boatseq.len(),
                boats@ == boatseq.skip(j as int),
                (self.participants@, self.next_participant_id as int) == spec_upsert_prog_parts(
                    oparts,
                    race_id,
                    boatseq,
                    rec.created_at,
                    rec.updated_at,
                    pid0,
                    j as int,
                ),
                created == rec.created_at,
                updated == rec.updated_at,
                participants_unique(self.participants@),
                forall|q: int|
                    0 <= q < self.participants@.len() ==> 0 <= (
                    #[trigger] self.participants@[q]).id < self.next_participant_id,
                pid0 <= self.next_participant_id,
                self.next_participant_id + boats@.len() <= i64::MAX,
                0 < self.next_participant_id,
                self.races == races_after,
                self.next_race_id == nrid_after,
                0 < self.next_race_id,
                races_unique(self.races@),
                forall|q: int|
                    0 <= q < self.races@.len() ==> 0 <= (#[trigger] self.races@[q]).id
                        < self.next_race_id,
                self.previews == old(self).previews,
                self.programs == old(self).programs,
                self.results == old(self).results,
                self.races_created,
                self.results_v2 == old(self).results_v2,
                self.indexes == old(self).indexes,
                0 < self.next_raw_id,
                previews_unique(self.previews@),
                programs_unique(self.programs@),
                match self.results {
                    Some(rows) => results_unique(rows@) && (!self.results_v2 ==> forall|q: int|
                        0 <= q < rows@.len() ==> (#[trigger] rows@[q]).derived is None),
                    None => true,
                },
                (self.results is None ==> self.results_v2 && self.races_created),
            decreases boats@.len(),
        {
            let pb = boats.remove(0);
            proof {
                assert(pb == boatseq.skip(j as int)[0]);
                assert(pb == boatseq[j as int]);
                assert(boats@ =~= boatseq.skip(j as int + 1));
            }
            let bn = match pb.racer_boat_number {
                Some(b) => b,
                None => 0,
            };
            if bn != 0 {
                let ghost pprev = self.participants@;
                let bfound = find_part_row(&self.participants, race_id, bn);
                match bfound {
                    Some(i) => {
                        proof {
                            lemma_find_part_first(pprev, race_id, bn, pprev.len() as int);
                        }
                        let mut tmp = RaceParticipantRecord {
                            id: 0,
                            race_id: 0,
                            boat_number: 0,
                            racer_number: None,
                            racer_name: None,
                            racer_class_number: None,
                            racer_branch_number: None,
                            racer_birthplace_number: None,
                            racer_age: None,
                            racer_weight: None,
                            course_number: None,
                            start_timing: None,
                            entry_number: None,
                            place_number: None,
                            decision_hand: None,
                            flying_count: None,
                            late_count: None,
                            average_start_timing: None,
                            national_top_1_percent: None,
                            national_top_2_percent: None,
                            national_top_3_percent: None,
                            local_top_1_percent: None,
                            local_top_2_percent: None,
                            local_top_3_percent: None,
                            assigned_motor_number: None,
                            assigned_motor_top_2_percent: None,
                            assigned_motor_top_3_percent: None,
                            assigned_boat_number: None,
                            assigned_boat_top_2_percent: None,
                            assigned_boat_top_3_percent: None,
                            created_at: String::new(),
                            updated_at: String::new(),
                        };
                        self.participants.set_and_swap(i, &mut tmp);
                        let merged = RaceParticipantRecord {
                            racer_number: pb.racer_number,
                            racer_name: clone_opt_string(&pb.racer_name),
                            racer_class_number: pb.racer_class_number,
                            racer_branch_number: pb.racer_branch_number,
                            racer_birthplace_number: pb.racer_birthplace_number,
                            racer_age: pb.racer_age,
                            racer_weight: pb.racer_weight,
                            flying_count: pb.racer_flying_count,
                            late_count: pb.racer_late_count,
                            average_start_timing: pb.racer_average_start_timing,
                            national_top_1_percent: pb.racer_national_top_1_percent,
                            national_top_2_percent: pb.racer_national_top_2_percent,
                            national_top_3_percent: pb.racer_national_top_3_percent,
                            local_top_1_percent: pb.racer_local_top_1_percent,
                            local_top_2_percent: pb.racer_local_top_2_percent,
                            local_top_3_percent: pb.racer_local_top_3_percent,
                            assigned_motor_number: pb.racer_assigned_motor_number,
                            assigned_motor_top_2_percent: pb.racer_assigned_motor_top_2_percent,
                            assigned_motor_top_3_percent: pb.racer_assigned_motor_top_3_percent,
                            assigned_boat_number: pb.racer_assigned_boat_number,
                            assigned_boat_top_2_percent: pb.racer_assigned_boat_top_2_percent,
                            assigned_boat_top_3_percent: pb.racer_assigned_boat_top_3_percent,
                            updated_at: updated.clone(),
                            ..tmp
                        };
                        self.participants.set(i, merged);
                        proof {
                            assert(self.participants@ =~= pprev.update(
                                i as int,
                                spec_prog_part_merge(pprev[i as int], pb, rec.updated_at),
                            ));
                            assert(participants_unique(self.participants@)) by {
                                assert(forall|q: int|
                                    0 <= q < self.participants@.len() && q != i
                                        ==> self.participants@[q] == pprev[q]);
                            }
                        }
                    },
                    None => {
                        let pid = self.next_participant_id;
                        self.next_participant_id = self.next_participant_id + 1;
                        let fresh = build_prog_participant(
                            &pb,
                            bn,
                            race_id,
                            pid,
                            &created,
                            &updated,
                        );
                        self.participants.push(fresh);
                        proof {
                            lemma_find_part_none(pprev, race_id, bn, pprev.len() as int);
                            assert(self.participants@ =~= pprev.push(
                                spec_prog_participant_new(
                                    pb,
                                    race_id,
                                    pid as int,
                                    rec.created_at,
                                    rec.updated_at,
                                ),
                            ));
                            assert(participants_unique(self.participants@)) by {
                                assert(forall|q: int|
                                    0 <= q < pprev.len() ==> self.participants@[q] == pprev[q]);
                            }
                        }
                    },
                }
            }
            j = j + 1;
        }
        proof {
            assert(boatseq.skip(nboats as int) =~= Seq::<ProgramRacerInfo>::empty());
        }
        Ok(())
    }
}

} // verus!
