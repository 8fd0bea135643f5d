//! The compound query builder: a sparse bag of optional filters, combined
//! with logical AND, evaluated against the normalized store and rendered as
//! one parameterized statement.
//!
//! Races come back ordered by date descending, then venue, then race number,
//! each paired with its participants ordered by boat number.

use vstd::prelude::*;
use crate::records::{RaceRecord, RaceParticipantRecord, ResultRecord};
use crate::store::{Store, StoreError, clone_participant, clone_race_record};
use crate::textutil::{lex_lt, lex_le, str_lt, str_eq, contains_seq, str_contains};

verus! {

/// The filter bag: every field independently optional, absent fields
/// contribute no predicate.  Readings are compared in hundredths.
pub struct SearchParams {
    pub racer_number: Option<i32>,
    pub racer_name: Option<String>,
    pub racer_class: Option<i32>,
    pub date_from: Option<String>,
    pub date_to: Option<String>,
    pub venue_code: Option<String>,
    pub race_grade: Option<i32>,
    pub race_number: Option<i32>,
    pub min_trifecta_payout: Option<i32>,
    pub max_trifecta_payout: Option<i32>,
    pub min_win_payout: Option<i32>,
    pub min_wind: Option<i64>,
    pub max_wind: Option<i64>,
    pub min_wave: Option<i64>,
    pub max_wave: Option<i64>,
    pub min_temperature: Option<i64>,
    pub max_temperature: Option<i64>,
    pub winner_boat_number: Option<i32>,
    pub place_number: Option<i32>,
    pub limit: Option<i32>,
}

impl Default for SearchParams {
    /// The empty filter bag: no predicate, default result limit.
    fn default() -> (r: SearchParams)
        ensures
            r.racer_number is None,
            r.racer_name is None,
            r.racer_class is None,
            r.date_from is None,
            r.date_to is None,
            r.venue_code is None,
            r.race_grade is None,
            r.race_number is None,
            r.min_trifecta_payout is None,
            r.max_trifecta_payout is None,
            r.min_win_payout is None,
            r.min_wind is None,
            r.max_wind is None,
            r.min_wave is None,
            r.max_wave is None,
            r.min_temperature is None,
            r.max_temperature is None,
            r.winner_boat_number is None,
            r.place_number is None,
            r.limit is None,
    {
        SearchParams {
            racer_number: None,
            racer_name: None,
            racer_class: None,
            date_from: None,
            date_to: None,
            venue_code: None,
            race_grade: None,
            race_number: None,
            min_trifecta_payout: None,
            max_trifecta_payout: None,
            min_win_payout: None,
            min_wind: None,
            max_wind: None,
            min_wave: None,
            max_wave: None,
            min_temperature: None,
            max_temperature: None,
            winner_boat_number: None,
            place_number: None,
            limit: None,
        }
    }
}

// ------------------------------------------------------------------
// Result ordering: date descending, venue, race number
// ------------------------------------------------------------------

/// Whether race `a` must stand strictly before race `b` in a result list:
/// later date first, then venue code, then race number ascending.
pub open spec fn race_before(a: RaceRecord, b: RaceRecord) -> bool {
    ||| lex_lt(b.race_date@, a.race_date@)
    ||| (a.race_date@ == b.race_date@ && lex_lt(a.venue_code@, b.venue_code@))
    ||| (a.race_date@ == b.race_date@ && a.venue_code@ == b.venue_code@ && a.race_number
        < b.race_number)
}

/// Whether race `a` must stand strictly before race `b` in a raw-record
/// export: date, venue and race number all ascending.
pub open spec fn race_before_asc(a: RaceRecord, b: RaceRecord) -> bool {
    ||| lex_lt(a.race_date@, b.race_date@)
    ||| (a.race_date@ == b.race_date@ && lex_lt(a.venue_code@, b.venue_code@))
    ||| (a.race_date@ == b.race_date@ && a.venue_code@ == b.venue_code@ && a.race_number
        < b.race_number)
}

/// Inserts a race into a list ordered by [`race_before`], before the first
/// entry it must precede.
pub open spec fn spec_insert_race(s: Seq<RaceRecord>, x: RaceRecord, desc: bool) -> Seq<RaceRecord>
    decreases s.len(),
{
    if s.len() == 0 {
        seq![x]
    } else if (if desc {
        race_before(x, s[0])
    } else {
        race_before_asc(x, s[0])
    }) {
        seq![x] + s
    } else {
        seq![s[0]] + spec_insert_race(s.subrange(1, s.len() as int), x, desc)
    }
}

/// Insertion sort over the first `k` races of `s`.
pub open spec fn spec_sort_races(s: Seq<RaceRecord>, k: int, desc: bool) -> Seq<RaceRecord>
    decreases k,
{
    if k <= 0 {
        Seq::empty()
    } else {
        spec_insert_race(spec_sort_races(s, k - 1, desc), s[k - 1], desc)
    }
}

/// Decides [`race_before`] (or its ascending variant).
fn race_before_exec(a: &RaceRecord, b: &RaceRecord, desc: bool) -> (r: bool)
    ensures
        r == if desc {
            race_before(*a, *b)
        } else {
            race_before_asc(*a, *b)
        },
{
    let date_eq = str_eq(a.race_date.as_str(), b.race_date.as_str());
    if !date_eq {
        if desc {
            return str_lt(b.race_date.as_str(), a.race_date.as_str());
        } else {
            return str_lt(a.race_date.as_str(), b.race_date.as_str());
        }
    }
    if !str_eq(a.venue_code.as_str(), b.venue_code.as_str()) {
        proof {
            lemma_lex_lt_irreflexive(a.race_date@);
        }
        return str_lt(a.venue_code.as_str(), b.venue_code.as_str());
    }
    proof {
        lemma_lex_lt_irreflexive(a.race_date@);
        lemma_lex_lt_irreflexive(a.venue_code@);
    }
    a.race_number < b.race_number
}

/// Strict lexicographic order never relates a sequence to itself.
proof fn lemma_lex_lt_irreflexive(a: Seq<char>)
    ensures
        !lex_lt(a, a),
    decreases a.len(),
{
    if a.len() > 0 {
        lemma_lex_lt_irreflexive(a.subrange(1, a.len() as int));
    }
}

proof fn lemma_insert_race_at(s: Seq<RaceRecord>, x: RaceRecord, j: int, desc: bool)
    requires
        0 <= j <= s.len(),
        forall|q: int|
            0 <= q < j ==> !(if desc {
                race_before(x, #[trigger] s[q])
            } else {
                race_before_asc(x, s[q])
            }),
        j < s.len() ==> (if desc {
            race_before(x, s[j])
        } else {
            race_before_asc(x, s[j])
        }),
    ensures
        spec_insert_race(s, x, desc) == s.take(j) + seq![x] + s.skip(j),
    decreases j,
{
    if s.len() == 0 {
        assert(s.take(0) + seq![x] + s.skip(0) =~= seq![x]);
    } else if j == 0 {
        assert(s.take(0) + seq![x] + s.skip(0) =~= seq![x] + s);
    } else {
        let rest = s.subrange(1, s.len() as int);
        assert(forall|q: int|
            0 <= q < j - 1 ==> !(if desc {
                race_before(x, #[trigger] rest[q])
            } else {
                race_before_asc(x, rest[q])
            })) by {
            assert(forall|q: int| 0 <= q < j - 1 ==> rest[q] == s[q + 1]);
        }
        lemma_insert_race_at(rest, x, j - 1, desc);
        assert(seq![s[0]] + (rest.take(j - 1) + seq![x] + rest.skip(j - 1)) =~= s.take(j)
            + seq![x] + s.skip(j));
    }
}

/// Inserts a race into a sorted vector, before the first entry it must
/// precede.
fn insert_race_sorted(out: &mut Vec<RaceRecord>, x: RaceRecord, desc: bool)
    ensures
        final(out)@ == spec_insert_race(old(out)@, x, desc),
{
    let ghost s = out@;
    let mut j: usize = 0;
    loop
        invariant
            j <= s.len(),
            out@ == s,
            forall|q: int|
                0 <= q < j ==> !(if desc {
                    race_before(x, #[trigger] s[q])
                } else {
                    race_before_asc(x, s[q])
                }),
        ensures
            j <= s.len(),
            out@ == s,
            forall|q: int|
                0 <= q < j ==> !(if desc {
                    race_before(x, #[trigger] s[q])
                } else {
                    race_before_asc(x, s[q])
                }),
            j < s.len() ==> (if desc {
                race_before(x, s[j as int])
            } else {
                race_before_asc(x, s[j as int])
            }),
        decreases s.len() - j,
    {
        if j == out.len() {
            break ;
        }
        if race_before_exec(&x, &out[j], desc) {
            break ;
        }
        j = j + 1;
    }
    proof {
        lemma_insert_race_at(s, x, j as int, desc);
    }
    out.insert(j, x);
    proof {
        assert(out@ =~= s.take(j as int) + seq![x] + s.skip(j as int));
    }
}

/// Whether a race stands in a list.
pub open spec fn race_in(s: Seq<RaceRecord>, x: RaceRecord) -> bool {
    exists|i: int| 0 <= i < s.len() && s[i] == x
}

proof fn lemma_insert_race_mem(s: Seq<RaceRecord>, x: RaceRecord, desc: bool, y: RaceRecord)
    requires
        race_in(spec_insert_race(s, x, desc), y),
    ensures
        y == x || race_in(s, y),
    decreases s.len(),
{
    let ins = spec_insert_race(s, x, desc);
    if s.len() == 0 {
    } else if (if desc {
        race_before(x, s[0])
    } else {
        race_before_asc(x, s[0])
    }) {
        let i = choose|i: int| 0 <= i < ins.len() && ins[i] == y;
        if i > 0 {
            assert(s[i - 1] == y);
        }
    } else {
        let rest = s.subrange(1, s.len() as int);
        let i = choose|i: int| 0 <= i < ins.len() && ins[i] == y;
        if i == 0 {
            assert(s[0] == y);
        } else {
            assert(race_in(spec_insert_race(rest, x, desc), y)) by {
                assert(spec_insert_race(rest, x, desc)[i - 1] == y);
            }
            lemma_insert_race_mem(rest, x, desc, y);
            if y != x {
                let q = choose|q: int| 0 <= q < rest.len() && rest[q] == y;
                assert(s[q + 1] == y);
            }
        }
    }
}

/// Every race of a sorted prefix comes from the input prefix.
proof fn lemma_sort_races_mem(s: Seq<RaceRecord>, k: int, desc: bool, y: RaceRecord)
    requires
        0 <= k <= s.len(),
        race_in(spec_sort_races(s, k, desc), y),
    ensures
        exists|i: int| 0 <= i < k && s[i] == y,
    decreases k,
{
    if k > 0 {
        lemma_insert_race_mem(spec_sort_races(s, k - 1, desc), s[k - 1], desc, y);
        if y != s[k - 1] && race_in(spec_sort_races(s, k - 1, desc), y) {
            lemma_sort_races_mem(s, k - 1, desc, y);
        }
    }
}

// ------------------------------------------------------------------
// Participant ordering: boat number ascending
// ------------------------------------------------------------------

/// Inserts a participant into a list ordered by boat number ascending.
pub open spec fn spec_insert_part(
    s: Seq<RaceParticipantRecord>,
    x: RaceParticipantRecord,
) -> Seq<RaceParticipantRecord>
    decreases s.len(),
{
    if s.len() == 0 {
        seq![x]
    } else if x.boat_number < s[0].boat_number {
        seq![x] + s
    } else {
        seq![s[0]] + spec_insert_part(s.subrange(1, s.len() as int), x)
    }
}

/// Insertion sort over the first `k` participants of `s`, by boat number.
pub open spec fn spec_sort_parts(s: Seq<RaceParticipantRecord>, k: int) -> Seq<
    RaceParticipantRecord,
>
    decreases k,
{
    if k <= 0 {
        Seq::empty()
    } else {
        spec_insert_part(spec_sort_parts(s, k - 1), s[k - 1])
    }
}

proof fn lemma_insert_part_at(s: Seq<RaceParticipantRecord>, x: RaceParticipantRecord, j: int)
    requires
        0 <= j <= s.len(),
        forall|q: int| 0 <= q < j ==> !(x.boat_number < (#[trigger] s[q]).boat_number),
        j < s.len() ==> x.boat_number < s[j].boat_number,
    ensures
        spec_insert_part(s, x) == s.take(j) + seq![x] + s.skip(j),
    decreases j,
{
    if s.len() == 0 {
        assert(s.take(0) + seq![x] + s.skip(0) =~= seq![x]);
    } else if j == 0 {
        assert(s.take(0) + seq![x] + s.skip(0) =~= seq![x] + s);
    } else {
        let rest = s.subrange(1, s.len() as int);
        assert(forall|q: int|
            0 <= q < j - 1 ==> !(x.boat_number < (#[trigger] rest[q]).boat_number)) by {
            assert(forall|q: int| 0 <= q < j - 1 ==> rest[q] == s[q + 1]);
        }
        lemma_insert_part_at(rest, x, j - 1);
        assert(seq![s[0]] + (rest.take(j - 1) + seq![x] + rest.skip(j - 1)) =~= s.take(j)
            + seq![x] + s.skip(j));
    }
}

/// Inserts a participant into a vector sorted by boat number.
fn insert_part_sorted(out: &mut Vec<RaceParticipantRecord>, x: RaceParticipantRecord)
    ensures
        final(out)@ == spec_insert_part(old(out)@, x),
{
    let ghost s = out@;
    let mut j: usize = 0;
    loop
        invariant
            j <= s.len(),
            out@ == s,
            forall|q: int| 0 <= q < j ==> !(x.boat_number < (#[trigger] s[q]).boat_number),
        ensures
            j <= s.len(),
            out@ == s,
            forall|q: int| 0 <= q < j ==> !(x.boat_number < (#[trigger] s[q]).boat_number),
            j < s.len() ==> x.boat_number < s[j as int].boat_number,
        decreases s.len() - j,
    {
        if j == out.len() {
            break ;
        }
        if x.boat_number < out[j].boat_number {
            break ;
        }
        j = j + 1;
    }
    proof {
        lemma_insert_part_at(s, x, j as int);
    }
    out.insert(j, x);
    proof {
        assert(out@ =~= s.take(j as int) + seq![x] + s.skip(j as int));
    }
}


// ------------------------------------------------------------------
// The filter semantics
// ------------------------------------------------------------------

/// Whether any participant-level filter is present (these force the join to
/// the participants table).
pub open spec fn part_filter_present(p: SearchParams) -> bool {
    ||| p.racer_number is Some
    ||| p.racer_name is Some
    ||| p.racer_class is Some
    ||| p.place_number is Some
}

/// Whether one participant row satisfies every present participant-level
/// filter: exact racer number and class and finishing place, substring match
/// for the racer name.
pub open spec fn part_matches(pt: RaceParticipantRecord, p: SearchParams) -> bool {
    &&& match p.racer_number {
        Some(n) => pt.racer_number == Some(n),
        None => true,
    }
    &&& match p.racer_name {
        Some(name) => match pt.racer_name {
            Some(pn) => contains_seq(pn@, name@),
            None => false,
        },
        None => true,
    }
    &&& match p.racer_class {
        Some(c) => pt.racer_class_number == Some(c),
        None => true,
    }
    &&& match p.place_number {
        Some(pl) => pt.place_number == Some(pl),
        None => true,
    }
}

/// Whether a race row satisfies every present race-level filter: exact match
/// for identifiers and codes, inclusive ranges for dates, payouts and
/// readings; a row without the compared column never matches a range.
pub open spec fn race_level_matches(r: RaceRecord, p: SearchParams) -> bool {
    &&& match p.date_from {
        Some(d) => lex_le(d@, r.race_date@),
        None => true,
    }
    &&& match p.date_to {
        Some(d) => lex_le(r.race_date@, d@),
        None => true,
    }
    &&& match p.venue_code {
        Some(v) => r.venue_code@ == v@,
        None => true,
    }
    &&& match p.race_grade {
        Some(g) => r.race_grade_number == Some(g),
        None => true,
    }
    &&& match p.race_number {
        Some(n) => r.race_number == n,
        None => true,
    }
    &&& match p.min_trifecta_payout {
        Some(m) => match r.trifecta_payout {
            Some(v) => v >= m,
            None => false,
        },
        None => true,
    }
    &&& match p.max_trifecta_payout {
        Some(m) => match r.trifecta_payout {
            Some(v) => v <= m,
            None => false,
        },
        None => true,
    }
    &&& match p.min_win_payout {
        Some(m) => match r.win_payout {
            Some(v) => v >= m,
            None => false,
        },
        None => true,
    }
    &&& match p.min_wind {
        Some(m) => match r.race_wind {
            Some(v) => v >= m,
            None => false,
        },
        None => true,
    }
    &&& match p.max_wind {
        Some(m) => match r.race_wind {
            Some(v) => v <= m,
            None => false,
        },
        None => true,
    }
    &&& match p.min_wave {
        Some(m) => match r.race_wave {
            Some(v) => v >= m,
            None => false,
        },
        None => true,
    }
    &&& match p.max_wave {
        Some(m) => match r.race_wave {
            Some(v) => v <= m,
            None => false,
        },
        None => true,
    }
    &&& match p.min_temperature {
        Some(m) => match r.race_temperature {
            Some(v) => v >= m,
            None => false,
        },
        None => true,
    }
    &&& match p.max_temperature {
        Some(m) => match r.race_temperature {
            Some(v) => v <= m,
            None => false,
        },
        None => true,
    }
    &&& match p.winner_boat_number {
        Some(b) => r.winner_boat_number == Some(b),
        None => true,
    }
}

/// Whether a race satisfies the whole filter bag: every race-level filter,
/// and — when a participant-level filter is present — some one participant
/// of the race satisfying all participant-level filters together.
pub open spec fn race_matches(
    r: RaceRecord,
    parts: Seq<RaceParticipantRecord>,
    p: SearchParams,
) -> bool {
    &&& race_level_matches(r, p)
    &&& (part_filter_present(p) ==> exists|k: int|
        0 <= k < parts.len() && (#[trigger] parts[k]).race_id == r.id && part_matches(
            parts[k],
            p,
        ))
}

/// The races satisfying the filter bag, in table order.
pub open spec fn spec_filter_races(
    races: Seq<RaceRecord>,
    parts: Seq<RaceParticipantRecord>,
    p: SearchParams,
) -> Seq<RaceRecord>
    decreases races.len(),
{
    if races.len() == 0 {
        Seq::empty()
    } else {
        spec_filter_races(races.drop_last(), parts, p) + (if race_matches(
            races.last(),
            parts,
            p,
        ) {
            seq![races.last()]
        } else {
            Seq::empty()
        })
    }
}

/// The first `limit` entries; a negative limit means no limit.
pub open spec fn spec_limit_races(s: Seq<RaceRecord>, limit: int) -> Seq<RaceRecord> {
    if limit < 0 || limit >= s.len() {
        s
    } else {
        s.take(limit)
    }
}

/// The whole search pipeline: filter, order by date descending then venue
/// then race number, and cut at the result limit (default 100).
pub open spec fn spec_search_races(st: Store, p: SearchParams) -> Seq<RaceRecord> {
    let matched = spec_filter_races(st.races@, st.participants@, p);
    spec_limit_races(
        spec_sort_races(matched, matched.len() as int, true),
        match p.limit {
            Some(l) => l as int,
            None => 100,
        },
    )
}

/// The participants belonging to one race, in table order.
pub open spec fn spec_parts_of_race(parts: Seq<RaceParticipantRecord>, race_id: i64) -> Seq<
    RaceParticipantRecord,
>
    decreases parts.len(),
{
    if parts.len() == 0 {
        Seq::empty()
    } else {
        spec_parts_of_race(parts.drop_last(), race_id) + (if parts.last().race_id == race_id {
            seq![parts.last()]
        } else {
            Seq::empty()
        })
    }
}

/// The participants of one race ordered by boat number.
pub open spec fn spec_race_parts_sorted(st: Store, race_id: i64) -> Seq<RaceParticipantRecord> {
    let f = spec_parts_of_race(st.participants@, race_id);
    spec_sort_parts(f, f.len() as int)
}

// ------------------------------------------------------------------
// Deciding the filters
// ------------------------------------------------------------------

/// Decides [`part_matches`].
fn part_matches_exec(pt: &RaceParticipantRecord, p: &SearchParams) -> (r: bool)
    ensures
        r == part_matches(*pt, *p),
{
    let num_ok = match &p.racer_number {
        Some(n) => match pt.racer_number {
            Some(m) => m == *n,
            None => false,
        },
        None => true,
    };
    if !num_ok {
        return false;
    }
    let name_ok = match &p.racer_name {
        Some(name) => match &pt.racer_name {
            Some(pn) => str_contains(pn.as_str(), name.as_str()),
            None => false,
        },
        None => true,
    };
    if !name_ok {
        return false;
    }
    let class_ok = match &p.racer_class {
        Some(c) => match pt.racer_class_number {
            Some(m) => m == *c,
            None => false,
        },
        None => true,
    };
    if !class_ok {
        return false;
    }
    match &p.place_number {
        Some(pl) => match pt.place_number {
            Some(m) => m == *pl,
            None => false,
        },
        None => true,
    }
}

/// Decides [`race_level_matches`].
fn race_level_matches_exec(r: &RaceRecord, p: &SearchParams) -> (res: bool)
    ensures
        res == race_level_matches(*r, *p),
{
    let ok = match &p.date_from {
        Some(d) => crate::textutil::str_le(d, &r.race_date),
        None => true,
    };
    if !ok {
        return false;
    }
    let ok = match &p.date_to {
        Some(d) => crate::textutil::str_le(&r.race_date, d),
        None => true,
    };
    if !ok {
        return false;
    }
    let ok = match &p.venue_code {
        Some(v) => str_eq(r.venue_code.as_str(), v.as_str()),
        None => true,
    };
    if !ok {
        return false;
    }
    let ok = match &p.race_grade {
        Some(g) => match r.race_grade_number {
            Some(m) => m == *g,
            None => false,
        },
        None => true,
    };
    if !ok {
        return false;
    }
    let ok = match &p.race_number {
        Some(n) => r.race_number == *n,
        None => true,
    };
    if !ok {
        return false;
    }
    let ok = match &p.min_trifecta_payout {
        Some(m) => match r.trifecta_payout {
            Some(v) => v >= *m,
            None => false,
        },
        None => true,
    };
    if !ok {
        return false;
    }
    let ok = match &p.max_trifecta_payout {
        Some(m) => match r.trifecta_payout {
            Some(v) => v <= *m,
            None => false,
        },
        None => true,
    };
    if !ok {
        return false;
    }
    let ok = match &p.min_win_payout {
        Some(m) => match r.win_payout {
            Some(v) => v >= *m,
            None => false,
        },
        None => true,
    };
    if !ok {
        return false;
    }
    let ok = match &p.min_wind {
        Some(m) => match r.race_wind {
            Some(v) => v >= *m,
            None => false,
        },
        None => true,
    };
    if !ok {
        return false;
    }
    let ok = match &p.max_wind {
        Some(m) => match r.race_wind {
            Some(v) => v <= *m,
            None => false,
        },
        None => true,
    };
    if !ok {
        return false;
    }
    let ok = match &p.min_wave {
        Some(m) => match r.race_wave {
            Some(v) => v >= *m,
            None => false,
        },
        None => true,
    };
    if !ok {
        return false;
    }
    let ok = match &p.max_wave {
        Some(m) => match r.race_wave {
            Some(v) => v <= *m,
            None => false,
        },
        None => true,
    };
    if !ok {
        return false;
    }
    let ok = match &p.min_temperature {
        Some(m) => match r.race_temperature {
            Some(v) => v >= *m,
            None => false,
        },
        None => true,
    };
    if !ok {
        return false;
    }
    let ok = match &p.max_temperature {
        Some(m) => match r.race_temperature {
            Some(v) => v <= *m,
            None => false,
        },
        None => true,
    };
    if !ok {
        return false;
    }
    match &p.winner_boat_number {
        Some(b) => match r.winner_boat_number {
            Some(m) => m == *b,
            None => false,
        },
        None => true,
    }
}

/// Decides whether some participant of the race satisfies every present
/// participant-level filter.
fn has_matching_part(
    parts: &Vec<RaceParticipantRecord>,
    race_id: i64,
    p: &SearchParams,
) -> (r: bool)
    ensures
        r == exists|k: int|
            0 <= k < parts@.len() && (#[trigger] parts@[k]).race_id == race_id && part_matches(
                parts@[k],
                *p,
            ),
{
    let mut k: usize = 0;
    while k < parts.len()
        invariant
            k <= parts@.len(),
            forall|q: int|
                0 <= q < k ==> !((#[trigger] parts@[q]).race_id == race_id && part_matches(
                    parts@[q],
                    *p,
                )),
        decreases parts@.len() - k,
    {
        if parts[k].race_id == race_id && part_matches_exec(&parts[k], p) {
            return true;
        }
        k = k + 1;
    }
    false
}

/// Decides [`race_matches`].
fn race_matches_exec(
    r: &RaceRecord,
    parts: &Vec<RaceParticipantRecord>,
    p: &SearchParams,
) -> (res: bool)
    ensures
        res == race_matches(*r, parts@, *p),
{
    if !race_level_matches_exec(r, p) {
        return false;
    }
    let join_needed = match (&p.racer_number, &p.racer_name, &p.racer_class, &p.place_number) {
        (None, None, None, None) => false,
        _ => true,
    };
    if !join_needed {
        proof {
            assert(!part_filter_present(*p));
        }
        return true;
    }
    has_matching_part(parts, r.id, p)
}


// ------------------------------------------------------------------
// Equivalence is preserved by the ordering (it reads only preserved fields)
// ------------------------------------------------------------------

proof fn lemma_insert_race_eqv(
    s1: Seq<RaceRecord>,
    s2: Seq<RaceRecord>,
    x1: RaceRecord,
    x2: RaceRecord,
    desc: bool,
)
    requires
        crate::store::races_eqv(s1, s2),
        crate::store::race_eqv(x1, x2),
    ensures
        crate::store::races_eqv(spec_insert_race(s1, x1, desc), spec_insert_race(s2, x2, desc)),
        spec_insert_race(s1, x1, desc).len() == s1.len() + 1,
    decreases s1.len(),
{
    if s1.len() == 0 {
    } else {
        assert(crate::store::race_eqv(s1[0], s2[0]));
        if (if desc {
            race_before(x1, s1[0])
        } else {
            race_before_asc(x1, s1[0])
        }) {
        } else {
            let r1 = s1.subrange(1, s1.len() as int);
            let r2 = s2.subrange(1, s2.len() as int);
            assert(crate::store::races_eqv(r1, r2)) by {
                assert(forall|q: int|
                    0 <= q < r1.len() ==> crate::store::race_eqv(#[trigger] r1[q], r2[q]));
            }
            lemma_insert_race_eqv(r1, r2, x1, x2, desc);
        }
    }
}

proof fn lemma_sort_races_eqv(s1: Seq<RaceRecord>, s2: Seq<RaceRecord>, k: int, desc: bool)
    requires
        crate::store::races_eqv(s1, s2),
        0 <= k <= s1.len(),
    ensures
        crate::store::races_eqv(
            spec_sort_races(s1, k, desc),
            spec_sort_races(s2, k, desc),
        ),
        spec_sort_races(s1, k, desc).len() == k,
    decreases k,
{
    if k > 0 {
        lemma_sort_races_eqv(s1, s2, k - 1, desc);
        assert(crate::store::race_eqv(s1[k - 1], s2[k - 1]));
        lemma_insert_race_eqv(
            spec_sort_races(s1, k - 1, desc),
            spec_sort_races(s2, k - 1, desc),
            s1[k - 1],
            s2[k - 1],
            desc,
        );
    }
}

proof fn lemma_sort_races_len(s: Seq<RaceRecord>, k: int, desc: bool)
    requires
        0 <= k,
    ensures
        spec_sort_races(s, k, desc).len() == k,
    decreases k,
{
    if k > 0 {
        lemma_sort_races_len(s, k - 1, desc);
        lemma_insert_race_len(spec_sort_races(s, k - 1, desc), s[k - 1], desc);
    }
}

proof fn lemma_insert_race_len(s: Seq<RaceRecord>, x: RaceRecord, desc: bool)
    ensures
        spec_insert_race(s, x, desc).len() == s.len() + 1,
    decreases s.len(),
{
    if s.len() > 0 {
        if (if desc {
            race_before(x, s[0])
        } else {
            race_before_asc(x, s[0])
        }) {
        } else {
            lemma_insert_race_len(s.subrange(1, s.len() as int), x, desc);
        }
    }
}

proof fn lemma_sort_parts_len(s: Seq<RaceParticipantRecord>, k: int)
    requires
        0 <= k,
    ensures
        spec_sort_parts(s, k).len() == k,
    decreases k,
{
    if k > 0 {
        lemma_sort_parts_len(s, k - 1);
        lemma_insert_part_len(spec_sort_parts(s, k - 1), s[k - 1]);
    }
}

proof fn lemma_insert_part_len(s: Seq<RaceParticipantRecord>, x: RaceParticipantRecord)
    ensures
        spec_insert_part(s, x).len() == s.len() + 1,
    decreases s.len(),
{
    if s.len() > 0 && !(x.boat_number < s[0].boat_number) {
        lemma_insert_part_len(s.subrange(1, s.len() as int), x);
    }
}

// ------------------------------------------------------------------
// The search itself
// ------------------------------------------------------------------

impl Store {
    /// The participants of one race, ordered by boat number.
    pub fn parts_of_race_sorted(&self, race_id: i64) -> (r: Vec<RaceParticipantRecord>)
        ensures
            r@ == spec_race_parts_sorted(*self, race_id),
    {
        let mut f: Vec<RaceParticipantRecord> = Vec::new();
        let mut i: usize = 0;
        proof {
            assert(self.participants@.take(0) =~= Seq::<RaceParticipantRecord>::empty());
        }
        while i < self.participants.len()
            invariant
                i <= self.participants@.len(),
                f@ == spec_parts_of_race(self.participants@.take(i as int), race_id),
            decreases self.participants@.len() - i,
        {
            proof {
                assert(self.participants@.take(i as int + 1).drop_last() =~= self.participants@.take(
                    i as int,
                ));
                assert(self.participants@.take(i as int + 1).last() == self.participants@[i as int]);
            }
            if self.participants[i].race_id == race_id {
                f.push(clone_participant(&self.participants[i]));
                proof {
                    assert(f@ =~= spec_parts_of_race(
                        self.participants@.take(i as int + 1),
                        race_id,
                    ));
                }
            } else {
                proof {
                    assert(f@ =~= spec_parts_of_race(
                        self.participants@.take(i as int + 1),
                        race_id,
                    ));
                }
            }
            i = i + 1;
        }
        proof {
            assert(self.participants@.take(self.participants@.len() as int)
                =~= self.participants@);
        }
        let flen = f.len();
        proof {
            assert(f@.len() == flen);
        }
        let ghost fseq = f@;
        let mut sorted: Vec<RaceParticipantRecord> = Vec::new();
        let mut k: usize = 0;
        while f.len() > 0
            invariant
                fseq.len() <= usize::MAX,
                k + f@.len() == fseq.len(),
                f@ == fseq.skip(k as int),
                sorted@ == spec_sort_parts(fseq, k as int),
            decreases f@.len(),
        {
            let x = f.remove(0);
            proof {
                assert(x == fseq.skip(k as int)[0]);
                assert(x == fseq[k as int]);
                assert(f@ =~= fseq.skip(k as int + 1));
            }
            insert_part_sorted(&mut sorted, x);
            k = k + 1;
        }
        sorted
    }

    /// Compound search: applies every present filter (AND-ed), orders the
    /// races by date descending then venue then race number, cuts at the
    /// result limit (100 when absent, none when negative), and pairs each
    /// race with all of its participants ordered by boat number.
    pub fn search_races_advanced(&self, params: &SearchParams) -> (r: Vec<
        (RaceRecord, Vec<RaceParticipantRecord>),
    >)
        requires
            self.wf(),
        ensures
            ({
                let sel = spec_search_races(*self, *params);
                &&& r@.len() == sel.len()
                &&& forall|i: int|
                    0 <= i < r@.len() ==> crate::store::race_eqv((#[trigger] r@[i]).0, sel[i])
                        && r@[i].1@ == spec_race_parts_sorted(*self, sel[i].id)
            }),
    {
        let ghost specfilter = spec_filter_races(self.races@, self.participants@, *params);
        let mut matched: Vec<RaceRecord> = Vec::new();
        let mut i: usize = 0;
        proof {
            assert(self.races@.take(0) =~= Seq::<RaceRecord>::empty());
        }
        while i < self.races.len()
            invariant
                self.wf(),
                i <= self.races@.len(),
                crate::store::races_eqv(
                    matched@,
                    spec_filter_races(self.races@.take(i as int), self.participants@, *params),
                ),
            decreases self.races@.len() - i,
        {
            proof {
                assert(self.races@.take(i as int + 1).drop_last() =~= self.races@.take(i as int));
                assert(self.races@.take(i as int + 1).last() == self.races@[i as int]);
            }
            let ghost prev = spec_filter_races(
                self.races@.take(i as int),
                self.participants@,
                *params,
            );
            if race_matches_exec(&self.races[i], &self.participants, params) {
                matched.push(clone_race_record(&self.races[i]));
                proof {
                    assert(spec_filter_races(
                        self.races@.take(i as int + 1),
                        self.participants@,
                        *params,
                    ) =~= prev + seq![self.races@[i as int]]);
                    assert(forall|q: int|
                        0 <= q < matched@.len() ==> crate::store::race_eqv(
                            #[trigger] matched@[q],
                            (prev + seq![self.races@[i as int]])[q],
                        ));
                }
            } else {
                proof {
                    assert(spec_filter_races(
                        self.races@.take(i as int + 1),
                        self.participants@,
                        *params,
                    ) =~= prev);
                }
            }
            i = i + 1;
        }
        proof {
            assert(self.races@.take(self.races@.len() as int) =~= self.races@);
        }
        let mlen = matched.len();
        proof {
            assert(matched@.len() == mlen);
        }
        let ghost mseq = matched@;
        let mut sorted: Vec<RaceRecord> = Vec::new();
        let mut k: usize = 0;
        while matched.len() > 0
            invariant
                mseq.len() <= usize::MAX,
                k + matched@.len() == mseq.len(),
                matched@ == mseq.skip(k as int),
                sorted@ == spec_sort_races(mseq, k as int, true),
            decreases matched@.len(),
        {
            let x = matched.remove(0);
            proof {
                assert(x == mseq.skip(k as int)[0]);
                assert(x == mseq[k as int]);
                assert(matched@ =~= mseq.skip(k as int + 1));
            }
            insert_race_sorted(&mut sorted, x, true);
            k = k + 1;
        }
        proof {
            assert(crate::store::races_eqv(mseq, specfilter));
            lemma_sort_races_eqv(mseq, specfilter, mseq.len() as int, true);
        }
        let lim: i32 = match params.limit {
            Some(l) => l,
            None => 100,
        };
        if lim >= 0 && (lim as usize) < sorted.len() {
            sorted.truncate(lim as usize);
        }
        let ghost sel = spec_search_races(*self, *params);
        proof {
            lemma_sort_races_len(specfilter, specfilter.len() as int, true);
            assert(crate::store::races_eqv(sorted@, sel)) by {
                let full1 = spec_sort_races(mseq, mseq.len() as int, true);
                let full2 = spec_sort_races(specfilter, specfilter.len() as int, true);
                if lim >= 0 && (lim as int) < full1.len() {
                    assert(forall|q: int|
                        0 <= q < sorted@.len() ==> crate::store::race_eqv(
                            #[trigger] sorted@[q],
                            sel[q],
                        ));
                } else {
                    assert(sorted@ == full1);
                }
            }
        }
        let mut out: Vec<(RaceRecord, Vec<RaceParticipantRecord>)> = Vec::new();
        let mut q: usize = 0;
        let ghost sseq = sorted@;
        while sorted.len() > 0
            invariant
                self.wf(),
                sseq.len() <= usize::MAX,
                q + sorted@.len() == sseq.len(),
                sorted@ == sseq.skip(q as int),
                crate::store::races_eqv(sseq, sel),
                out@.len() == q,
                forall|t: int|
                    0 <= t < q ==> crate::store::race_eqv((#[trigger] out@[t]).0, sel[t])
                        && out@[t].1@ == spec_race_parts_sorted(*self, sel[t].id),
            decreases sorted@.len(),
        {
            let x = sorted.remove(0);
            proof {
                assert(x == sseq.skip(q as int)[0]);
                assert(x == sseq[q as int]);
                assert(sorted@ =~= sseq.skip(q as int + 1));
                assert(crate::store::race_eqv(x, sel[q as int]));
            }
            let parts = self.parts_of_race_sorted(x.id);
            out.push((x, parts));
            q = q + 1;
        }
        proof {
            assert(sseq.len() == sel.len());
        }
        out
    }
}


// ------------------------------------------------------------------
// Convenience entry points: one filter group each
// ------------------------------------------------------------------

/// A filter bag with only a racer number (and a limit).
pub open spec fn spec_only_racer(n: i32, limit: Option<i32>) -> SearchParams {
    SearchParams {
        racer_number: Some(n),
        racer_name: None,
        racer_class: None,
        date_from: None,
        date_to: None,
        venue_code: None,
        race_grade: None,
        race_number: None,
        min_trifecta_payout: None,
        max_trifecta_payout: None,
        min_win_payout: None,
        min_wind: None,
        max_wind: None,
        min_wave: None,
        max_wave: None,
        min_temperature: None,
        max_temperature: None,
        winner_boat_number: None,
        place_number: None,
        limit: limit,
    }
}

/// The all-absent filter bag with a limit.
pub open spec fn spec_no_filters(limit: Option<i32>) -> SearchParams {
    SearchParams { racer_number: None, ..spec_only_racer(0, limit) }
}

/// A filter bag with only a racer-name substring (and a limit).
pub open spec fn spec_only_racer_name(name: String, limit: Option<i32>) -> SearchParams {
    SearchParams { racer_name: Some(name), ..spec_no_filters(limit) }
}

/// A filter bag with only a racer class (and a limit).
pub open spec fn spec_only_class(c: i32, limit: Option<i32>) -> SearchParams {
    SearchParams { racer_class: Some(c), ..spec_no_filters(limit) }
}

/// A filter bag with only a date range (and a limit).
pub open spec fn spec_only_date_range(from: String, to: String, limit: Option<i32>) -> SearchParams {
    SearchParams { date_from: Some(from), date_to: Some(to), ..spec_no_filters(limit) }
}

/// A filter bag with only a venue code (and a limit).
pub open spec fn spec_only_venue(v: String, limit: Option<i32>) -> SearchParams {
    SearchParams { venue_code: Some(v), ..spec_no_filters(limit) }
}

impl Store {
    /// Search by racer number: one filter group, delegated to the general
    /// builder.
    pub fn search_races_by_racer(&self, racer_number: i32, limit: Option<i32>) -> (r: Vec<
        (RaceRecord, Vec<RaceParticipantRecord>),
    >)
        requires
            self.wf(),
        ensures
            ({
                let sel = spec_search_races(*self, spec_only_racer(racer_number, limit));
                &&& r@.len() == sel.len()
                &&& forall|i: int|
                    0 <= i < r@.len() ==> crate::store::race_eqv((#[trigger] r@[i]).0, sel[i])
                        && r@[i].1@ == spec_race_parts_sorted(*self, sel[i].id)
            }),
    {
        let mut p = SearchParams::default();
        p.racer_number = Some(racer_number);
        p.limit = limit;
        proof {
            assert(p == spec_only_racer(racer_number, limit));
        }
        self.search_races_advanced(&p)
    }

    /// Search by racer-name substring: one filter group, delegated to the
    /// general builder.
    pub fn search_races_by_racer_name(&self, racer_name: String, limit: Option<i32>) -> (r: Vec<
        (RaceRecord, Vec<RaceParticipantRecord>),
    >)
        requires
            self.wf(),
        ensures
            ({
                let sel = spec_search_races(*self, spec_only_racer_name(racer_name, limit));
                &&& r@.len() == sel.len()
                &&& forall|i: int|
                    0 <= i < r@.len() ==> crate::store::race_eqv((#[trigger] r@[i]).0, sel[i])
                        && r@[i].1@ == spec_race_parts_sorted(*self, sel[i].id)
            }),
    {
        let ghost namev = racer_name;
        let mut p = SearchParams::default();
        p.racer_name = Some(racer_name);
        p.limit = limit;
        proof {
            assert(p == spec_only_racer_name(namev, limit));
        }
        self.search_races_advanced(&p)
    }

    /// Search by racer class: one filter group, delegated to the general
    /// builder.
    pub fn search_races_by_class(&self, racer_class: i32, limit: Option<i32>) -> (r: Vec<
        (RaceRecord, Vec<RaceParticipantRecord>),
    >)
        requires
            self.wf(),
        ensures
            ({
                let sel = spec_search_races(*self, spec_only_class(racer_class, limit));
                &&& r@.len() == sel.len()
                &&& forall|i: int|
                    0 <= i < r@.len() ==> crate::store::race_eqv((#[trigger] r@[i]).0, sel[i])
                        && r@[i].1@ == spec_race_parts_sorted(*self, sel[i].id)
            }),
    {
        let mut p = SearchParams::default();
        p.racer_class = Some(racer_class);
        p.limit = limit;
        proof {
            assert(p == spec_only_class(racer_class, limit));
        }
        self.search_races_advanced(&p)
    }

    /// Search by date range (inclusive on both ends): one filter group,
    /// delegated to the general builder.
    pub fn search_races_by_date_range(
        &self,
        date_from: String,
        date_to: String,
        limit: Option<i32>,
    ) -> (r: Vec<(RaceRecord, Vec<RaceParticipantRecord>)>)
        requires
            self.wf(),
        ensures
            ({
                let sel = spec_search_races(*self, spec_only_date_range(date_from, date_to, limit));
                &&& r@.len() == sel.len()
                &&& forall|i: int|
                    0 <= i < r@.len() ==> crate::store::race_eqv((#[trigger] r@[i]).0, sel[i])
                        && r@[i].1@ == spec_race_parts_sorted(*self, sel[i].id)
            }),
    {
        let ghost fv = date_from;
        let ghost tv = date_to;
        let mut p = SearchParams::default();
        p.date_from = Some(date_from);
        p.date_to = Some(date_to);
        p.limit = limit;
        proof {
            assert(p == spec_only_date_range(fv, tv, limit));
        }
        self.search_races_advanced(&p)
    }

    /// Search by venue code: one filter group, delegated to the general
    /// builder.
    pub fn search_races_by_venue(&self, venue_code: String, limit: Option<i32>) -> (r: Vec<
        (RaceRecord, Vec<RaceParticipantRecord>),
    >)
        requires
            self.wf(),
        ensures
            ({
                let sel = spec_search_races(*self, spec_only_venue(venue_code, limit));
                &&& r@.len() == sel.len()
                &&& forall|i: int|
                    0 <= i < r@.len() ==> crate::store::race_eqv((#[trigger] r@[i]).0, sel[i])
                        && r@[i].1@ == spec_race_parts_sorted(*self, sel[i].id)
            }),
    {
        let ghost vv = venue_code;
        let mut p = SearchParams::default();
        p.venue_code = Some(venue_code);
        p.limit = limit;
        proof {
            assert(p == spec_only_venue(vv, limit));
        }
        self.search_races_advanced(&p)
    }
}

// ------------------------------------------------------------------
// Soundness of the search (the round-trip law)
// ------------------------------------------------------------------

proof fn lemma_filter_races_mem(
    races: Seq<RaceRecord>,
    parts: Seq<RaceParticipantRecord>,
    p: SearchParams,
    y: RaceRecord,
)
    requires
        race_in(spec_filter_races(races, parts, p), y),
    ensures
        race_matches(y, parts, p),
    decreases races.len(),
{
    if races.len() > 0 {
        let f = spec_filter_races(races, parts, p);
        let fprev = spec_filter_races(races.drop_last(), parts, p);
        let i = choose|i: int| 0 <= i < f.len() && f[i] == y;
        if i < fprev.len() {
            assert(race_in(fprev, y)) by {
                assert(fprev[i] == y);
            }
            lemma_filter_races_mem(races.drop_last(), parts, p, y);
        } else {
            assert(race_matches(races.last(), parts, p));
            assert(y == races.last());
        }
    }
}

/// Law: every race a search returns satisfies every present filter.  In
/// particular, a search that filters on a racer number returns only races
/// with a participant carrying that number — each still paired with all
/// participants of the race, not just that boat.
pub proof fn lemma_search_sound(st: Store, p: SearchParams, i: int)
    requires
        0 <= i < spec_search_races(st, p).len(),
    ensures
        race_matches(spec_search_races(st, p)[i], st.participants@, p),
        p.racer_number is Some ==> exists|k: int|
            0 <= k < st.participants@.len() && (#[trigger] st.participants@[k]).race_id
                == spec_search_races(st, p)[i].id && st.participants@[k].racer_number
                == Some(p.racer_number->0),
{
    let matched = spec_filter_races(st.races@, st.participants@, p);
    let sorted = spec_sort_races(matched, matched.len() as int, true);
    let sel = spec_search_races(st, p);
    let y = sel[i];
    assert(race_in(sorted, y)) by {
        match p.limit {
            Some(l) => {
                if l >= 0 && l < sorted.len() {
                    assert(sel == sorted.take(l as int));
                    assert(sorted[i] == y);
                } else {
                    assert(sel == sorted);
                }
            },
            None => {
                if 100 < sorted.len() {
                    assert(sel == sorted.take(100));
                    assert(sorted[i] == y);
                } else {
                    assert(sel == sorted);
                }
            },
        }
    }
    lemma_sort_races_mem(matched, matched.len() as int, true, y);
    assert(race_in(matched, y)) by {
        let q = choose|q: int| 0 <= q < matched.len() && matched[q] == y;
        assert(matched[q] == y);
    }
    lemma_filter_races_mem(st.races@, st.participants@, p, y);
    if p.racer_number is Some {
        assert(part_filter_present(p));
        let k = choose|k: int|
            0 <= k < st.participants@.len() && (#[trigger] st.participants@[k]).race_id == y.id
                && part_matches(st.participants@[k], p);
        assert(st.participants@[k].racer_number == Some(p.racer_number->0));
    }
}


// ------------------------------------------------------------------
// High-payout search and payout statistics
// ------------------------------------------------------------------

/// Whether a payout kind is one the search accepts.
pub open spec fn valid_payout_kind(kind: Seq<char>) -> bool {
    kind == "win"@ || kind == "trifecta"@ || kind == "exacta"@ || kind == "place"@
}

/// The compared payout column of a race for one kind.
pub open spec fn payout_of(r: RaceRecord, kind: Seq<char>) -> Option<i32> {
    if kind == "win"@ {
        r.win_payout
    } else if kind == "trifecta"@ {
        r.trifecta_payout
    } else if kind == "exacta"@ {
        r.exacta_payout
    } else if kind == "place"@ {
        r.place_payout_max
    } else {
        None
    }
}

/// Whether a race qualifies: it retains a result payload and its payout of
/// the kind reaches the minimum.
pub open spec fn high_matches(r: RaceRecord, min: i32, kind: Seq<char>) -> bool {
    &&& r.result_payload is Some
    &&& match payout_of(r, kind) {
        Some(v) => v >= min,
        None => false,
    }
}

/// The qualifying races, in table order.
pub open spec fn spec_high_filter(
    races: Seq<RaceRecord>,
    min: i32,
    kind: Seq<char>,
) -> Seq<RaceRecord>
    decreases races.len(),
{
    if races.len() == 0 {
        Seq::empty()
    } else {
        spec_high_filter(races.drop_last(), min, kind) + (if high_matches(
            races.last(),
            min,
            kind,
        ) {
            seq![races.last()]
        } else {
            Seq::empty()
        })
    }
}

/// The payout used for ordering, absent compared lowest.
pub open spec fn payout_rank(r: RaceRecord, kind: Seq<char>) -> int {
    match payout_of(r, kind) {
        Some(v) => v as int,
        None => i32::MIN - 1,
    }
}

/// Inserts a race into a list ordered by the kind's payout, highest first.
pub open spec fn spec_insert_high(
    s: Seq<RaceRecord>,
    x: RaceRecord,
    kind: Seq<char>,
) -> Seq<RaceRecord>
    decreases s.len(),
{
    if s.len() == 0 {
        seq![x]
    } else if payout_rank(x, kind) > payout_rank(s[0], kind) {
        seq![x] + s
    } else {
        seq![s[0]] + spec_insert_high(s.subrange(1, s.len() as int), x, kind)
    }
}

/// Insertion sort by descending payout over the first `k` races.
pub open spec fn spec_sort_high(s: Seq<RaceRecord>, k: int, kind: Seq<char>) -> Seq<RaceRecord>
    decreases k,
{
    if k <= 0 {
        Seq::empty()
    } else {
        spec_insert_high(spec_sort_high(s, k - 1, kind), s[k - 1], kind)
    }
}

/// The raw result record a race row reconstructs: its key, timestamps and
/// the retained result payload.
pub open spec fn spec_record_of_race(r: RaceRecord) -> ResultRecord {
    ResultRecord {
        id: r.id,
        date: r.race_date,
        venue_code: r.venue_code,
        race_number: r.race_number,
        payload: match r.result_payload {
            Some(p) => p,
            None => vstd::pervasive::arbitrary(),
        },
        created_at: r.created_at,
        updated_at: r.updated_at,
    }
}

/// The whole high-payout pipeline: filter, order by the kind's payout
/// descending, cut at the limit (default 100).
pub open spec fn spec_high_payout(
    st: Store,
    min: i32,
    kind: Seq<char>,
    limit: Option<i32>,
) -> Seq<RaceRecord> {
    let matched = spec_high_filter(st.races@, min, kind);
    spec_limit_races(
        spec_sort_high(matched, matched.len() as int, kind),
        match limit {
            Some(l) => l as int,
            None => 100,
        },
    )
}

proof fn lemma_insert_high_at(s: Seq<RaceRecord>, x: RaceRecord, j: int, kind: Seq<char>)
    requires
        0 <= j <= s.len(),
        forall|q: int|
            0 <= q < j ==> !(payout_rank(x, kind) > payout_rank(#[trigger] s[q], kind)),
        j < s.len() ==> payout_rank(x, kind) > payout_rank(s[j], kind),
    ensures
        spec_insert_high(s, x, kind) == s.take(j) + seq![x] + s.skip(j),
    decreases j,
{
    if s.len() == 0 {
        assert(s.take(0) + seq![x] + s.skip(0) =~= seq![x]);
    } else if j == 0 {
        assert(s.take(0) + seq![x] + s.skip(0) =~= seq![x] + s);
    } else {
        let rest = s.subrange(1, s.len() as int);
        assert(forall|q: int|
            0 <= q < j - 1 ==> !(payout_rank(x, kind) > payout_rank(#[trigger] rest[q], kind)))
            by {
            assert(forall|q: int| 0 <= q < j - 1 ==> rest[q] == s[q + 1]);
        }
        lemma_insert_high_at(rest, x, j - 1, kind);
        assert(seq![s[0]] + (rest.take(j - 1) + seq![x] + rest.skip(j - 1)) =~= s.take(j)
            + seq![x] + s.skip(j));
    }
}

/// Decides the ordering payout of one race.
fn payout_rank_exec(r: &RaceRecord, kind_tag: u8) -> (v: Option<i32>)
    requires
        kind_tag <= 3,
    ensures
        v == payout_of(
            *r,
            if kind_tag == 0 {
                "win"@
            } else if kind_tag == 1 {
                "trifecta"@
            } else if kind_tag == 2 {
                "exacta"@
            } else {
                "place"@
            },
        ),
{
    proof {
        reveal_strlit("win");
        reveal_strlit("trifecta");
        reveal_strlit("exacta");
        reveal_strlit("place");
        assert("win"@.len() == 3);
        assert("trifecta"@.len() == 8);
        assert("exacta"@.len() == 6);
        assert("place"@.len() == 5);
    }
    if kind_tag == 0 {
        r.win_payout
    } else if kind_tag == 1 {
        r.trifecta_payout
    } else if kind_tag == 2 {
        r.exacta_payout
    } else {
        r.place_payout_max
    }
}

impl Store {
    /// Searches the races whose payout of the given kind reaches the
    /// minimum, ordered by that payout descending, cut at the limit
    /// (default 100); each hit reconstructs the raw result record.  A kind
    /// other than win, trifecta, exacta or place is rejected.
    pub fn search_high_payout_races(
        &self,
        min_payout: i32,
        payout_type: &str,
        limit: Option<i32>,
    ) -> (r: Result<Vec<ResultRecord>, StoreError>)
        requires
            self.wf(),
        ensures
            r is Ok <==> valid_payout_kind(payout_type@),
            r matches Err(e) ==> e == StoreError::UnknownPayoutType,
            r matches Ok(out) ==> ({
                let sel = spec_high_payout(*self, min_payout, payout_type@, limit);
                &&& out@.len() == sel.len()
                &&& forall|i: int|
                    0 <= i < out@.len() ==> crate::records::result_record_eqv(
                        #[trigger] out@[i],
                        spec_record_of_race(sel[i]),
                    )
            }),
    {
        proof {
            reveal_strlit("win");
            reveal_strlit("trifecta");
            reveal_strlit("exacta");
            reveal_strlit("place");
        }
        let kind_tag: u8 = if str_eq(payout_type, "win") {
            0
        } else if str_eq(payout_type, "trifecta") {
            1
        } else if str_eq(payout_type, "exacta") {
            2
        } else if str_eq(payout_type, "place") {
            3
        } else {
            return Err(StoreError::UnknownPayoutType);
        };
        let ghost kind = payout_type@;
        let mut matched: Vec<RaceRecord> = Vec::new();
        let mut i: usize = 0;
        proof {
            assert(self.races@.take(0) =~= Seq::<RaceRecord>::empty());
        }
        while i < self.races.len()
            invariant
                kind_tag <= 3,
                kind == if kind_tag == 0 {
                    "win"@
                } else if kind_tag == 1 {
                    "trifecta"@
                } else if kind_tag == 2 {
                    "exacta"@
                } else {
                    "place"@
                },
                i <= self.races@.len(),
                crate::store::races_eqv(
                    matched@,
                    spec_high_filter(self.races@.take(i as int), min_payout, kind),
                ),
                forall|q: int|
                    0 <= q < matched@.len() ==> (#[trigger] matched@[q]).result_payload is Some,
            decreases self.races@.len() - i,
        {
            proof {
                assert(self.races@.take(i as int + 1).drop_last() =~= self.races@.take(i as int));
                assert(self.races@.take(i as int + 1).last() == self.races@[i as int]);
            }
            let ghost prev = spec_high_filter(self.races@.take(i as int), min_payout, kind);
            let has_payload = match &self.races[i].result_payload {
                Some(_) => true,
                None => false,
            };
            let qualifies = has_payload && (match payout_rank_exec(&self.races[i], kind_tag) {
                Some(v) => v >= min_payout,
                None => false,
            });
            if qualifies {
                matched.push(clone_race_record(&self.races[i]));
                proof {
                    assert(high_matches(self.races@[i as int], min_payout, kind));
                    assert(spec_high_filter(
                        self.races@.take(i as int + 1),
                        min_payout,
                        kind,
                    ) =~= prev + seq![self.races@[i as int]]);
                    assert(forall|q: int|
                        0 <= q < matched@.len() ==> crate::store::race_eqv(
                            #[trigger] matched@[q],
                            (prev + seq![self.races@[i as int]])[q],
                        ));
                }
            } else {
                proof {
                    assert(!high_matches(self.races@[i as int], min_payout, kind));
                    assert(spec_high_filter(self.races@.take(i as int + 1), min_payout, kind)
                        =~= prev);
                }
            }
            i = i + 1;
        }
        proof {
            assert(self.races@.take(self.races@.len() as int) =~= self.races@);
        }
        let ghost specfilter = spec_high_filter(self.races@, min_payout, kind);
        let mlen = matched.len();
        proof {
            assert(matched@.len() == mlen);
        }
        let ghost mseq = matched@;
        let mut sorted: Vec<RaceRecord> = Vec::new();
        let mut k: usize = 0;
        while matched.len() > 0
            invariant
                kind_tag <= 3,
                kind == if kind_tag == 0 {
                    "win"@
                } else if kind_tag == 1 {
                    "trifecta"@
                } else if kind_tag == 2 {
                    "exacta"@
                } else {
                    "place"@
                },
                mseq.len() <= usize::MAX,
                k + matched@.len() == mseq.len(),
                matched@ == mseq.skip(k as int),
                sorted@ == spec_sort_high(mseq, k as int, kind),
                forall|q: int|
                    0 <= q < mseq.len() ==> (#[trigger] mseq[q]).result_payload is Some,
                forall|q: int|
                    0 <= q < sorted@.len() ==> (#[trigger] sorted@[q]).result_payload is Some,
            decreases matched@.len(),
        {
            let x = matched.remove(0);
            proof {
                assert(x == mseq.skip(k as int)[0]);
                assert(x == mseq[k as int]);
                assert(matched@ =~= mseq.skip(k as int + 1));
            }
            let ghost s0 = sorted@;
            let mut j: usize = 0;
            loop
                invariant
                    kind_tag <= 3,
                    kind == if kind_tag == 0 {
                        "win"@
                    } else if kind_tag == 1 {
                        "trifecta"@
                    } else if kind_tag == 2 {
                        "exacta"@
                    } else {
                        "place"@
                    },
                    j <= s0.len(),
                    sorted@ == s0,
                    forall|q: int|
                        0 <= q < j ==> !(payout_rank(x, kind) > payout_rank(
                            #[trigger] s0[q],
                            kind,
                        )),
                ensures
                    j <= s0.len(),
                    sorted@ == s0,
                    forall|q: int|
                        0 <= q < j ==> !(payout_rank(x, kind) > payout_rank(
                            #[trigger] s0[q],
                            kind,
                        )),
                    j < s0.len() ==> payout_rank(x, kind) > payout_rank(s0[j as int], kind),
                decreases s0.len() - j,
            {
                if j == sorted.len() {
                    break ;
                }
                let xv = payout_rank_exec(&x, kind_tag);
                let yv = payout_rank_exec(&sorted[j], kind_tag);
                let gt = match (xv, yv) {
                    (Some(a), Some(b)) => a > b,
                    (Some(_), None) => true,
                    (None, _) => false,
                };
                if gt {
                    break ;
                }
                j = j + 1;
            }
            proof {
                lemma_insert_high_at(s0, x, j as int, kind);
            }
            sorted.insert(j, x);
            proof {
                assert(sorted@ =~= s0.take(j as int) + seq![x] + s0.skip(j as int));
                assert(x.result_payload is Some) by {
                    assert(mseq[k as int].result_payload is Some);
                }
            }
            k = k + 1;
        }
        proof {
            assert(crate::store::races_eqv(mseq, specfilter));
            lemma_sort_high_eqv(mseq, specfilter, mseq.len() as int, kind);
        }
        let lim: i32 = match limit {
            Some(l) => l,
            None => 100,
        };
        if lim >= 0 && (lim as usize) < sorted.len() {
            sorted.truncate(lim as usize);
        }
        let ghost sel = spec_high_payout(*self, min_payout, kind, limit);
        proof {
            lemma_sort_high_len(specfilter, specfilter.len() as int, kind);
            assert(crate::store::races_eqv(sorted@, sel));
        }
        let mut out: Vec<ResultRecord> = Vec::new();
        let mut q: usize = 0;
        let ghost sseq = sorted@;
        proof {
            assert forall|t: int| 0 <= t < sseq.len() implies (
            #[trigger] sseq[t]).result_payload is Some by {
                assert(crate::store::race_eqv(sseq[t], sel[t]));
            }
        }
        while sorted.len() > 0
            invariant
                sseq.len() <= usize::MAX,
                q + sorted@.len() == sseq.len(),
                sorted@ == sseq.skip(q as int),
                crate::store::races_eqv(sseq, sel),
                out@.len() == q,
                forall|t: int|
                    0 <= t < sseq.len() ==> (#[trigger] sseq[t]).result_payload is Some,
                forall|t: int|
                    0 <= t < q ==> crate::records::result_record_eqv(
                        #[trigger] out@[t],
                        spec_record_of_race(sel[t]),
                    ),
            decreases sorted@.len(),
        {
            let x = sorted.remove(0);
            proof {
                assert(x == sseq.skip(q as int)[0]);
                assert(x == sseq[q as int]);
                assert(sorted@ =~= sseq.skip(q as int + 1));
                assert(crate::store::race_eqv(x, sel[q as int]));
            }
            let payload = match x.result_payload {
                Some(p) => p,
                None => {
                    proof {
                        assert(false);
                    }
                    crate::records::ResultPayload::Undecoded(String::new())
                },
            };
            out.push(
                ResultRecord {
                    id: x.id,
                    date: x.race_date,
                    venue_code: x.venue_code,
                    race_number: x.race_number,
                    payload,
                    created_at: x.created_at,
                    updated_at: x.updated_at,
                },
            );
            q = q + 1;
        }
        Ok(out)
    }
}

proof fn lemma_insert_high_eqv(
    s1: Seq<RaceRecord>,
    s2: Seq<RaceRecord>,
    x1: RaceRecord,
    x2: RaceRecord,
    kind: Seq<char>,
)
    requires
        crate::store::races_eqv(s1, s2),
        crate::store::race_eqv(x1, x2),
    ensures
        crate::store::races_eqv(
            spec_insert_high(s1, x1, kind),
            spec_insert_high(s2, x2, kind),
        ),
        spec_insert_high(s1, x1, kind).len() == s1.len() + 1,
    decreases s1.len(),
{
    if s1.len() == 0 {
    } else {
        assert(crate::store::race_eqv(s1[0], s2[0]));
        if payout_rank(x1, kind) > payout_rank(s1[0], kind) {
        } else {
            let r1 = s1.subrange(1, s1.len() as int);
            let r2 = s2.subrange(1, s2.len() as int);
            assert(crate::store::races_eqv(r1, r2)) by {
                assert(forall|q: int|
                    0 <= q < r1.len() ==> crate::store::race_eqv(#[trigger] r1[q], r2[q]));
            }
            lemma_insert_high_eqv(r1, r2, x1, x2, kind);
        }
    }
}

proof fn lemma_sort_high_eqv(s1: Seq<RaceRecord>, s2: Seq<RaceRecord>, k: int, kind: Seq<char>)
    requires
        crate::store::races_eqv(s1, s2),
        0 <= k <= s1.len(),
    ensures
        crate::store::races_eqv(spec_sort_high(s1, k, kind), spec_sort_high(s2, k, kind)),
        spec_sort_high(s1, k, kind).len() == k,
    decreases k,
{
    if k > 0 {
        lemma_sort_high_eqv(s1, s2, k - 1, kind);
        assert(crate::store::race_eqv(s1[k - 1], s2[k - 1]));
        lemma_insert_high_eqv(
            spec_sort_high(s1, k - 1, kind),
            spec_sort_high(s2, k - 1, kind),
            s1[k - 1],
            s2[k - 1],
            kind,
        );
    }
}

proof fn lemma_sort_high_len(s: Seq<RaceRecord>, k: int, kind: Seq<char>)
    requires
        0 <= k,
    ensures
        spec_sort_high(s, k, kind).len() == k,
    decreases k,
{
    if k > 0 {
        lemma_sort_high_len(s, k - 1, kind);
        lemma_insert_high_len(spec_sort_high(s, k - 1, kind), s[k - 1], kind);
    }
}

proof fn lemma_insert_high_len(s: Seq<RaceRecord>, x: RaceRecord, kind: Seq<char>)
    ensures
        spec_insert_high(s, x, kind).len() == s.len() + 1,
    decreases s.len(),
{
    if s.len() > 0 && !(payout_rank(x, kind) > payout_rank(s[0], kind)) {
        lemma_insert_high_len(s.subrange(1, s.len() as int), x, kind);
    }
}

// ------------------------------------------------------------------
// Payout statistics
// ------------------------------------------------------------------

/// The payout statistics over the first `k` races: sums, counts and maxima
/// over the races that carry a trifecta payout (the win columns are read
/// from that same subset).
pub open spec fn spec_payout_stats(races: Seq<RaceRecord>, k: int) -> crate::records::PayoutStats
    decreases k,
{
    if k <= 0 {
        crate::records::PayoutStats {
            trifecta_sum: 0,
            trifecta_count: 0,
            max_trifecta: None,
            win_sum: 0,
            win_count: 0,
            max_win: None,
        }
    } else {
        let prev = spec_payout_stats(races, k - 1);
        match races[k - 1].trifecta_payout {
            None => prev,
            Some(t) => crate::records::PayoutStats {
                trifecta_sum: (prev.trifecta_sum + t) as i64,
                trifecta_count: (prev.trifecta_count + 1) as i64,
                max_trifecta: match prev.max_trifecta {
                    None => Some(t),
                    Some(m) => if t > m {
                        Some(t)
                    } else {
                        Some(m)
                    },
                },
                win_sum: match races[k - 1].win_payout {
                    Some(w) => (prev.win_sum + w) as i64,
                    None => prev.win_sum,
                },
                win_count: match races[k - 1].win_payout {
                    Some(_) => (prev.win_count + 1) as i64,
                    None => prev.win_count,
                },
                max_win: match races[k - 1].win_payout {
                    Some(w) => match prev.max_win {
                        None => Some(w),
                        Some(m) => if w > m {
                            Some(w)
                        } else {
                            Some(m)
                        },
                    },
                    None => prev.max_win,
                },
            },
        }
    }
}

proof fn lemma_stats_bounds(races: Seq<RaceRecord>, k: int)
    requires
        0 <= k <= 0x7FFF_FFFF,
    ensures
        0 <= spec_payout_stats(races, k).trifecta_count <= k,
        0 <= spec_payout_stats(races, k).win_count <= k,
        -(k * 0x8000_0000) <= spec_payout_stats(races, k).trifecta_sum <= k * 0x8000_0000,
        -(k * 0x8000_0000) <= spec_payout_stats(races, k).win_sum <= k * 0x8000_0000,
    decreases k,
{
    if k > 0 {
        lemma_stats_bounds(races, k - 1);
    }
}

impl Store {
    /// Aggregates the payout statistics over the races carrying a trifecta
    /// payout: integer sums and counts (so a caller can form exact
    /// averages) and the maxima.
    pub fn get_payout_statistics(&self) -> (r: crate::records::PayoutStats)
        requires
            self.races@.len() <= 0x7FFF_FFFF,
        ensures
            r == spec_payout_stats(self.races@, self.races@.len() as int),
    {
        let mut stats = crate::records::PayoutStats {
            trifecta_sum: 0,
            trifecta_count: 0,
            max_trifecta: None,
            win_sum: 0,
            win_count: 0,
            max_win: None,
        };
        let mut i: usize = 0;
        while i < self.races.len()
            invariant
                self.races@.len() <= 0x7FFF_FFFF,
                i <= self.races@.len(),
                stats == spec_payout_stats(self.races@, i as int),
            decreases self.races@.len() - i,
        {
            proof {
                lemma_stats_bounds(self.races@, i as int);
            }
            match self.races[i].trifecta_payout {
                None => {},
                Some(t) => {
                    stats.trifecta_sum = stats.trifecta_sum + (t as i64);
                    stats.trifecta_count = stats.trifecta_count + 1;
                    stats.max_trifecta = match stats.max_trifecta {
                        None => Some(t),
                        Some(m) => if t > m {
                            Some(t)
                        } else {
                            Some(m)
                        },
                    };
                    match self.races[i].win_payout {
                        Some(w) => {
                            stats.win_sum = stats.win_sum + (w as i64);
                            stats.win_count = stats.win_count + 1;
                            stats.max_win = match stats.max_win {
                                None => Some(w),
                                Some(m) => if w > m {
                                    Some(w)
                                } else {
                                    Some(m)
                                },
                            };
                        },
                        None => {},
                    }
                },
            }
            i = i + 1;
        }
        stats
    }
}


// ------------------------------------------------------------------
// Rendering the filters as one parameterized statement
//
// Each present filter becomes one tagged predicate — its piece of statement
// text with a placeholder, and its bound value.  The statement's text is,
// by contract, a function of which filters are present, never of their
// values: every value stands in the bind list.
// ------------------------------------------------------------------

/// One bound value of a parameterized statement.
pub enum BindValue {
    Int(i64),
    Text(String),
}

/// The mathematical view of a bound value.
pub enum BindView {
    Int(int),
    Text(Seq<char>),
}

/// The view of one bound value.
pub open spec fn bind_view(b: BindValue) -> BindView {
    match b {
        BindValue::Int(i) => BindView::Int(i as int),
        BindValue::Text(s) => BindView::Text(s@),
    }
}

/// The views of a bind list.
pub open spec fn bind_views(bs: Seq<BindValue>) -> Seq<BindView> {
    bs.map_values(|b: BindValue| bind_view(b))
}

/// Which filters of a bag are present: the only thing the statement text
/// may depend on.
pub struct QueryShape {
    pub racer_number: bool,
    pub racer_name: bool,
    pub racer_class: bool,
    pub place_number: bool,
    pub date_from: bool,
    pub date_to: bool,
    pub venue_code: bool,
    pub race_grade: bool,
    pub race_number: bool,
    pub min_trifecta_payout: bool,
    pub max_trifecta_payout: bool,
    pub min_win_payout: bool,
    pub min_wind: bool,
    pub max_wind: bool,
    pub min_wave: bool,
    pub max_wave: bool,
    pub min_temperature: bool,
    pub max_temperature: bool,
    pub winner_boat_number: bool,
}

/// The presence shape of a filter bag.
pub open spec fn shape_of(p: SearchParams) -> QueryShape {
    QueryShape {
        racer_number: p.racer_number is Some,
        racer_name: p.racer_name is Some,
        racer_class: p.racer_class is Some,
        place_number: p.place_number is Some,
        date_from: p.date_from is Some,
        date_to: p.date_to is Some,
        venue_code: p.venue_code is Some,
        race_grade: p.race_grade is Some,
        race_number: p.race_number is Some,
        min_trifecta_payout: p.min_trifecta_payout is Some,
        max_trifecta_payout: p.max_trifecta_payout is Some,
        min_win_payout: p.min_win_payout is Some,
        min_wind: p.min_wind is Some,
        max_wind: p.max_wind is Some,
        min_wave: p.min_wave is Some,
        max_wave: p.max_wave is Some,
        min_temperature: p.min_temperature is Some,
        max_temperature: p.max_temperature is Some,
        winner_boat_number: p.winner_boat_number is Some,
    }
}

/// Whether the shape forces the join to the participants table.
pub open spec fn shape_needs_join(s: QueryShape) -> bool {
    s.racer_number || s.racer_name || s.racer_class || s.place_number
}

/// Whether predicate slot `i` of the shape is present.
pub open spec fn slot_present(s: QueryShape, i: int) -> bool {
    if i == 0 {
        s.racer_number
    } else if i == 1 {
        s.racer_name
    } else if i == 2 {
        s.racer_class
    } else if i == 3 {
        s.place_number
    } else if i == 4 {
        s.date_from
    } else if i == 5 {
        s.date_to
    } else if i == 6 {
        s.venue_code
    } else if i == 7 {
        s.race_grade
    } else if i == 8 {
        s.race_number
    } else if i == 9 {
        s.min_trifecta_payout
    } else if i == 10 {
        s.max_trifecta_payout
    } else if i == 11 {
        s.min_win_payout
    } else if i == 12 {
        s.min_wind
    } else if i == 13 {
        s.max_wind
    } else if i == 14 {
        s.min_wave
    } else if i == 15 {
        s.max_wave
    } else if i == 16 {
        s.min_temperature
    } else if i == 17 {
        s.max_temperature
    } else {
        s.winner_boat_number
    }
}

/// The placeholder text of predicate slot `i`: a constant per slot.
pub open spec fn slot_text(i: int) -> Seq<char> {
    if i == 0 {
        " AND rp.racer_number = ?"@
    } else if i == 1 {
        " AND rp.racer_name LIKE ?"@
    } else if i == 2 {
        " AND rp.racer_class_number = ?"@
    } else if i == 3 {
        " AND rp.place_number = ?"@
    } else if i == 4 {
        " AND r.race_date >= ?"@
    } else if i == 5 {
        " AND r.race_date <= ?"@
    } else if i == 6 {
        " AND r.venue_code = ?"@
    } else if i == 7 {
        " AND r.race_grade_number = ?"@
    } else if i == 8 {
        " AND r.race_number = ?"@
    } else if i == 9 {
        " AND r.trifecta_payout >= ?"@
    } else if i == 10 {
        " AND r.trifecta_payout <= ?"@
    } else if i == 11 {
        " AND r.win_payout >= ?"@
    } else if i == 12 {
        " AND r.race_wind >= ?"@
    } else if i == 13 {
        " AND r.race_wind <= ?"@
    } else if i == 14 {
        " AND r.race_wave >= ?"@
    } else if i == 15 {
        " AND r.race_wave <= ?"@
    } else if i == 16 {
        " AND r.race_temperature >= ?"@
    } else if i == 17 {
        " AND r.race_temperature <= ?"@
    } else {
        " AND r.winner_boat_number = ?"@
    }
}

/// The substring pattern a racer-name filter binds.
pub open spec fn like_pattern(name: Seq<char>) -> Seq<char> {
    seq!['%'] + name + seq!['%']
}

/// The value predicate slot `i` binds, when its filter is present.
pub open spec fn slot_bind(p: SearchParams, i: int) -> BindView {
    if i == 0 {
        BindView::Int(p.racer_number->0 as int)
    } else if i == 1 {
        BindView::Text(
            like_pattern(
                match p.racer_name {
                    Some(n) => n@,
                    None => Seq::empty(),
                },
            ),
        )
    } else if i == 2 {
        BindView::Int(p.racer_class->0 as int)
    } else if i == 3 {
        BindView::Int(p.place_number->0 as int)
    } else if i == 4 {
        BindView::Text(
            match p.date_from {
                Some(d) => d@,
                None => Seq::empty(),
            },
        )
    } else if i == 5 {
        BindView::Text(
            match p.date_to {
                Some(d) => d@,
                None => Seq::empty(),
            },
        )
    } else if i == 6 {
        BindView::Text(
            match p.venue_code {
                Some(v) => v@,
                None => Seq::empty(),
            },
        )
    } else if i == 7 {
        BindView::Int(p.race_grade->0 as int)
    } else if i == 8 {
        BindView::Int(p.race_number->0 as int)
    } else if i == 9 {
        BindView::Int(p.min_trifecta_payout->0 as int)
    } else if i == 10 {
        BindView::Int(p.max_trifecta_payout->0 as int)
    } else if i == 11 {
        BindView::Int(p.min_win_payout->0 as int)
    } else if i == 12 {
        BindView::Int(p.min_wind->0 as int)
    } else if i == 13 {
        BindView::Int(p.max_wind->0 as int)
    } else if i == 14 {
        BindView::Int(p.min_wave->0 as int)
    } else if i == 15 {
        BindView::Int(p.max_wave->0 as int)
    } else if i == 16 {
        BindView::Int(p.min_temperature->0 as int)
    } else if i == 17 {
        BindView::Int(p.max_temperature->0 as int)
    } else {
        BindView::Int(p.winner_boat_number->0 as int)
    }
}

/// The text contributed by the first `k` predicate slots of a shape: each
/// present slot appends its placeholder piece, an absent one nothing.
pub open spec fn slots_text(s: QueryShape, k: int) -> Seq<char>
    decreases k,
{
    if k <= 0 {
        Seq::empty()
    } else {
        slots_text(s, k - 1) + (if slot_present(s, k - 1) {
            slot_text(k - 1)
        } else {
            Seq::empty()
        })
    }
}

/// The values bound by the first `k` predicate slots, in slot order.
pub open spec fn slots_binds(p: SearchParams, k: int) -> Seq<BindView>
    decreases k,
{
    if k <= 0 {
        Seq::empty()
    } else {
        slots_binds(p, k - 1) + (if slot_present(shape_of(p), k - 1) {
            seq![slot_bind(p, k - 1)]
        } else {
            Seq::empty()
        })
    }
}

/// The statement text of a shape: one AND-ed placeholder predicate per
/// present filter, the participant join only when a participant-level
/// filter is present, a fixed ordering, and a bound limit.  It is a
/// function of the shape — of filter presence — alone.
pub open spec fn spec_sql_text(s: QueryShape) -> Seq<char> {
    "SELECT DISTINCT r.* FROM races r"@ + (if shape_needs_join(s) {
        " INNER JOIN race_participants rp ON r.id = rp.race_id"@
    } else {
        Seq::<char>::empty()
    }) + " WHERE 1=1"@ + slots_text(s, 19)
        + " ORDER BY r.race_date DESC, r.venue_code, r.race_number LIMIT ?"@
}

/// The bound values of a filter bag, in placeholder order; the limit
/// (default 100) is always the last bind.
pub open spec fn spec_binds(p: SearchParams) -> Seq<BindView> {
    slots_binds(p, 19) + seq![
        BindView::Int(
            match p.limit {
                Some(l) => l as int,
                None => 100,
            },
        ),
    ]
}

proof fn lemma_bind_views_push(bs: Seq<BindValue>, b: BindValue)
    ensures
        bind_views(bs.push(b)) == bind_views(bs).push(bind_view(b)),
{
    assert(bind_views(bs.push(b)) =~= bind_views(bs).push(bind_view(b)));
}

/// A rendered statement: its text and its bound values.
pub struct SqlQuery {
    pub sql: String,
    pub binds: Vec<BindValue>,
}

/// Renders one predicate slot: appends its placeholder piece and pushes its
/// bound value when the filter is present.
fn render_slot(
    sql: &mut String,
    binds: &mut Vec<BindValue>,
    present: bool,
    text: &'static str,
    bind: Option<BindValue>,
    Ghost(p): Ghost<SearchParams>,
    Ghost(k): Ghost<int>,
)
    requires
        0 <= k < 19,
        present == slot_present(shape_of(p), k),
        text@ == slot_text(k),
        present ==> (bind matches Some(b) && bind_view(b) == slot_bind(p, k)),
        old(sql)@ == spec_sql_prefix(shape_of(p)) + slots_text(shape_of(p), k),
        bind_views(old(binds)@) == slots_binds(p, k),
    ensures
        final(sql)@ == spec_sql_prefix(shape_of(p)) + slots_text(shape_of(p), k + 1),
        bind_views(final(binds)@) == slots_binds(p, k + 1),
{
    let ghost sh = shape_of(p);
    let ghost base = spec_sql_prefix(sh);
    if present {
        sql.append(text);
        proof {
            assert((base + slots_text(sh, k)) + slot_text(k) =~= base + (slots_text(sh, k)
                + slot_text(k)));
        }
        match bind {
            Some(b) => {
                proof {
                    lemma_bind_views_push(binds@, b);
                    assert(bind_views(binds@).push(bind_view(b)) =~= slots_binds(p, k) + seq![
                        slot_bind(p, k),
                    ]);
                }
                binds.push(b);
            },
            None => {
                proof {
                    assert(false);
                }
            },
        }
    } else {
        proof {
            assert(slots_text(sh, k + 1) == slots_text(sh, k) + Seq::<char>::empty());
            assert(slots_text(sh, k) + Seq::<char>::empty() =~= slots_text(sh, k));
            assert(slots_binds(p, k + 1) == slots_binds(p, k) + Seq::<BindView>::empty());
            assert(slots_binds(p, k) + Seq::<BindView>::empty() =~= slots_binds(p, k));
        }
    }
}

/// The select clause, join decision and fixed condition head of a shape.
pub open spec fn spec_sql_prefix(s: QueryShape) -> Seq<char> {
    "SELECT DISTINCT r.* FROM races r"@ + (if shape_needs_join(s) {
        " INNER JOIN race_participants rp ON r.id = rp.race_id"@
    } else {
        Seq::<char>::empty()
    }) + " WHERE 1=1"@
}

/// Renders predicate slots for the participant, date, venue and race
/// filters.
#[verifier::rlimit(100)]
fn render_slots_front(p: &SearchParams, sql: &mut String, binds: &mut Vec<BindValue>)
    requires
        old(sql)@ == spec_sql_prefix(shape_of(*p)) + slots_text(shape_of(*p), 0),
        bind_views(old(binds)@) == slots_binds(*p, 0),
    ensures
        final(sql)@ == spec_sql_prefix(shape_of(*p)) + slots_text(shape_of(*p), 9),
        bind_views(final(binds)@) == slots_binds(*p, 9),
{
    let name_bind: Option<BindValue> = match &p.racer_name {
        Some(n) => {
            let mut pat = String::from_str("%");
            pat.append(n.as_str());
            pat.append("%");
            proof {
                reveal_strlit("%");
                assert(pat@ =~= like_pattern(n@));
            }
            Some(BindValue::Text(pat))
        },
        None => None,
    };
    render_slot(
        sql,
        binds,
        p.racer_number.is_some(),
        " AND rp.racer_number = ?",
        match p.racer_number {
            Some(x) => Some(BindValue::Int(x as i64)),
            None => None,
        },
        Ghost(*p),
        Ghost(0),
    );
    render_slot(
        sql,
        binds,
        name_bind.is_some(),
        " AND rp.racer_name LIKE ?",
        name_bind,
        Ghost(*p),
        Ghost(1),
    );
    render_slot(
        sql,
        binds,
        p.racer_class.is_some(),
        " AND rp.racer_class_number = ?",
        match p.racer_class {
            Some(x) => Some(BindValue::Int(x as i64)),
            None => None,
        },
        Ghost(*p),
        Ghost(2),
    );
    render_slot(
        sql,
        binds,
        p.place_number.is_some(),
        " AND rp.place_number = ?",
        match p.place_number {
            Some(x) => Some(BindValue::Int(x as i64)),
            None => None,
        },
        Ghost(*p),
        Ghost(3),
    );
    render_slot(
        sql,
        binds,
        p.date_from.is_some(),
        " AND r.race_date >= ?",
        match &p.date_from {
            Some(x) => Some(BindValue::Text(x.clone())),
            None => None,
        },
        Ghost(*p),
        Ghost(4),
    );
    render_slot(
        sql,
        binds,
        p.date_to.is_some(),
        " AND r.race_date <= ?",
        match &p.date_to {
            Some(x) => Some(BindValue::Text(x.clone())),
            None => None,
        },
        Ghost(*p),
        Ghost(5),
    );
    render_slot(
        sql,
        binds,
        p.venue_code.is_some(),
        " AND r.venue_code = ?",
        match &p.venue_code {
            Some(x) => Some(BindValue::Text(x.clone())),
            None => None,
        },
        Ghost(*p),
        Ghost(6),
    );
    render_slot(
        sql,
        binds,
        p.race_grade.is_some(),
        " AND r.race_grade_number = ?",
        match p.race_grade {
            Some(x) => Some(BindValue::Int(x as i64)),
            None => None,
        },
        Ghost(*p),
        Ghost(7),
    );
    render_slot(
        sql,
        binds,
        p.race_number.is_some(),
        " AND r.race_number = ?",
        match p.race_number {
            Some(x) => Some(BindValue::Int(x as i64)),
            None => None,
        },
        Ghost(*p),
        Ghost(8),
    );
}

/// Renders predicate slots for the payout, weather and winner filters.
#[verifier::rlimit(100)]
fn render_slots_back(p: &SearchParams, sql: &mut String, binds: &mut Vec<BindValue>)
    requires
        old(sql)@ == spec_sql_prefix(shape_of(*p)) + slots_text(shape_of(*p), 9),
        bind_views(old(binds)@) == slots_binds(*p, 9),
    ensures
        final(sql)@ == spec_sql_prefix(shape_of(*p)) + slots_text(shape_of(*p), 19),
        bind_views(final(binds)@) == slots_binds(*p, 19),
{
    render_slot(
        sql,
        binds,
        p.min_trifecta_payout.is_some(),
        " AND r.trifecta_payout >= ?",
        match p.min_trifecta_payout {
            Some(x) => Some(BindValue::Int(x as i64)),
            None => None,
        },
        Ghost(*p),
        Ghost(9),
    );
    render_slot(
        sql,
        binds,
        p.max_trifecta_payout.is_some(),
        " AND r.trifecta_payout <= ?",
        match p.max_trifecta_payout {
            Some(x) => Some(BindValue::Int(x as i64)),
            None => None,
        },
        Ghost(*p),
        Ghost(10),
    );
    render_slot(
        sql,
        binds,
        p.min_win_payout.is_some(),
        " AND r.win_payout >= ?",
        match p.min_win_payout {
            Some(x) => Some(BindValue::Int(x as i64)),
            None => None,
        },
        Ghost(*p),
        Ghost(11),
    );
    render_slot(
        sql,
        binds,
        p.min_wind.is_some(),
        " AND r.race_wind >= ?",
        match p.min_wind {
            Some(x) => Some(BindValue::Int(x)),
            None => None,
        },
        Ghost(*p),
        Ghost(12),
    );
    render_slot(
        sql,
        binds,
        p.max_wind.is_some(),
        " AND r.race_wind <= ?",
        match p.max_wind {
            Some(x) => Some(BindValue::Int(x)),
            None => None,
        },
        Ghost(*p),
        Ghost(13),
    );
    render_slot(
        sql,
        binds,
        p.min_wave.is_some(),
        " AND r.race_wave >= ?",
        match p.min_wave {
            Some(x) => Some(BindValue::Int(x)),
            None => None,
        },
        Ghost(*p),
        Ghost(14),
    );
    render_slot(
        sql,
        binds,
        p.max_wave.is_some(),
        " AND r.race_wave <= ?",
        match p.max_wave {
            Some(x) => Some(BindValue::Int(x)),
            None => None,
        },
        Ghost(*p),
        Ghost(15),
    );
    render_slot(
        sql,
        binds,
        p.min_temperature.is_some(),
        " AND r.race_temperature >= ?",
        match p.min_temperature {
            Some(x) => Some(BindValue::Int(x)),
            None => None,
        },
        Ghost(*p),
        Ghost(16),
    );
    render_slot(
        sql,
        binds,
        p.max_temperature.is_some(),
        " AND r.race_temperature <= ?",
        match p.max_temperature {
            Some(x) => Some(BindValue::Int(x)),
            None => None,
        },
        Ghost(*p),
        Ghost(17),
    );
    render_slot(
        sql,
        binds,
        p.winner_boat_number.is_some(),
        " AND r.winner_boat_number = ?",
        match p.winner_boat_number {
            Some(x) => Some(BindValue::Int(x as i64)),
            None => None,
        },
        Ghost(*p),
        Ghost(18),
    );
}

/// Renders the filter bag as one parameterized statement: select, the join
/// only when a participant-level filter is present, one AND-ed placeholder
/// predicate per present filter, the fixed ordering and the bound limit.
/// The text is a function of the presence shape alone; every value stands
/// in the bind list, in placeholder order.
pub fn render_search_query(p: &SearchParams) -> (q: SqlQuery)
    ensures
        q.sql@ == spec_sql_text(shape_of(*p)),
        bind_views(q.binds@) == spec_binds(*p),
{
    let ghost sh = shape_of(*p);
    let mut sql = String::from_str("SELECT DISTINCT r.* FROM races r");
    let join_needed = match (&p.racer_number, &p.racer_name, &p.racer_class, &p.place_number) {
        (None, None, None, None) => false,
        _ => true,
    };
    if join_needed {
        sql.append(" INNER JOIN race_participants rp ON r.id = rp.race_id");
    }
    sql.append(" WHERE 1=1");
    proof {
        assert(join_needed == shape_needs_join(sh));
        assert(sql@ =~= spec_sql_prefix(sh));
        assert(sql@ == spec_sql_prefix(sh) + slots_text(sh, 0)) by {
            assert(spec_sql_prefix(sh) + slots_text(sh, 0) =~= spec_sql_prefix(sh));
        }
    }
    let mut binds: Vec<BindValue> = Vec::new();
    proof {
        assert(bind_views(binds@) =~= slots_binds(*p, 0));
    }
    render_slots_front(p, &mut sql, &mut binds);
    render_slots_back(p, &mut sql, &mut binds);
    sql.append(" ORDER BY r.race_date DESC, r.venue_code, r.race_number LIMIT ?");
    let lim: i32 = match p.limit {
        Some(l) => l,
        None => 100,
    };
    proof {
        lemma_bind_views_push(binds@, BindValue::Int(lim as i64));
        assert(bind_views(binds@).push(BindView::Int(lim as int)) =~= spec_binds(*p));
        assert((spec_sql_prefix(sh) + slots_text(sh, 19))
            + " ORDER BY r.race_date DESC, r.venue_code, r.race_number LIMIT ?"@
            =~= spec_sql_text(sh));
    }
    binds.push(BindValue::Int(lim as i64));
    SqlQuery { sql, binds }
}


// ------------------------------------------------------------------
// The full export read
// ------------------------------------------------------------------

impl Store {
    /// All races in export order — date, venue and race number ascending —
    /// each paired with all of its participants ordered by boat number.
    pub fn get_all_races_with_participants(&self) -> (r: Vec<
        (RaceRecord, Vec<RaceParticipantRecord>),
    >)
        requires
            self.wf(),
        ensures
            ({
                let sorted = spec_sort_races(self.races@, self.races@.len() as int, false);
                &&& r@.len() == self.races@.len()
                &&& forall|i: int|
                    0 <= i < r@.len() ==> crate::store::race_eqv((#[trigger] r@[i]).0, sorted[i])
                        && r@[i].1@ == spec_race_parts_sorted(*self, sorted[i].id)
            }),
    {
        let mut all: Vec<RaceRecord> = Vec::new();
        let mut i: usize = 0;
        while i < self.races.len()
            invariant
                i <= self.races@.len(),
                all@.len() == i,
                forall|q: int|
                    0 <= q < i ==> crate::store::race_eqv(#[trigger] all@[q], self.races@[q]),
            decreases self.races@.len() - i,
        {
            all.push(clone_race_record(&self.races[i]));
            i = i + 1;
        }
        let alen = all.len();
        proof {
            assert(all@.len() == alen);
            assert(crate::store::races_eqv(all@, self.races@));
        }
        let ghost aseq = all@;
        let mut sorted: Vec<RaceRecord> = Vec::new();
        let mut k: usize = 0;
        while all.len() > 0
            invariant
                aseq.len() <= usize::MAX,
                k + all@.len() == aseq.len(),
                all@ == aseq.skip(k as int),
                sorted@ == spec_sort_races(aseq, k as int, false),
            decreases all@.len(),
        {
            let x = all.remove(0);
            proof {
                assert(x == aseq.skip(k as int)[0]);
                assert(x == aseq[k as int]);
                assert(all@ =~= aseq.skip(k as int + 1));
            }
            insert_race_sorted(&mut sorted, x, false);
            k = k + 1;
        }
        let ghost specsorted = spec_sort_races(self.races@, self.races@.len() as int, false);
        proof {
            lemma_sort_races_eqv(aseq, self.races@, aseq.len() as int, false);
            lemma_sort_races_len(self.races@, self.races@.len() as int, false);
            assert(crate::store::races_eqv(sorted@, specsorted));
        }
        let mut out: Vec<(RaceRecord, Vec<RaceParticipantRecord>)> = Vec::new();
        let mut q: usize = 0;
        let ghost sseq = sorted@;
        while sorted.len() > 0
            invariant
                self.wf(),
                sseq.len() <= usize::MAX,
                q + sorted@.len() == sseq.len(),
                sorted@ == sseq.skip(q as int),
                crate::store::races_eqv(sseq, specsorted),
                specsorted == spec_sort_races(self.races@, self.races@.len() as int, false),
                out@.len() == q,
                forall|t: int|
                    0 <= t < q ==> crate::store::race_eqv((#[trigger] out@[t]).0, specsorted[t])
                        && out@[t].1@ == spec_race_parts_sorted(*self, specsorted[t].id),
            decreases sorted@.len(),
        {
            let x = sorted.remove(0);
            proof {
                assert(x == sseq.skip(q as int)[0]);
                assert(x == sseq[q as int]);
                assert(sorted@ =~= sseq.skip(q as int + 1));
                assert(crate::store::race_eqv(x, specsorted[q as int]));
            }
            let parts = self.parts_of_race_sorted(x.id);
            out.push((x, parts));
            q = q + 1;
        }
        out
    }
}


// ------------------------------------------------------------------
// Raw-record reads from the normalized rows
// ------------------------------------------------------------------

/// The races retaining a result payload, in table order.
pub open spec fn spec_races_with_result(races: Seq<RaceRecord>) -> Seq<RaceRecord>
    decreases races.len(),
{
    if races.len() == 0 {
        Seq::empty()
    } else {
        spec_races_with_result(races.drop_last()) + (if races.last().result_payload is Some {
            seq![races.last()]
        } else {
            Seq::empty()
        })
    }
}

/// The races retaining a program payload, in table order.
pub open spec fn spec_races_with_program(races: Seq<RaceRecord>) -> Seq<RaceRecord>
    decreases races.len(),
{
    if races.len() == 0 {
        Seq::empty()
    } else {
        spec_races_with_program(races.drop_last()) + (if races.last().program_payload is Some {
            seq![races.last()]
        } else {
            Seq::empty()
        })
    }
}

/// The raw program record a race row reconstructs.
pub open spec fn spec_program_record_of_race(r: RaceRecord) -> crate::records::ProgramRecord {
    crate::records::ProgramRecord {
        id: r.id,
        date: r.race_date,
        venue_code: r.venue_code,
        race_number: r.race_number,
        payload: match r.program_payload {
            Some(p) => p,
            None => vstd::pervasive::arbitrary(),
        },
        created_at: r.created_at,
        updated_at: r.updated_at,
    }
}

impl Store {
    /// All result records, reconstructed from the races that retain a result
    /// payload, ordered by date, venue and race number ascending.
    pub fn get_all_results(&self) -> (r: Vec<ResultRecord>)
        requires
            self.wf(),
        ensures
            ({
                let f = spec_races_with_result(self.races@);
                let sorted = spec_sort_races(f, f.len() as int, false);
                &&& r@.len() == f.len()
                &&& forall|i: int|
                    0 <= i < r@.len() ==> crate::records::result_record_eqv(
                        #[trigger] r@[i],
                        spec_record_of_race(sorted[i]),
                    )
            }),
    {
        let mut matched: Vec<RaceRecord> = Vec::new();
        let mut i: usize = 0;
        proof {
            assert(self.races@.take(0) =~= Seq::<RaceRecord>::empty());
        }
        while i < self.races.len()
            invariant
                i <= self.races@.len(),
                crate::store::races_eqv(
                    matched@,
                    spec_races_with_result(self.races@.take(i as int)),
                ),
                forall|q: int|
                    0 <= q < matched@.len() ==> (#[trigger] matched@[q]).result_payload is Some,
            decreases self.races@.len() - i,
        {
            proof {
                assert(self.races@.take(i as int + 1).drop_last() =~= self.races@.take(i as int));
                assert(self.races@.take(i as int + 1).last() == self.races@[i as int]);
            }
            let ghost prev = spec_races_with_result(self.races@.take(i as int));
            let has = match &self.races[i].result_payload {
                Some(_) => true,
                None => false,
            };
            if has {
                matched.push(clone_race_record(&self.races[i]));
                proof {
                    assert(spec_races_with_result(self.races@.take(i as int + 1)) =~= prev
                        + seq![self.races@[i as int]]);
                    assert(forall|q: int|
                        0 <= q < matched@.len() ==> crate::store::race_eqv(
                            #[trigger] matched@[q],
                            (prev + seq![self.races@[i as int]])[q],
                        ));
                }
            } else {
                proof {
                    assert(spec_races_with_result(self.races@.take(i as int + 1)) =~= prev);
                }
            }
            i = i + 1;
        }
        proof {
            assert(self.races@.take(self.races@.len() as int) =~= self.races@);
        }
        let ghost specfilter = spec_races_with_result(self.races@);
        let mlen = matched.len();
        proof {
            assert(matched@.len() == mlen);
        }
        let ghost mseq = matched@;
        let mut sorted: Vec<RaceRecord> = Vec::new();
        let mut k: usize = 0;
        while matched.len() > 0
            invariant
                mseq.len() <= usize::MAX,
                k + matched@.len() == mseq.len(),
                matched@ == mseq.skip(k as int),
                sorted@ == spec_sort_races(mseq, k as int, false),
                forall|q: int|
                    0 <= q < mseq.len() ==> (#[trigger] mseq[q]).result_payload is Some,
                forall|q: int|
                    0 <= q < sorted@.len() ==> (#[trigger] sorted@[q]).result_payload is Some,
            decreases matched@.len(),
        {
            let x = matched.remove(0);
            proof {
                assert(x == mseq.skip(k as int)[0]);
                assert(x == mseq[k as int]);
                assert(matched@ =~= mseq.skip(k as int + 1));
            }
            let ghost s0 = sorted@;
            insert_race_sorted(&mut sorted, x, false);
            proof {
                lemma_insert_race_keeps_payload(s0, x, false);
            }
            k = k + 1;
        }
        let ghost sel = spec_sort_races(specfilter, specfilter.len() as int, false);
        proof {
            lemma_sort_races_eqv(mseq, specfilter, mseq.len() as int, false);
            lemma_sort_races_len(specfilter, specfilter.len() as int, false);
            assert(crate::store::races_eqv(sorted@, sel));
        }
        let mut out: Vec<ResultRecord> = Vec::new();
        let mut q: usize = 0;
        let ghost sseq = sorted@;
        while sorted.len() > 0
            invariant
                sseq.len() <= usize::MAX,
                q + sorted@.len() == sseq.len(),
                sorted@ == sseq.skip(q as int),
                crate::store::races_eqv(sseq, sel),
                forall|t: int|
                    0 <= t < sseq.len() ==> (#[trigger] sseq[t]).result_payload is Some,
                out@.len() == q,
                forall|t: int|
                    0 <= t < q ==> crate::records::result_record_eqv(
                        #[trigger] out@[t],
                        spec_record_of_race(sel[t]),
                    ),
            decreases sorted@.len(),
        {
            let x = sorted.remove(0);
            proof {
                assert(x == sseq.skip(q as int)[0]);
                assert(x == sseq[q as int]);
                assert(sorted@ =~= sseq.skip(q as int + 1));
                assert(crate::store::race_eqv(x, sel[q as int]));
            }
            let payload = match x.result_payload {
                Some(p) => p,
                None => {
                    proof {
                        assert(false);
                    }
                    crate::records::ResultPayload::Undecoded(String::new())
                },
            };
            out.push(
                ResultRecord {
                    id: x.id,
                    date: x.race_date,
                    venue_code: x.venue_code,
                    race_number: x.race_number,
                    payload,
                    created_at: x.created_at,
                    updated_at: x.updated_at,
                },
            );
            q = q + 1;
        }
        out
    }

    /// All program records, reconstructed from the races that retain a
    /// program payload, ordered by date, venue and race number ascending.
    pub fn get_all_programs(&self) -> (r: Vec<crate::records::ProgramRecord>)
        requires
            self.wf(),
        ensures
            ({
                let f = spec_races_with_program(self.races@);
                let sorted = spec_sort_races(f, f.len() as int, false);
                &&& r@.len() == f.len()
                &&& forall|i: int|
                    0 <= i < r@.len() ==> crate::records::program_record_eqv(
                        #[trigger] r@[i],
                        spec_program_record_of_race(sorted[i]),
                    )
            }),
    {
        let mut matched: Vec<RaceRecord> = Vec::new();
        let mut i: usize = 0;
        proof {
            assert(self.races@.take(0) =~= Seq::<RaceRecord>::empty());
        }
        while i < self.races.len()
            invariant
                i <= self.races@.len(),
                crate::store::races_eqv(
                    matched@,
                    spec_races_with_program(self.races@.take(i as int)),
                ),
                forall|q: int|
                    0 <= q < matched@.len() ==> (#[trigger] matched@[q]).program_payload is Some,
            decreases self.races@.len() - i,
        {
            proof {
                assert(self.races@.take(i as int + 1).drop_last() =~= self.races@.take(i as int));
                assert(self.races@.take(i as int + 1).last() == self.races@[i as int]);
            }
            let ghost prev = spec_races_with_program(self.races@.take(i as int));
            let has = match &self.races[i].program_payload {
                Some(_) => true,
                None => false,
            };
            if has {
                matched.push(clone_race_record(&self.races[i]));
                proof {
                    assert(spec_races_with_program(self.races@.take(i as int + 1)) =~= prev
                        + seq![self.races@[i as int]]);
                    assert(forall|q: int|
                        0 <= q < matched@.len() ==> crate::store::race_eqv(
                            #[trigger] matched@[q],
                            (prev + seq![self.races@[i as int]])[q],
                        ));
                }
            } else {
                proof {
                    assert(spec_races_with_program(self.races@.take(i as int + 1)) =~= prev);
                }
            }
            i = i + 1;
        }
        proof {
            assert(self.races@.take(self.races@.len() as int) =~= self.races@);
        }
        let ghost specfilter = spec_races_with_program(self.races@);
        let mlen = matched.len();
        proof {
            assert(matched@.len() == mlen);
        }
        let ghost mseq = matched@;
        let mut sorted: Vec<RaceRecord> = Vec::new();
        let mut k: usize = 0;
        while matched.len() > 0
            invariant
                mseq.len() <= usize::MAX,
                k + matched@.len() == mseq.len(),
                matched@ == mseq.skip(k as int),
                sorted@ == spec_sort_races(mseq, k as int, false),
                forall|q: int|
                    0 <= q < mseq.len() ==> (#[trigger] mseq[q]).program_payload is Some,
                forall|q: int|
                    0 <= q < sorted@.len() ==> (#[trigger] sorted@[q]).program_payload is Some,
            decreases matched@.len(),
        {
            let x = matched.remove(0);
            proof {
                assert(x == mseq.skip(k as int)[0]);
                assert(x == mseq[k as int]);
                assert(matched@ =~= mseq.skip(k as int + 1));
            }
            let ghost s0 = sorted@;
            insert_race_sorted(&mut sorted, x, false);
            proof {
                lemma_insert_race_keeps_program(s0, x, false);
            }
            k = k + 1;
        }
        let ghost sel = spec_sort_races(specfilter, specfilter.len() as int, false);
        proof {
            lemma_sort_races_eqv(mseq, specfilter, mseq.len() as int, false);
            lemma_sort_races_len(specfilter, specfilter.len() as int, false);
            assert(crate::store::races_eqv(sorted@, sel));
        }
        let mut out: Vec<crate::records::ProgramRecord> = Vec::new();
        let mut q: usize = 0;
        let ghost sseq = sorted@;
        while sorted.len() > 0
            invariant
                sseq.len() <= usize::MAX,
                q + sorted@.len() == sseq.len(),
                sorted@ == sseq.skip(q as int),
                crate::store::races_eqv(sseq, sel),
                forall|t: int|
                    0 <= t < sseq.len() ==> (#[trigger] sseq[t]).program_payload is Some,
                out@.len() == q,
                forall|t: int|
                    0 <= t < q ==> crate::records::program_record_eqv(
                        #[trigger] out@[t],
                        spec_program_record_of_race(sel[t]),
                    ),
            decreases sorted@.len(),
        {
            let x = sorted.remove(0);
            proof {
                assert(x == sseq.skip(q as int)[0]);
                assert(x == sseq[q as int]);
                assert(sorted@ =~= sseq.skip(q as int + 1));
                assert(crate::store::race_eqv(x, sel[q as int]));
            }
            let payload = match x.program_payload {
                Some(p) => p,
                None => {
                    proof {
                        assert(false);
                    }
                    crate::records::ProgramPayload::Undecoded(String::new())
                },
            };
            out.push(
                crate::records::ProgramRecord {
                    id: x.id,
                    date: x.race_date,
                    venue_code: x.venue_code,
                    race_number: x.race_number,
                    payload,
                    created_at: x.created_at,
                    updated_at: x.updated_at,
                },
            );
            q = q + 1;
        }
        out
    }
}

/// Insertion keeps every element's retained result payload present.
proof fn lemma_insert_race_keeps_payload(s: Seq<RaceRecord>, x: RaceRecord, desc: bool)
    requires
        forall|q: int| 0 <= q < s.len() ==> (#[trigger] s[q]).result_payload is Some,
        (x.result_payload is Some),
    ensures
        forall|q: int|
            0 <= q < spec_insert_race(s, x, desc).len() ==> (#[trigger] spec_insert_race(
                s,
                x,
                desc,
            )[q]).result_payload is Some,
    decreases s.len(),
{
    lemma_insert_race_len(s, x, desc);
    if s.len() == 0 {
    } else if (if desc {
        race_before(x, s[0])
    } else {
        race_before_asc(x, s[0])
    }) {
    } else {
        let rest = s.subrange(1, s.len() as int);
        assert(forall|q: int| 0 <= q < rest.len() ==> (#[trigger] rest[q]).result_payload is Some);
        lemma_insert_race_keeps_payload(rest, x, desc);
        assert(forall|q: int|
            0 <= q < spec_insert_race(s, x, desc).len() ==> (#[trigger] spec_insert_race(
                s,
                x,
                desc,
            )[q]) == (if q == 0 {
                s[0]
            } else {
                spec_insert_race(rest, x, desc)[q - 1]
            }));
    }
}

/// Insertion keeps every element's retained program payload present.
proof fn lemma_insert_race_keeps_program(s: Seq<RaceRecord>, x: RaceRecord, desc: bool)
    requires
        forall|q: int| 0 <= q < s.len() ==> (#[trigger] s[q]).program_payload is Some,
        (x.program_payload is Some),
    ensures
        forall|q: int|
            0 <= q < spec_insert_race(s, x, desc).len() ==> (#[trigger] spec_insert_race(
                s,
                x,
                desc,
            )[q]).program_payload is Some,
    decreases s.len(),
{
    lemma_insert_race_len(s, x, desc);
    if s.len() == 0 {
    } else if (if desc {
        race_before(x, s[0])
    } else {
        race_before_asc(x, s[0])
    }) {
    } else {
        let rest = s.subrange(1, s.len() as int);
        assert(forall|q: int| 0 <= q < rest.len() ==> (#[trigger] rest[q]).program_payload is Some);
        lemma_insert_race_keeps_program(rest, x, desc);
        assert(forall|q: int|
            0 <= q < spec_insert_race(s, x, desc).len() ==> (#[trigger] spec_insert_race(
                s,
                x,
                desc,
            )[q]) == (if q == 0 {
                s[0]
            } else {
                spec_insert_race(rest, x, desc)[q - 1]
            }));
    }
}

} // verus!
