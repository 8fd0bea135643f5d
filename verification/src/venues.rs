//! Venues and the monthly schedule: the fixed venue-code/name table, the
//! extraction of venue codes, grades and start dates from schedule markup
//! attributes, and the per-venue status summary.

use vstd::prelude::*;
use std::collections::HashMap;
use crate::textutil::{
    all_digits, dec_value, parse_u32, str_starts_with, starts_with,
};

verus! {

broadcast use vstd::std_specs::hash::group_hash_axioms;

/// One scheduled meet: venue, event name, grade, start date and length.
pub struct RaceEvent {
    pub venue_id: u32,
    pub venue_name: String,
    pub event_name: String,
    pub grade: String,
    pub start_date: String,
    pub duration_days: u32,
}

/// The parsed monthly schedule.
pub struct MonthlySchedule {
    pub year_month: String,
    pub events: Vec<RaceEvent>,
}

/// A venue holding races today.
pub struct RaceVenue {
    pub place_id: u32,
    pub place_name: String,
    pub races: Vec<u32>,
}

/// The venues active on one date.
pub struct ActiveRace {
    pub date: String,
    pub venues: Vec<RaceVenue>,
}

/// One venue's status on a date: active with its races, or idle.
pub struct VenueStatus {
    pub place_id: u32,
    pub place_name: String,
    pub is_active: bool,
    pub races: Vec<u32>,
}

/// The status of all venues on one date.
pub struct AllVenuesResponse {
    pub date: String,
    pub venues: Vec<VenueStatus>,
}

/// One progress notification of a bulk scrape.
pub struct BulkProgressPayload {
    pub message: String,
    pub current: usize,
    pub total: usize,
    pub date: String,
    pub place_number: u32,
    pub race_number: u32,
    pub status: String,
}

// ------------------------------------------------------------------
// The venue-code / name table
// ------------------------------------------------------------------

/// The name of venue `code` (meaningful for 1 ..= 24).
pub open spec fn venue_name(code: int) -> Seq<char> {
    if code == 1 {
        "桐生"@
    } else if code == 2 {
        "戸田"@
    } else if code == 3 {
        "江戸川"@
    } else if code == 4 {
        "平和島"@
    } else if code == 5 {
        "多摩川"@
    } else if code == 6 {
        "浜名湖"@
    } else if code == 7 {
        "蒲郡"@
    } else if code == 8 {
        "常滑"@
    } else if code == 9 {
        "津"@
    } else if code == 10 {
        "三国"@
    } else if code == 11 {
        "びわこ"@
    } else if code == 12 {
        "住之江"@
    } else if code == 13 {
        "尼崎"@
    } else if code == 14 {
        "鳴門"@
    } else if code == 15 {
        "丸亀"@
    } else if code == 16 {
        "児島"@
    } else if code == 17 {
        "宮島"@
    } else if code == 18 {
        "徳山"@
    } else if code == 19 {
        "下関"@
    } else if code == 20 {
        "若松"@
    } else if code == 21 {
        "芦屋"@
    } else if code == 22 {
        "福岡"@
    } else if code == 23 {
        "唐津"@
    } else {
        "大村"@
    }
}

/// The name of venue `code` as a fresh string.
pub fn venue_name_of(code: u32) -> (r: String)
    requires
        1 <= code <= 24,
    ensures
        r@ == venue_name(code as int),
{
    let s: &str = if code == 1 {
        "桐生"
    } else if code == 2 {
        "戸田"
    } else if code == 3 {
        "江戸川"
    } else if code == 4 {
        "平和島"
    } else if code == 5 {
        "多摩川"
    } else if code == 6 {
        "浜名湖"
    } else if code == 7 {
        "蒲郡"
    } else if code == 8 {
        "常滑"
    } else if code == 9 {
        "津"
    } else if code == 10 {
        "三国"
    } else if code == 11 {
        "びわこ"
    } else if code == 12 {
        "住之江"
    } else if code == 13 {
        "尼崎"
    } else if code == 14 {
        "鳴門"
    } else if code == 15 {
        "丸亀"
    } else if code == 16 {
        "児島"
    } else if code == 17 {
        "宮島"
    } else if code == 18 {
        "徳山"
    } else if code == 19 {
        "下関"
    } else if code == 20 {
        "若松"
    } else if code == 21 {
        "芦屋"
    } else if code == 22 {
        "福岡"
    } else if code == 23 {
        "唐津"
    } else {
        "大村"
    };
    String::from_str(s)
}

/// The venue-code to venue-name table: exactly the codes 1 ..= 24.
pub fn get_venue_name_map() -> (r: HashMap<u32, String>)
    ensures
        forall|k: u32| r@.contains_key(k) <==> 1 <= k <= 24,
        forall|k: u32| 1 <= k <= 24 ==> (#[trigger] r@[k])@ == venue_name(k as int),
{
    let mut m: HashMap<u32, String> = HashMap::new();
    let mut code: u32 = 1;
    while code <= 24
        invariant
            1 <= code <= 25,
            forall|k: u32| m@.contains_key(k) <==> 1 <= k < code,
            forall|k: u32| 1 <= k < code ==> (#[trigger] m@[k])@ == venue_name(k as int),
        decreases 25 - code,
    {
        let name = venue_name_of(code);
        m.insert(code, name);
        code = code + 1;
    }
    m
}

// ------------------------------------------------------------------
// Attribute extraction for the monthly schedule
// ------------------------------------------------------------------

/// Whether `c` separates query-string segments.
pub open spec fn is_seg_sep(c: char) -> bool {
    c == '?' || c == '&'
}

/// The position of the first segment separator at or after `from`.
pub open spec fn first_sep(s: Seq<char>, from: int) -> int
    decreases s.len() - from,
{
    if from < 0 {
        0
    } else if from >= s.len() {
        s.len() as int
    } else if is_seg_sep(s[from]) {
        from
    } else {
        first_sep(s, from + 1)
    }
}

/// The venue code of one query segment: `jcd=` followed by decimal digits.
pub open spec fn seg_venue_code(seg: Seq<char>) -> Option<u32> {
    if starts_with(seg, "jcd="@) && seg.len() > 4 && all_digits(seg.skip(4)) && dec_value(
        seg.skip(4),
    ) <= u32::MAX {
        Some(dec_value(seg.skip(4)) as u32)
    } else {
        None
    }
}

/// The venue code of the first `jcd=` segment of a URL, if any.
pub open spec fn spec_extract_venue_code(s: Seq<char>) -> Option<u32>
    decreases s.len(),
{
    let k0 = first_sep(s, 0);
    let k = if k0 < 0 {
        0
    } else {
        k0
    };
    let seg = if k >= s.len() {
        s
    } else {
        s.take(k)
    };
    match seg_venue_code(seg) {
        Some(v) => Some(v),
        None => if k >= s.len() {
            None
        } else {
            spec_extract_venue_code(s.skip(k + 1))
        },
    }
}

/// The position of the first segment separator, decided.
fn find_first_sep(s: &str) -> (r: usize)
    requires
        s@.len() <= usize::MAX,
    ensures
        r as int == first_sep(s@, 0),
        r <= s@.len(),
{
    let len = s.unicode_len();
    let mut i: usize = 0;
    while i < len
        invariant
            i <= len,
            len == s@.len(),
            first_sep(s@, 0) == first_sep(s@, i as int),
        decreases len - i,
    {
        let c = s.get_char(i);
        if c == '?' || c == '&' {
            return i;
        }
        i = i + 1;
    }
    len
}

/// Extracts the venue code (`jcd=NN`) from a URL's query string: the first
/// such segment whose value is all digits.
pub fn extract_venue_code(href: &str) -> (r: Option<u32>)
    ensures
        r == spec_extract_venue_code(href@),
{
    let hlen = href.unicode_len();
    proof {
        assert(href@.len() == hlen);
    }
    let mut rest: &str = href;
    loop
        invariant
            spec_extract_venue_code(href@) == spec_extract_venue_code(rest@),
            rest@.len() <= usize::MAX,
        decreases rest@.len(),
    {
        let len = rest.unicode_len();
        let k = find_first_sep(rest);
        let seg: &str = rest.substring_char(0, k);
        proof {
            if k < len {
                assert(seg@ == rest@.take(k as int));
            } else {
                assert(seg@ =~= rest@);
            }
        }
        let code: Option<u32> = if str_starts_with(seg, "jcd=") && seg.unicode_len() > 4 {
            proof {
                reveal_strlit("jcd=");
            }
            let digits: &str = seg.substring_char(4, seg.unicode_len());
            proof {
                assert(digits@ =~= seg@.skip(4));
            }
            parse_u32(digits)
        } else {
            proof {
                reveal_strlit("jcd=");
            }
            None
        };
        match code {
            Some(v) => {
                return Some(v);
            },
            None => {},
        }
        if k >= len {
            return None;
        }
        rest = rest.substring_char(k + 1, len);
    }
}

/// The grade named by one CSS class, if it is a grade class.
pub open spec fn grade_of_class(c: Seq<char>) -> Option<Seq<char>> {
    if c == "is-gradeColorSG"@ {
        Some("SG"@)
    } else if c == "is-gradeColorG1"@ {
        Some("G1"@)
    } else if c == "is-gradeColorG2"@ {
        Some("G2"@)
    } else if c == "is-gradeColorG3"@ {
        Some("G3"@)
    } else if c == "is-gradeColorLady"@ {
        Some("オールレディース"@)
    } else if c == "is-gradeColorVenus"@ {
        Some("ヴィーナスシリーズ"@)
    } else if c == "is-gradeColorRookie"@ {
        Some("ルーキーシリーズ"@)
    } else if c == "is-gradeColorTakumi"@ {
        Some("マスターズリーグ"@)
    } else if c == "is-gradeColorIppan"@ {
        Some("一般"@)
    } else {
        None
    }
}

/// The grade of the first grade class among `classes` (before `k`).
pub open spec fn spec_grade_from_classes(classes: Seq<&str>, k: int) -> Option<Seq<char>>
    decreases k,
{
    if k <= 0 {
        None
    } else {
        match spec_grade_from_classes(classes, k - 1) {
            Some(g) => Some(g),
            None => grade_of_class(classes[k - 1]@),
        }
    }
}

/// Maps a cell's CSS classes to the grade they name; a cell with no grade
/// class is a general race.
pub fn extract_grade_from_class(classes: Vec<&str>) -> (r: String)
    ensures
        r@ == match spec_grade_from_classes(classes@, classes@.len() as int) {
            Some(g) => g,
            None => "一般"@,
        },
{
    let mut i: usize = 0;
    while i < classes.len()
        invariant
            i <= classes@.len(),
            spec_grade_from_classes(classes@, i as int) is None,
        decreases classes@.len() - i,
    {
        let c: &str = classes[i];
        let hit: Option<&str> = if crate::textutil::str_eq(c, "is-gradeColorSG") {
            Some("SG")
        } else if crate::textutil::str_eq(c, "is-gradeColorG1") {
            Some("G1")
        } else if crate::textutil::str_eq(c, "is-gradeColorG2") {
            Some("G2")
        } else if crate::textutil::str_eq(c, "is-gradeColorG3") {
            Some("G3")
        } else if crate::textutil::str_eq(c, "is-gradeColorLady") {
            Some("オールレディース")
        } else if crate::textutil::str_eq(c, "is-gradeColorVenus") {
            Some("ヴィーナスシリーズ")
        } else if crate::textutil::str_eq(c, "is-gradeColorRookie") {
            Some("ルーキーシリーズ")
        } else if crate::textutil::str_eq(c, "is-gradeColorTakumi") {
            Some("マスターズリーグ")
        } else if crate::textutil::str_eq(c, "is-gradeColorIppan") {
            Some("一般")
        } else {
            None
        };
        match hit {
            Some(g) => {
                proof {
                    lemma_grade_stable(classes@, i as int + 1, classes@.len() as int);
                }
                return String::from_str(g);
            },
            None => {
                proof {
                    assert(grade_of_class(classes@[i as int]@) is None);
                }
            },
        }
        i = i + 1;
    }
    String::from_str("一般")
}

proof fn lemma_grade_stable(classes: Seq<&str>, k: int, n: int)
    requires
        0 < k <= n <= classes.len(),
        (spec_grade_from_classes(classes, k) is Some),
    ensures
        spec_grade_from_classes(classes, n) == spec_grade_from_classes(classes, k),
    decreases n - k,
{
    if k < n {
        lemma_grade_stable(classes, k + 1, n);
    }
}

/// The dashed (`YYYY-MM-DD`) form of an eight-character date.
pub open spec fn dashed_date(d: Seq<char>) -> Seq<char> {
    d.take(4) + seq!['-'] + d.subrange(4, 6) + seq!['-'] + d.subrange(6, 8)
}

/// The start date of one query segment: `hd=` followed by exactly eight
/// characters, rendered with dashes.
pub open spec fn seg_start_date(seg: Seq<char>) -> Option<Seq<char>> {
    if starts_with(seg, "hd="@) && seg.len() == 11 {
        Some(dashed_date(seg.skip(3)))
    } else {
        None
    }
}

/// The start date of the first `hd=YYYYMMDD` segment of a URL, if any.
pub open spec fn spec_extract_start_date(s: Seq<char>) -> Option<Seq<char>>
    decreases s.len(),
{
    let k0 = first_sep(s, 0);
    let k = if k0 < 0 {
        0
    } else {
        k0
    };
    let seg = if k >= s.len() {
        s
    } else {
        s.take(k)
    };
    match seg_start_date(seg) {
        Some(v) => Some(v),
        None => if k >= s.len() {
            None
        } else {
            spec_extract_start_date(s.skip(k + 1))
        },
    }
}

/// Extracts the start date (`hd=YYYYMMDD`, rendered `YYYY-MM-DD`) from a
/// URL's query string.
pub fn extract_start_date(href: &str) -> (r: Option<String>)
    ensures
        match r {
            Some(d) => spec_extract_start_date(href@) == Some(d@),
            None => spec_extract_start_date(href@) is None,
        },
{
    let hlen = href.unicode_len();
    proof {
        assert(href@.len() == hlen);
    }
    let mut rest: &str = href;
    loop
        invariant
            spec_extract_start_date(href@) == spec_extract_start_date(rest@),
            rest@.len() <= usize::MAX,
        decreases rest@.len(),
    {
        let len = rest.unicode_len();
        let k = find_first_sep(rest);
        let seg: &str = rest.substring_char(0, k);
        proof {
            if k < len {
                assert(seg@ == rest@.take(k as int));
            } else {
                assert(seg@ =~= rest@);
            }
            reveal_strlit("hd=");
        }
        if str_starts_with(seg, "hd=") && seg.unicode_len() == 11 {
            let d: &str = seg.substring_char(3, 11);
            proof {
                assert(d@ =~= seg@.skip(3));
            }
            let mut out = String::from_str(d.substring_char(0, 4));
            out.append("-");
            out.append(d.substring_char(4, 6));
            out.append("-");
            out.append(d.substring_char(6, 8));
            proof {
                reveal_strlit("-");
                assert(out@ =~= dashed_date(d@));
            }
            return Some(out);
        }
        if k >= len {
            return None;
        }
        rest = rest.substring_char(k + 1, len);
    }
}

// ------------------------------------------------------------------
// Venue status summaries
// ------------------------------------------------------------------

/// Whether a venue id stands among the active venues.
pub open spec fn venue_active(active: Seq<RaceVenue>, id: u32) -> bool {
    exists|i: int| 0 <= i < active.len() && (#[trigger] active[i]).place_id == id
}

/// The twelve race numbers every active venue runs.
pub fn full_race_numbers() -> (r: Vec<u32>)
    ensures
        r@.len() == 12,
        forall|i: int| 0 <= i < 12 ==> #[trigger] r@[i] == i + 1,
{
    let mut v: Vec<u32> = Vec::new();
    let mut n: u32 = 1;
    while n <= 12
        invariant
            1 <= n <= 13,
            v@.len() == n - 1,
            forall|i: int| 0 <= i < n - 1 ==> #[trigger] v@[i] == i + 1,
        decreases 13 - n,
    {
        v.push(n);
        n = n + 1;
    }
    v
}

/// Builds the status of all 24 venues: an active venue carries the full race
/// list, an idle one an empty list.
pub fn venue_statuses(active: &Vec<RaceVenue>) -> (r: Vec<VenueStatus>)
    ensures
        r@.len() == 24,
        forall|i: int|
            0 <= i < 24 ==> {
                let st = #[trigger] r@[i];
                &&& st.place_id == i + 1
                &&& st.place_name@ == venue_name(i + 1)
                &&& st.is_active == venue_active(active@, (i + 1) as u32)
                &&& (st.is_active ==> st.races@.len() == 12)
                &&& (!st.is_active ==> st.races@.len() == 0)
            },
{
    let mut out: Vec<VenueStatus> = Vec::new();
    let mut code: u32 = 1;
    while code <= 24
        invariant
            1 <= code <= 25,
            out@.len() == code - 1,
            forall|i: int|
                0 <= i < code - 1 ==> {
                    let st = #[trigger] out@[i];
                    &&& st.place_id == i + 1
                    &&& st.place_name@ == venue_name(i + 1)
                    &&& st.is_active == venue_active(active@, (i + 1) as u32)
                    &&& (st.is_active ==> st.races@.len() == 12)
                    &&& (!st.is_active ==> st.races@.len() == 0)
                },
        decreases 25 - code,
    {
        let mut is_active = false;
        let mut j: usize = 0;
        while j < active.len()
            invariant
                j <= active@.len(),
                is_active == exists|q: int|
                    0 <= q < j && (#[trigger] active@[q]).place_id == code,
            decreases active@.len() - j,
        {
            if active[j].place_id == code {
                is_active = true;
            }
            j = j + 1;
        }
        let races: Vec<u32> = if is_active {
            full_race_numbers()
        } else {
            Vec::new()
        };
        out.push(
            VenueStatus { place_id: code, place_name: venue_name_of(code), is_active, races },
        );
        code = code + 1;
    }
    out
}

/// The schedule service: venue master data and per-date status summaries.
pub struct ScheduleService;

impl ScheduleService {
    /// The full venue-code to venue-name master table.
    pub fn get_all_venue_names() -> (r: HashMap<u32, String>)
        ensures
            forall|k: u32| r@.contains_key(k) <==> 1 <= k <= 24,
            forall|k: u32| 1 <= k <= 24 ==> (#[trigger] r@[k])@ == venue_name(k as int),
    {
        get_venue_name_map()
    }
}

} // verus!
