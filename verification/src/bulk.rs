//! The decision core of bulk multi-day fetches: the feed URL for one date,
//! the per-date accounting (success / skipped / error with a per-date error
//! list), the progress notifications, and the rate-limiting delay choice.
//!
//! The surrounding loop — fetching, sleeping, advancing the date — performs
//! outside work and stays with the caller; it hands each date's outcome back
//! to this machine.

use vstd::prelude::*;
use crate::records::ApiDataType;
use crate::textutil::usize_to_string;
use crate::validate::valid_date_string;

verus! {

/// One date that failed during a bulk fetch, with its message.
pub struct BulkFetchError {
    pub date: String,
    pub error_message: String,
}

/// The summary of a bulk fetch: partial success is a supported outcome, and
/// the per-date failures are reported, never swallowed.
pub struct BulkFetchSummary {
    pub total_days: usize,
    pub success_count: usize,
    pub error_count: usize,
    pub skipped_count: usize,
    pub errors: Vec<BulkFetchError>,
}

/// One progress notification of a bulk fetch.
pub struct OpenApiBulkProgressPayload {
    pub message: String,
    pub current: usize,
    pub total: usize,
    pub date: String,
    pub data_type: String,
    pub status: String,
}

/// What one date's processing came to.
pub enum DateOutcome {
    /// The date was already stored; nothing was fetched.
    Cached,
    /// The date was fetched and this many records were saved.
    Saved(usize),
    /// The fetch failed with this message.
    FetchFailed(String),
    /// The fetch succeeded but saving failed with this message.
    SaveFailed(String),
}

/// The running state of a bulk fetch over a fixed number of days.
pub struct BulkRun {
    pub total: usize,
    pub processed: usize,
    pub success: usize,
    pub skipped: usize,
    pub failed: usize,
    pub errors: Vec<BulkFetchError>,
}

impl BulkRun {
    /// Accounting invariant: every processed date is counted exactly once,
    /// and each failure carries one error entry.
    pub open spec fn wf(self) -> bool {
        &&& self.processed == self.success + self.skipped + self.failed
        &&& self.errors@.len() == self.failed
        &&& self.processed <= self.total
    }

    /// Starts a run over `total` days.
    pub fn start(total: usize) -> (r: BulkRun)
        ensures
            r.wf(),
            r.total == total,
            r.processed == 0,
            r.success == 0,
            r.skipped == 0,
            r.failed == 0,
            r.errors@.len() == 0,
    {
        BulkRun { total, processed: 0, success: 0, skipped: 0, failed: 0, errors: Vec::new() }
    }

    /// Records one date's outcome and returns the progress notification to
    /// emit for it: a cached date counts as skipped, a saved date as a
    /// success, and either failure as an error with its message kept in the
    /// per-date error list.
    pub fn record(&mut self, date: &str, data_type: ApiDataType, outcome: DateOutcome) -> (p:
        OpenApiBulkProgressPayload)
        requires
            old(self).wf(),
            old(self).processed < old(self).total,
        ensures
            final(self).wf(),
            final(self).total == old(self).total,
            final(self).processed == old(self).processed + 1,
            match outcome {
                DateOutcome::Cached => final(self).skipped == old(self).skipped + 1 && final(self).success == old(self).success && final(self).failed == old(self).failed && final(self).errors == old(self).errors && p.status@ == "cached"@,
                DateOutcome::Saved(_) => final(self).success == old(self).success + 1 && final(self).skipped == old(self).skipped && final(self).failed == old(self).failed && final(self).errors == old(self).errors && p.status@ == "saved"@,
                DateOutcome::FetchFailed(m) => final(self).failed == old(self).failed + 1 && final(self).success == old(self).success && final(self).skipped == old(self).skipped && final(self).errors@.len() == old(self).errors@.len() + 1 && final(self).errors@.subrange(
                    0,
                    old(self).errors@.len() as int,
                ) == old(self).errors@ && final(self).errors@.last().date@ == date@ && final(self).errors@.last().error_message == m && p.status@ == "error"@,
                DateOutcome::SaveFailed(m) => final(self).failed == old(self).failed + 1 && final(self).success == old(self).success && final(self).skipped == old(self).skipped && final(self).errors@.len() == old(self).errors@.len() + 1 && final(self).errors@.subrange(
                    0,
                    old(self).errors@.len() as int,
                ) == old(self).errors@ && final(self).errors@.last().date@ == date@ && final(self).errors@.last().error_message == m && p.status@ == "error"@,
            },
            p.current == final(self).processed,
            p.total == final(self).total,
            p.date@ == date@,
            p.data_type@ == match data_type {
                ApiDataType::Previews => "previews"@,
                ApiDataType::Results => "results"@,
                ApiDataType::Programs => "programs"@,
            },
    {
        self.processed = self.processed + 1;
        let dt = data_type.as_str();
        let status: &str;
        let mut message = String::new();
        match outcome {
            DateOutcome::Cached => {
                self.skipped = self.skipped + 1;
                status = "cached";
                message.append("already stored: ");
                message.append(date);
            },
            DateOutcome::Saved(n) => {
                self.success = self.success + 1;
                status = "saved";
                message.append("saved ");
                message.append(usize_to_string(n).as_str());
                message.append(" records for ");
                message.append(date);
            },
            DateOutcome::FetchFailed(m) => {
                self.failed = self.failed + 1;
                status = "error";
                message.append("fetch failed for ");
                message.append(date);
                let ghost oerrs = self.errors@;
                self.errors.push(
                    BulkFetchError { date: String::from_str(date), error_message: m },
                );
                proof {
                    assert(self.errors@.subrange(0, oerrs.len() as int) =~= oerrs);
                }
            },
            DateOutcome::SaveFailed(m) => {
                self.failed = self.failed + 1;
                status = "error";
                message.append("save failed for ");
                message.append(date);
                let ghost oerrs = self.errors@;
                self.errors.push(
                    BulkFetchError { date: String::from_str(date), error_message: m },
                );
                proof {
                    assert(self.errors@.subrange(0, oerrs.len() as int) =~= oerrs);
                }
            },
        }
        proof {
            reveal_strlit("cached");
            reveal_strlit("saved");
            reveal_strlit("error");
        }
        OpenApiBulkProgressPayload {
            message,
            current: self.processed,
            total: self.total,
            date: String::from_str(date),
            data_type: String::from_str(dt),
            status: String::from_str(status),
        }
    }

    /// Closes the run: every day was processed, and the counts add up to
    /// the whole range.
    pub fn finish(self) -> (s: BulkFetchSummary)
        requires
            self.wf(),
            self.processed == self.total,
        ensures
            s.total_days == self.total,
            s.success_count == self.success,
            s.skipped_count == self.skipped,
            s.error_count == self.failed,
            s.errors == self.errors,
            s.success_count + s.skipped_count + s.error_count == s.total_days,
            s.errors@.len() == s.error_count,
    {
        BulkFetchSummary {
            total_days: self.total,
            success_count: self.success,
            error_count: self.failed,
            skipped_count: self.skipped,
            errors: self.errors,
        }
    }
}

/// The feed URL for one data type and date: the fixed host, the type's path
/// segment, the date's year, and the date itself.
pub open spec fn spec_feed_url(data_type: ApiDataType, date: Seq<char>) -> Seq<char> {
    "https://boatraceopenapi.github.io/"@ + (match data_type {
        ApiDataType::Previews => "previews"@,
        ApiDataType::Results => "results"@,
        ApiDataType::Programs => "programs"@,
    }) + "/v2/"@ + date.take(4) + "/"@ + date + ".json"@
}

/// Builds the feed URL for one date.
pub fn build_url(data_type: ApiDataType, date: &str) -> (r: String)
    requires
        valid_date_string(date@),
    ensures
        r@ == spec_feed_url(data_type, date@),
{
    let mut s = String::from_str("https://boatraceopenapi.github.io/");
    s.append(data_type.as_str());
    s.append("/v2/");
    s.append(date.substring_char(0, 4));
    s.append("/");
    s.append(date);
    s.append(".json");
    proof {
        reveal_strlit("https://boatraceopenapi.github.io/");
        reveal_strlit("/v2/");
        reveal_strlit("/");
        reveal_strlit(".json");
        assert(s@ =~= spec_feed_url(data_type, date@));
    }
    s
}

/// The rate-limiting delay after one date, in milliseconds: half a second
/// between fetches, none after the last date.
pub fn feed_delay_ms(is_last: bool) -> (r: u64)
    ensures
        r == if is_last {
            0u64
        } else {
            500u64
        },
{
    if is_last {
        0
    } else {
        500
    }
}

/// The rate-limiting delay after one bulk-scrape task, in milliseconds: a
/// full second after a live scrape, a short pause after a cache hit, none
/// after the last task.
pub fn scrape_delay_ms(is_last: bool, was_scraped: bool) -> (r: u64)
    ensures
        r == if is_last {
            0u64
        } else if was_scraped {
            1000u64
        } else {
            100u64
        },
{
    if is_last {
        0
    } else if was_scraped {
        1000
    } else {
        100
    }
}


} // verus!
