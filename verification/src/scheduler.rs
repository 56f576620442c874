//! Trigger decisions of the recurring jobs.
//!
//! Each background loop asks these functions whether to fire; the loops
//! themselves (sleeping, harvesting, messaging) live outside the library.
//! A daily job is due inside its hour-of-day window when its persisted
//! "last run" marker does not yet name today; the marker is re-read every
//! time, so the decision survives a process restart unchanged.

use vstd::prelude::*;

use crate::clock::read_today;
use crate::date::{spec_date_le, spec_parse_date_prefix, valid_date, Date};
use crate::store::DbRequest;
use crate::types::CrawlResult;

verus! {

/// Hour of day (local time) in which the catalog sync job may fire.
pub const CATALOG_SYNC_HOUR: u8 = 8;

/// Hour of day (local time) in which the review ingestion job may fire.
pub const REVIEW_CRAWL_HOUR: u8 = 0;

/// Seconds between two firings of the ranking refresh job, and between two
/// polls of the daily-window jobs.
pub const POLL_INTERVAL_SECS: u64 = 3600;

/// Seconds to pause between two successive per-entity acquisition calls.
pub const REVIEW_PACING_SECS: u64 = 2;

/// Whether a "last run" marker names today or a later day: the marker text
/// holds a date before its first space, and counts as done when that date
/// falls on or after `today`. An absent or unreadable marker never counts.
pub open spec fn spec_is_synced_on(last_sync: Option<String>, today: Date) -> bool {
    match last_sync {
        Option::None => false,
        Option::Some(s) => match spec_parse_date_prefix(s@) {
            Option::Some(d) => spec_date_le(today, d),
            Option::None => false,
        },
    }
}

/// Decides "already completed today" for a given notion of today.
pub fn is_synced_on(last_sync: &Option<String>, today: &Date) -> (r: bool)
    ensures
        r == spec_is_synced_on(*last_sync, *today),
{
    match last_sync {
        None => false,
        Some(s) => {
            match crate::date::parse_date_prefix(s.as_str()) {
                Some(d) => d.on_or_after(today),
                None => false,
            }
        },
    }
}

/// Decides "already completed today" against the wall clock. An absent or
/// unreadable marker never counts as done; what a readable marker decides
/// is said exactly by [`is_synced_on`], which this function applies to the
/// clock's current date.
pub fn is_synced_today(last_sync: &Option<String>) -> (r: bool)
    ensures
        last_sync is None ==> !r,
        *last_sync matches Some(s) && spec_parse_date_prefix(s@) is None ==> !r,
{
    let today = read_today();
    is_synced_on(last_sync, &today)
}

/// Whether a daily-window job is due at its hourly poll: only inside its
/// window hour, and only when it has not already completed today.
pub fn daily_job_due(hour: u8, window_hour: u8, last_sync: &Option<String>, today: &Date) -> (r:
    bool)
    ensures
        r == (hour == window_hour && !spec_is_synced_on(*last_sync, *today)),
{
    hour == window_hour && !is_synced_on(last_sync, today)
}

/// Whether a daily-window job is due at process start: immediately, unless
/// it already completed today.
pub fn startup_job_due(last_sync: &Option<String>, today: &Date) -> (r: bool)
    ensures
        r == !spec_is_synced_on(*last_sync, *today),
{
    !is_synced_on(last_sync, today)
}

/// What a ranking job firing sends to the store: a successful harvest
/// becomes a `SUCCESS` session holding exactly the harvested records, a
/// failed one a `FAILED` session with no records, zero count and the error
/// text — so a failure is recorded and the loop can simply go on.
pub fn session_request_for(category_id: i32, outcome: Result<CrawlResult, String>) -> (r:
    DbRequest)
    requires
        outcome matches Ok(res) ==> res.items@.len() <= i32::MAX,
    ensures
        outcome matches Ok(res) ==> r matches DbRequest::SaveSession {
            category_id: c,
            source_url,
            status,
            total_items,
            error_message,
            items,
        } && c == res.category_id && source_url == res.source_url && status@ == "SUCCESS"@
            && total_items as int == res.items@.len() && error_message is None && items
            == res.items,
        outcome matches Err(e) ==> r matches DbRequest::SaveSession {
            category_id: c,
            source_url,
            status,
            total_items,
            error_message,
            items,
        } && c == category_id && source_url@ =~= Seq::<char>::empty() && status@ == "FAILED"@
            && total_items == 0i32 && (error_message matches Some(msg) && msg == e) && items@.len()
            == 0,
{
    match outcome {
        Ok(res) => {
            let total = res.items.len() as i32;
            DbRequest::SaveSession {
                category_id: res.category_id,
                source_url: res.source_url,
                status: "SUCCESS".to_owned(),
                total_items: total,
                error_message: None,
                items: res.items,
            }
        },
        Err(e) => {
            proof {
                reveal_strlit("");
            }
            DbRequest::SaveSession {
                category_id,
                source_url: "".to_owned(),
                status: "FAILED".to_owned(),
                total_items: 0,
                error_message: Some(e),
                items: Vec::new(),
            }
        },
    }
}

} // verus!
