//! The queue in the database: its queries, and what their results mean.

use crate::config::DatabaseConfig;
use crate::ident::{uuid_text, uuid_to_text, Timestamp};
use crate::json::Json;
use crate::models::{
    AppError, AppErrorView, GroupCrawlRow, GroupStatus, JobStatus, QueueScrapeRow,
};
use crate::text::{opt_view, same_text};
use vstd::prelude::*;

verus! {

// ---------------------------------------------------------------------------
// States
// ---------------------------------------------------------------------------

/// The state of a job that a name means; an unknown name means queued.
pub open spec fn job_status_of(name: Seq<char>) -> JobStatus {
    if name == "scraping"@ {
        JobStatus::Scraping
    } else if name == "active"@ {
        JobStatus::Active
    } else if name == "completed"@ {
        JobStatus::Completed
    } else if name == "failed"@ {
        JobStatus::Failed
    } else if name == "cancelled"@ {
        JobStatus::Cancelled
    } else {
        JobStatus::Queued
    }
}

/// The state of a group that a name means; an unknown name means active.
pub open spec fn group_status_of(name: Seq<char>) -> GroupStatus {
    if name == "completed"@ {
        GroupStatus::Completed
    } else if name == "cancelled"@ {
        GroupStatus::Cancelled
    } else {
        GroupStatus::Active
    }
}

/// The state of a job that a name means.
pub fn map_job_status(s: &str) -> (r: JobStatus)
    ensures
        r == job_status_of(s@),
        r is Scraping <==> s@ == "scraping"@,
        r is Active <==> s@ == "active"@,
        r is Completed <==> s@ == "completed"@,
        r is Failed <==> s@ == "failed"@,
        r is Cancelled <==> s@ == "cancelled"@,
{
    proof {
        reveal_strlit("scraping");
        reveal_strlit("active");
        reveal_strlit("completed");
        reveal_strlit("failed");
        reveal_strlit("cancelled");
        assert("active"@[0] == 'a' && "failed"@[0] == 'f');
        assert("completed"@[1] == 'o' && "cancelled"@[1] == 'a');
        assert("scraping"@.len() == 8 && "active"@.len() == 6 && "completed"@.len() == 9);
        assert("failed"@.len() == 6 && "cancelled"@.len() == 9);
    }
    if same_text(s, "scraping") {
        JobStatus::Scraping
    } else if same_text(s, "active") {
        JobStatus::Active
    } else if same_text(s, "completed") {
        JobStatus::Completed
    } else if same_text(s, "failed") {
        JobStatus::Failed
    } else if same_text(s, "cancelled") {
        JobStatus::Cancelled
    } else {
        JobStatus::Queued
    }
}

/// The state of a group that a name means.
pub fn map_group_status(s: &str) -> (r: GroupStatus)
    ensures
        r == group_status_of(s@),
        r is Completed <==> s@ == "completed"@,
        r is Cancelled <==> s@ == "cancelled"@,
{
    proof {
        reveal_strlit("completed");
        reveal_strlit("cancelled");
        assert("completed"@[1] == 'o' && "cancelled"@[1] == 'a');
    }
    if same_text(s, "completed") {
        GroupStatus::Completed
    } else if same_text(s, "cancelled") {
        GroupStatus::Cancelled
    } else {
        GroupStatus::Active
    }
}

/// The name of the state of a job means that state.
pub proof fn law_job_status_round_trip(status: JobStatus)
    ensures
        job_status_of(status.name()) == status,
{
    reveal_strlit("queued");
    reveal_strlit("scraping");
    reveal_strlit("active");
    reveal_strlit("completed");
    reveal_strlit("failed");
    reveal_strlit("cancelled");
    let name = status.name();
    assert(name[0] == 'q' || name[0] == 's' || name[0] == 'a' || name[0] == 'c' || name[0] == 'f');
    assert("completed"@[1] != "cancelled"@[1]);
}

/// The name of the state of a group means that state.
pub proof fn law_group_status_round_trip(status: GroupStatus)
    ensures
        group_status_of(status.name()) == status,
{
    reveal_strlit("active");
    reveal_strlit("completed");
    reveal_strlit("cancelled");
    assert("completed"@[1] != "cancelled"@[1]);
}

// ---------------------------------------------------------------------------
// Rows
// ---------------------------------------------------------------------------

/// The job that a row of the queue holds.
pub fn map_queue_row(
    id: u128,
    status: &str,
    data: Option<Json>,
    created_at: Timestamp,
    returnvalue: Option<Json>,
    failedreason: Option<String>,
    group_id: Option<u128>,
) -> (r: QueueScrapeRow)
    ensures
        r == (QueueScrapeRow {
            id,
            status: job_status_of(status@),
            data,
            created_at,
            returnvalue,
            failedreason,
            group_id,
        }),
{
    QueueScrapeRow {
        id,
        status: map_job_status(status),
        data,
        created_at,
        returnvalue,
        failedreason,
        group_id,
    }
}

/// The group that a row of the table of groups holds.
pub fn map_group_row(
    id: u128,
    status: &str,
    created_at: Timestamp,
    owner_id: u128,
    ttl: i64,
    expires_at: Option<Timestamp>,
) -> (r: GroupCrawlRow)
    ensures
        r == (GroupCrawlRow {
            id,
            status: group_status_of(status@),
            created_at,
            owner_id,
            ttl,
            expires_at,
        }),
{
    GroupCrawlRow { id, status: map_group_status(status), created_at, owner_id, ttl, expires_at }
}

/// All failed jobs of a group.
pub fn sql_group_failures() -> (r: &'static str)
    ensures
        r@ == "SELECT id, status::text AS status, data, created_at, returnvalue, failedreason, group_id FROM nuq.queue_scrape WHERE group_id = $1 AND status = 'failed' ORDER BY created_at ASC, id ASC"@,
{
    "SELECT id, status::text AS status, data, created_at, returnvalue, failedreason, group_id FROM nuq.queue_scrape WHERE group_id = $1 AND status = 'failed' ORDER BY created_at ASC, id ASC"
}

/// How many jobs of a group are in which state.
#[derive(Debug, Clone, Copy)]
pub struct GroupCounts {
    pub completed: u32,
    pub failed: u32,
    pub pending: u32,
    pub total: u32,
}

/// A count of the database in the size of a counter.
pub open spec fn counter(n: i64) -> u32 {
    (n as int % 0x1_0000_0000) as u32
}

fn counter_of(n: i64) -> (r: u32)
    ensures
        r == counter(n),
{
    let m: i128 = n as i128 + 0x1_0000_0000_0000_0000;
    (m % 0x1_0000_0000) as u32
}

impl GroupCounts {
    /// The counts that the database gave.
    pub fn from_counts(completed: i64, failed: i64, pending: i64, total: i64) -> (r: Self)
        ensures
            r.completed == counter(completed),
            r.failed == counter(failed),
            r.pending == counter(pending),
            r.total == counter(total),
            0 <= completed <= u32::MAX ==> r.completed == completed,
            0 <= failed <= u32::MAX ==> r.failed == failed,
            0 <= pending <= u32::MAX ==> r.pending == pending,
            0 <= total <= u32::MAX ==> r.total == total,
    {
        GroupCounts {
            completed: counter_of(completed),
            failed: counter_of(failed),
            pending: counter_of(pending),
            total: counter_of(total),
        }
    }
}

// ---------------------------------------------------------------------------
// What the results of queries mean
// ---------------------------------------------------------------------------

/// An update of the job `id` has to touch a row: where it touched none, there is no
/// such job.
pub fn require_updated(id: u128, rows: u64) -> (r: Result<(), AppError>)
    ensures
        if rows == 0 {
            r matches Err(e) && e@ == AppErrorView::NotFound(uuid_text(id))
        } else {
            r is Ok
        },
{
    if rows == 0 {
        Err(AppError::NotFound(uuid_to_text(id)))
    } else {
        Ok(())
    }
}

/// The row that was asked for by `id`; where there is none, it was not found.
pub fn require_row<T>(id: u128, row: Option<T>) -> (r: Result<T, AppError>)
    ensures
        match row {
            Some(x) => r == Ok::<T, AppError>(x),
            None => r matches Err(e) && e@ == AppErrorView::NotFound(uuid_text(id)),
        },
{
    match row {
        Some(x) => Ok(x),
        None => Err(AppError::NotFound(uuid_to_text(id))),
    }
}

/// The cursor behind which the jobs of a group are listed, where there is one: it
/// takes an id and a time.
pub fn results_cursor(after_id: Option<u128>, after_created_at: Option<Timestamp>) -> (r: Option<
    (u128, Timestamp),
>)
    ensures
        r == (match (after_id, after_created_at) {
            (Some(id), Some(time)) => Some((id, time)),
            _ => None,
        }),
{
    match (after_id, after_created_at) {
        (Some(id), Some(time)) => Some((id, time)),
        _ => None,
    }
}

/// The password to connect with; an empty one is none.
pub fn pool_password(cfg: &DatabaseConfig) -> (r: Option<String>)
    ensures
        opt_view(r) == (if cfg.password@.len() == 0 {
            None
        } else {
            Some(cfg.password@)
        }),
{
    if cfg.password.as_str().is_empty() {
        None
    } else {
        Some(cfg.password.clone())
    }
}

// ---------------------------------------------------------------------------
// Queries
// ---------------------------------------------------------------------------

/// Asks the database for a sign of life.
pub fn sql_ping() -> (r: &'static str)
    ensures
        r@ == "SELECT 1"@,
{
    "SELECT 1"
}

/// Adds a job: data, priority, owner, group and channel.
pub fn sql_enqueue() -> (r: &'static str)
    ensures
        r@ == "INSERT INTO nuq.queue_scrape (data, priority, owner_id, group_id, listen_channel_id) VALUES ($1, $2, $3, $4, $5) RETURNING id, status::text AS status, data, created_at, returnvalue, failedreason, group_id"@,
{
    "INSERT INTO nuq.queue_scrape (data, priority, owner_id, group_id, listen_channel_id) VALUES ($1, $2, $3, $4, $5) RETURNING id, status::text AS status, data, created_at, returnvalue, failedreason, group_id"
}

/// Adds a job that is done already: data, priority, owner, group, channel and
/// result.
pub fn sql_enqueue_completed() -> (r: &'static str)
    ensures
        r@ == "INSERT INTO nuq.queue_scrape (data, priority, owner_id, group_id, listen_channel_id, status, returnvalue, finished_at) VALUES ($1, $2, $3, $4, $5, 'completed', $6, now()) RETURNING id, status::text AS status, data, created_at, returnvalue, failedreason, group_id"@,
{
    "INSERT INTO nuq.queue_scrape (data, priority, owner_id, group_id, listen_channel_id, status, returnvalue, finished_at) VALUES ($1, $2, $3, $4, $5, 'completed', $6, now()) RETURNING id, status::text AS status, data, created_at, returnvalue, failedreason, group_id"
}

/// Claims the queued job that comes first by priority, age and id, for a lock; jobs
/// that someone else is claiming are passed over.
pub fn sql_claim_next_job() -> (r: &'static str)
    ensures
        r@ == "UPDATE nuq.queue_scrape SET status = 'active', lock = $1, locked_at = now() WHERE (id, created_at) = ( SELECT id, created_at FROM nuq.queue_scrape WHERE status = 'queued' ORDER BY priority ASC, created_at ASC, id ASC LIMIT 1 FOR UPDATE SKIP LOCKED ) RETURNING id, status::text AS status, data, created_at, returnvalue, failedreason, group_id"@,
{
    "UPDATE nuq.queue_scrape SET status = 'active', lock = $1, locked_at = now() WHERE (id, created_at) = ( SELECT id, created_at FROM nuq.queue_scrape WHERE status = 'queued' ORDER BY priority ASC, created_at ASC, id ASC LIMIT 1 FOR UPDATE SKIP LOCKED ) RETURNING id, status::text AS status, data, created_at, returnvalue, failedreason, group_id"
}

/// Marks one job as completed: id, time of creation and result.
pub fn sql_complete_job() -> (r: &'static str)
    ensures
        r@ == "UPDATE nuq.queue_scrape SET status = 'completed', returnvalue = $3, finished_at = now(), lock = NULL, locked_at = NULL WHERE id = $1 AND created_at = $2"@,
{
    "UPDATE nuq.queue_scrape SET status = 'completed', returnvalue = $3, finished_at = now(), lock = NULL, locked_at = NULL WHERE id = $1 AND created_at = $2"
}

/// Marks one job as failed: id, time of creation and reason.
pub fn sql_fail_job() -> (r: &'static str)
    ensures
        r@ == "UPDATE nuq.queue_scrape SET status = 'failed', failedreason = $3, finished_at = now(), lock = NULL, locked_at = NULL WHERE id = $1 AND created_at = $2"@,
{
    "UPDATE nuq.queue_scrape SET status = 'failed', failedreason = $3, finished_at = now(), lock = NULL, locked_at = NULL WHERE id = $1 AND created_at = $2"
}

/// Cancels the youngest job with an id, if it is still queued or active.
pub fn sql_cancel_job_latest_by_id() -> (r: &'static str)
    ensures
        r@ == "UPDATE nuq.queue_scrape SET status = 'cancelled', finished_at = now(), lock = NULL, locked_at = NULL WHERE (id, created_at) = (SELECT id, created_at FROM nuq.queue_scrape WHERE id = $1 ORDER BY created_at DESC LIMIT 1) AND status IN ('queued', 'active')"@,
{
    "UPDATE nuq.queue_scrape SET status = 'cancelled', finished_at = now(), lock = NULL, locked_at = NULL WHERE (id, created_at) = (SELECT id, created_at FROM nuq.queue_scrape WHERE id = $1 ORDER BY created_at DESC LIMIT 1) AND status IN ('queued', 'active')"
}

/// The youngest job with an id.
pub fn sql_get_job() -> (r: &'static str)
    ensures
        r@ == "SELECT id, status::text AS status, data, created_at, returnvalue, failedreason, group_id FROM nuq.queue_scrape WHERE (id, created_at) = (SELECT id, created_at FROM nuq.queue_scrape WHERE id = $1 ORDER BY created_at DESC LIMIT 1)"@,
{
    "SELECT id, status::text AS status, data, created_at, returnvalue, failedreason, group_id FROM nuq.queue_scrape WHERE (id, created_at) = (SELECT id, created_at FROM nuq.queue_scrape WHERE id = $1 ORDER BY created_at DESC LIMIT 1)"
}

/// The completed jobs of a group behind a cursor: group, id and time of creation of the last
/// job seen, and how many.
pub fn sql_group_results_after() -> (r: &'static str)
    ensures
        r@ == "SELECT id, status::text AS status, data, created_at, returnvalue, failedreason, group_id FROM nuq.queue_scrape WHERE group_id = $1 AND status = 'completed' AND (created_at, id) > ($3, $2) ORDER BY created_at ASC, id ASC LIMIT $4"@,
{
    "SELECT id, status::text AS status, data, created_at, returnvalue, failedreason, group_id FROM nuq.queue_scrape WHERE group_id = $1 AND status = 'completed' AND (created_at, id) > ($3, $2) ORDER BY created_at ASC, id ASC LIMIT $4"
}

/// The first completed jobs of a group: group, and how many.
pub fn sql_group_results_first() -> (r: &'static str)
    ensures
        r@ == "SELECT id, status::text AS status, data, created_at, returnvalue, failedreason, group_id FROM nuq.queue_scrape WHERE group_id = $1 AND status = 'completed' ORDER BY created_at ASC, id ASC LIMIT $2"@,
{
    "SELECT id, status::text AS status, data, created_at, returnvalue, failedreason, group_id FROM nuq.queue_scrape WHERE group_id = $1 AND status = 'completed' ORDER BY created_at ASC, id ASC LIMIT $2"
}

/// How many jobs of a group are in which state.
pub fn sql_group_counts() -> (r: &'static str)
    ensures
        r@ == "SELECT COUNT(*) FILTER (WHERE status = 'completed') AS completed, COUNT(*) FILTER (WHERE status = 'failed')    AS failed, COUNT(*) FILTER (WHERE status = 'queued' OR status = 'active') AS pending, COUNT(*) AS total FROM nuq.queue_scrape WHERE group_id = $1"@,
{
    "SELECT COUNT(*) FILTER (WHERE status = 'completed') AS completed, COUNT(*) FILTER (WHERE status = 'failed')    AS failed, COUNT(*) FILTER (WHERE status = 'queued' OR status = 'active') AS pending, COUNT(*) AS total FROM nuq.queue_scrape WHERE group_id = $1"
}

/// Makes a group: owner, time to live in milliseconds and in seconds.
pub fn sql_create_crawl_group() -> (r: &'static str)
    ensures
        r@ == "INSERT INTO nuq.group_crawl (id, owner_id, ttl, expires_at) VALUES (gen_random_uuid(), $1, $2, now() + make_interval(secs => $3)) RETURNING id, status::text AS status, created_at, owner_id, ttl, expires_at"@,
{
    "INSERT INTO nuq.group_crawl (id, owner_id, ttl, expires_at) VALUES (gen_random_uuid(), $1, $2, now() + make_interval(secs => $3)) RETURNING id, status::text AS status, created_at, owner_id, ttl, expires_at"
}

/// The group with an id.
pub fn sql_get_crawl_group() -> (r: &'static str)
    ensures
        r@ == "SELECT id, status::text AS status, created_at, owner_id, ttl, expires_at FROM nuq.group_crawl WHERE id = $1"@,
{
    "SELECT id, status::text AS status, created_at, owner_id, ttl, expires_at FROM nuq.group_crawl WHERE id = $1"
}

/// Sets the state of a group: id and state.
pub fn sql_set_group_status() -> (r: &'static str)
    ensures
        r@ == "UPDATE nuq.group_crawl SET status = $2::text::nuq.group_status WHERE id = $1"@,
{
    "UPDATE nuq.group_crawl SET status = $2::text::nuq.group_status WHERE id = $1"
}

/// Cancels the jobs of a group that are still queued or active.
pub fn sql_cancel_group_jobs() -> (r: &'static str)
    ensures
        r@ == "UPDATE nuq.queue_scrape SET status = 'cancelled', finished_at = now(), lock = NULL, locked_at = NULL WHERE group_id = $1 AND status IN ('queued', 'active')"@,
{
    "UPDATE nuq.queue_scrape SET status = 'cancelled', finished_at = now(), lock = NULL, locked_at = NULL WHERE group_id = $1 AND status IN ('queued', 'active')"
}

/// Cancels a group.
pub fn sql_cancel_group() -> (r: &'static str)
    ensures
        r@ == "UPDATE nuq.group_crawl SET status = 'cancelled' WHERE id = $1"@,
{
    "UPDATE nuq.group_crawl SET status = 'cancelled' WHERE id = $1"
}

/// Puts one job into a group: id, time of creation and group.
pub fn sql_update_job_group() -> (r: &'static str)
    ensures
        r@ == "UPDATE nuq.queue_scrape SET group_id = $3 WHERE id = $1 AND created_at = $2"@,
{
    "UPDATE nuq.queue_scrape SET group_id = $3 WHERE id = $1 AND created_at = $2"
}

/// Queues again the jobs that were claimed longer ago than a number of seconds.
pub fn sql_requeue_stalled_jobs() -> (r: &'static str)
    ensures
        r@ == "UPDATE nuq.queue_scrape SET status = 'queued', lock = NULL, locked_at = NULL, stalls = COALESCE(stalls, 0) + 1 WHERE status = 'active' AND locked_at < now() - make_interval(secs => $1)"@,
{
    "UPDATE nuq.queue_scrape SET status = 'queued', lock = NULL, locked_at = NULL, stalls = COALESCE(stalls, 0) + 1 WHERE status = 'active' AND locked_at < now() - make_interval(secs => $1)"
}

/// Fails the queued jobs that have stalled a number of times.
pub fn sql_fail_over_stalled_jobs() -> (r: &'static str)
    ensures
        r@ == "UPDATE nuq.queue_scrape SET status = 'failed', failedreason = 'exceeded maximum stall count', finished_at = now() WHERE status = 'queued' AND stalls >= $1"@,
{
    "UPDATE nuq.queue_scrape SET status = 'failed', failedreason = 'exceeded maximum stall count', finished_at = now() WHERE status = 'queued' AND stalls >= $1"
}

/// The active groups, the youngest first.
pub fn sql_get_active_groups() -> (r: &'static str)
    ensures
        r@ == "SELECT id, status::text AS status, created_at, owner_id, ttl, expires_at FROM nuq.group_crawl WHERE status = 'active' ORDER BY created_at DESC"@,
{
    "SELECT id, status::text AS status, created_at, owner_id, ttl, expires_at FROM nuq.group_crawl WHERE status = 'active' ORDER BY created_at DESC"
}

} // verus!
