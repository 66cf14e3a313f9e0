use fire_ctrl::database as sql;
use fire_ctrl::config::DatabaseConfig;
use fire_ctrl::database::{
    map_group_row, map_group_status, map_job_status, map_queue_row, pool_password, require_row,
    require_updated, results_cursor, sql_cancel_group, sql_cancel_group_jobs,
    sql_cancel_job_latest_by_id, sql_claim_next_job, sql_complete_job, sql_create_crawl_group,
    sql_enqueue, sql_enqueue_completed, sql_fail_job, sql_fail_over_stalled_jobs,
    sql_get_active_groups, sql_get_crawl_group, sql_get_job, sql_group_counts,
    sql_group_results_after, sql_group_results_first, sql_ping, sql_requeue_stalled_jobs,
    sql_set_group_status, sql_update_job_group, GroupCounts,
};
use fire_ctrl::ident::Timestamp;
use fire_ctrl::models::{AppError, GroupStatus, JobStatus};

#[test]
fn group_results_are_completed_jobs() {
    for text in [sql::sql_group_results_first(), sql::sql_group_results_after()] {
        assert!(text.contains("WHERE group_id = $1 AND status = 'completed'"));
        assert!(text.contains("ORDER BY created_at ASC, id ASC LIMIT"));
    }
    let failures = sql::sql_group_failures();
    assert!(failures.contains("WHERE group_id = $1 AND status = 'failed' ORDER BY created_at"));
}

#[test]
fn specific_row_queries_include_created_at_predicate() {
    assert!(sql_complete_job().contains("created_at = $2"));
    assert!(sql_fail_job().contains("created_at = $2"));
    assert!(sql_update_job_group().contains("created_at = $2"));
    assert!(sql_cancel_job_latest_by_id().contains("(id, created_at)"));
}

#[test]
fn cancel_job_sql_limits_statuses() {
    let sql = sql_cancel_job_latest_by_id();
    assert!(sql.contains("status IN ('queued', 'active')"));
    assert!(sql.contains("ORDER BY created_at DESC"));
}

#[test]
fn stall_recovery_queries_target_expected_rows() {
    let requeue_sql = sql_requeue_stalled_jobs();
    assert!(requeue_sql.contains("WHERE status = 'active'"));
    assert!(requeue_sql.contains("locked_at < now() - make_interval"));

    let fail_over_sql = sql_fail_over_stalled_jobs();
    assert!(fail_over_sql.contains("WHERE status = 'queued' AND stalls >= $1"));
}

#[test]
fn queries_separate_their_words() {
    assert_eq!(
        sql_get_job(),
        "SELECT id, status::text AS status, data, created_at, returnvalue, failedreason, group_id \
         FROM nuq.queue_scrape WHERE (id, created_at) = (SELECT id, created_at FROM \
         nuq.queue_scrape WHERE id = $1 ORDER BY created_at DESC LIMIT 1)"
    );
    for sql in [
        sql_ping(),
        sql_enqueue(),
        sql_enqueue_completed(),
        sql_claim_next_job(),
        sql_group_results_after(),
        sql_group_results_first(),
        sql_group_counts(),
        sql_create_crawl_group(),
        sql_get_crawl_group(),
        sql_set_group_status(),
        sql_cancel_group_jobs(),
        sql_cancel_group(),
        sql_get_active_groups(),
    ] {
        assert!(!sql.contains("nuq.queue_scrapeWHERE"));
        assert!(!sql.contains('\n'));
    }
    assert!(sql_claim_next_job().contains("FOR UPDATE SKIP LOCKED"));
    assert!(sql_group_results_after().contains("(created_at, id) > ($3, $2)"));
}

#[test]
fn status_names_round_trip() {
    for status in [
        JobStatus::Queued,
        JobStatus::Scraping,
        JobStatus::Active,
        JobStatus::Completed,
        JobStatus::Failed,
        JobStatus::Cancelled,
    ] {
        assert_eq!(map_job_status(status.as_str()), status);
    }
    for status in [GroupStatus::Active, GroupStatus::Completed, GroupStatus::Cancelled] {
        assert_eq!(map_group_status(status.as_str()), status);
    }
    assert_eq!(map_job_status("something else"), JobStatus::Queued);
    assert_eq!(map_group_status("something else"), GroupStatus::Active);
}

#[test]
fn rows_are_mapped() {
    let time = Timestamp { secs: 7, nanos: 0 };
    let job = map_queue_row(3, "failed", None, time, None, Some("why".to_string()), Some(4));
    assert_eq!(job.id, 3);
    assert_eq!(job.status, JobStatus::Failed);
    assert_eq!(job.failedreason.as_deref(), Some("why"));
    assert_eq!(job.group_id, Some(4));
    let group = map_group_row(5, "cancelled", time, 0, 86_400_000, None);
    assert_eq!(group.status, GroupStatus::Cancelled);
    assert_eq!(group.ttl, 86_400_000);
}

#[test]
fn counts_wrap_like_counters() {
    let counts = GroupCounts::from_counts(1, 2, 3, 0x1_0000_0005);
    assert_eq!((counts.completed, counts.failed, counts.pending), (1, 2, 3));
    assert_eq!(counts.total, 5);
    assert_eq!(GroupCounts::from_counts(-1, 0, 0, 0).completed, u32::MAX);
}

#[test]
fn rows_that_are_not_there_are_not_found() {
    assert!(require_updated(1, 1).is_ok());
    match require_updated(0, 0) {
        Err(AppError::NotFound(id)) => assert_eq!(id, "00000000-0000-0000-0000-000000000000"),
        other => panic!("{other:?}"),
    }
    assert_eq!(require_row(1, Some(9)).unwrap(), 9);
    let missing = 0x0123_4567_89ab_cdef_0123_4567_89ab_cdef;
    match require_row::<u8>(missing, None) {
        Err(AppError::NotFound(id)) => assert_eq!(id, "01234567-89ab-cdef-0123-456789abcdef"),
        other => panic!("{other:?}"),
    }
}

#[test]
fn cursor_needs_both_parts() {
    let time = Timestamp { secs: 1, nanos: 2 };
    assert_eq!(results_cursor(Some(1), Some(time)), Some((1, time)));
    assert_eq!(results_cursor(Some(1), None), None);
    assert_eq!(results_cursor(None, Some(time)), None);
}

#[test]
fn empty_password_is_no_password() {
    let mut cfg = DatabaseConfig {
        host: "127.0.0.1".to_string(),
        port: 5432,
        database: "fire_ctrl_test".to_string(),
        user: "postgres".to_string(),
        password: String::new(),
        max_connections: 1,
    };
    assert_eq!(pool_password(&cfg), None);
    cfg.password = "secret".to_string();
    assert_eq!(pool_password(&cfg).as_deref(), Some("secret"));
}
