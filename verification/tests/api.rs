use fire_ctrl::api::{
    batch_job_of, batch_response, batch_status, cancel_response, cancel_steps, check_auth,
    check_resources, crawl_job_of, crawl_response, crawl_status, errors_group, errors_response,
    extract_job_of, extract_response, extract_status_response, gates, health_response,
    llm_healthy, map_response, ongoing_response, page_limit, page_url_of, scrape_extraction,
    scrape_job_of, scrape_response, CancelStep, GroupPage, ResourceSnapshot, Route, ShownLoad,
};
use fire_ctrl::config::{
    AuthConfig, Config, CrawlerConfig, DatabaseConfig, LlmConfig, ProxyConfig, RedisConfig,
    ResourceConfig, SearchConfig, ServerConfig, WorkerConfig,
};
use fire_ctrl::database::GroupCounts;
use fire_ctrl::ident::Timestamp;
use fire_ctrl::json::{parse_json, Json};
use fire_ctrl::llm::{ExtractionMetadata, ExtractionResult};
use fire_ctrl::models::{
    AppError, BatchScrapeRequest, CrawlRequest, ExtractOptions, ExtractRequest, GroupCrawlRow,
    GroupStatus, JobStatus, OutputFormat, QueueScrapeRow, ScrapeMetadata, ScrapeOptions,
    ScrapeRequest, ScrapeResult,
};

fn make_config(use_db_auth: bool, test_api_key: Option<&str>) -> Config {
    Config {
        server: ServerConfig {
            host: "127.0.0.1".to_string(),
            port: 0,
            cors_allow_origins: vec![],
        },
        database: DatabaseConfig {
            host: "127.0.0.1".to_string(),
            port: 5432,
            database: "fire_ctrl_test".to_string(),
            user: "postgres".to_string(),
            password: String::new(),
            max_connections: 1,
        },
        redis: RedisConfig {
            url: "redis://127.0.0.1/0".to_string(),
            rate_limit_url: "redis://127.0.0.1/1".to_string(),
        },
        llm: LlmConfig {
            base_url: "http://127.0.0.1:11434/v1".to_string(),
            api_key: String::new(),
            model_name: "test".to_string(),
            embedding_model: None,
            ollama_base_url: None,
            timeout_seconds: 5,
            max_retries: 1,
            max_input_chars: 1_000,
        },
        crawler: CrawlerConfig {
            max_depth: 1,
            max_pages: 1,
            concurrent_requests: 1,
            request_timeout_seconds: 5,
            user_agent: "fire_ctrl-tests/0.1".to_string(),
            respect_robots_txt: false,
            playwright_url: None,
            browser_pool_size: 1,
        },
        worker: WorkerConfig {
            num_workers: 1,
            max_concurrent_jobs: 1,
            job_timeout_seconds: 5,
            max_stalls: 1,
        },
        auth: AuthConfig {
            use_db_authentication: use_db_auth,
            test_api_key: test_api_key.map(String::from),
            bull_auth_key: "bull-test-key".to_string(),
            allow_local_webhooks: true,
        },
        proxy: ProxyConfig {
            server: None,
            username: None,
            password: None,
        },
        search: SearchConfig {
            searxng_endpoint: None,
            searxng_engines: None,
            searxng_categories: None,
        },
        resource: ResourceConfig {
            max_cpu: 900,
            max_ram: 900,
        },
    }
}

fn scrape_request(formats: Vec<OutputFormat>, extract: Option<ExtractOptions>) -> ScrapeRequest {
    ScrapeRequest {
        url: "https://example.com".to_string(),
        formats,
        only_main_content: true,
        include_tags: vec!["p".to_string()],
        exclude_tags: vec![],
        headers: None,
        wait_for: 5,
        mobile: true,
        timeout: Some(9),
        extract,
        actions: vec![],
        location: None,
        webhook: Some("https://hook.example".to_string()),
    }
}

fn options() -> ExtractOptions {
    ExtractOptions {
        prompt: None,
        schema: Some(Json::Bool(true)),
        system_prompt: Some("sys".to_string()),
    }
}

fn result(markdown: Option<&str>, html: Option<&str>, raw: Option<&str>) -> ScrapeResult {
    ScrapeResult {
        url: "https://example.com".to_string(),
        title: None,
        markdown: markdown.map(String::from),
        html: html.map(String::from),
        raw_html: raw.map(String::from),
        screenshot: None,
        links: None,
        extract: None,
        json: None,
        warning: None,
        metadata: ScrapeMetadata {
            status_code: 200,
            content_type: None,
            source_url: "https://example.com".to_string(),
            scrape_id: None,
            error: None,
        },
    }
}

fn extraction(warning: Option<&str>) -> ExtractionResult {
    ExtractionResult {
        data: Json::Text("found".to_string()),
        metadata: ExtractionMetadata {
            model: "m".to_string(),
            tokens_used: None,
            processing_time_ms: 0,
        },
        warning: warning.map(String::from),
    }
}

#[test]
fn auth_gate_bypassed_when_db_auth_disabled() {
    let cfg = make_config(false, None);
    // No bearer, no test key: the bypass still applies.
    assert!(check_auth(None, &cfg).is_ok());
}

#[test]
fn auth_gate_rejects_missing_bearer_when_enabled() {
    let cfg = make_config(true, Some("expected-key"));
    let err = check_auth(None, &cfg).expect_err("auth must fail without bearer");
    assert!(matches!(err, AppError::Unauthorized), "got {err:?}");
    assert_eq!(err.status_code(), 401);
}

#[test]
fn auth_gate_rejects_wrong_bearer() {
    let cfg = make_config(true, Some("expected-key"));
    assert!(matches!(
        check_auth(Some("Bearer wrong-key"), &cfg),
        Err(AppError::Unauthorized)
    ));
    assert!(check_auth(Some("bearer expected-key"), &cfg).is_err());
    assert!(check_auth(Some("expected-key"), &cfg).is_err());
}

#[test]
fn auth_gate_accepts_correct_bearer_via_test_key() {
    let cfg = make_config(true, Some("expected-key"));
    assert!(check_auth(Some("Bearer expected-key"), &cfg).is_ok());
    assert!(check_auth(Some("Bearer  expected-key "), &cfg).is_ok());
}

#[test]
fn auth_gate_accepts_bull_auth_key() {
    let cfg = make_config(true, None);
    assert!(check_auth(Some("Bearer bull-test-key"), &cfg).is_ok());
}

fn shown() -> ShownLoad {
    ShownLoad {
        cpu: "99".to_string(),
        max_cpu: "90".to_string(),
        ram: "98".to_string(),
        max_ram: "90".to_string(),
    }
}

fn snapshot(cpu: u64, ram: u64) -> ResourceSnapshot {
    let mut snap = ResourceSnapshot::new();
    snap.store(cpu, ram);
    snap
}

#[test]
fn resource_gate_passes_when_below_limits() {
    let cfg = make_config(false, None);
    assert!(check_resources(&snapshot(100, 100), &cfg.resource, &shown()).is_ok());
    assert!(check_resources(&snapshot(900, 900), &cfg.resource, &shown()).is_ok());
    assert!(check_resources(&ResourceSnapshot::new(), &cfg.resource, &shown()).is_ok());
}

#[test]
fn resource_gate_blocks_on_saturated_cpu() {
    let cfg = make_config(false, None);
    let err = check_resources(&snapshot(990, 100), &cfg.resource, &shown())
        .expect_err("CPU saturation must block");
    assert!(matches!(err, AppError::ResourceLimit(_)));
    assert_eq!(err.status_code(), 503, "ResourceLimit must surface as 503");
    assert_eq!(
        err.message(),
        "resource limit exceeded: CPU usage 99% exceeds limit 90%"
    );
}

#[test]
fn resource_gate_blocks_on_saturated_ram() {
    let cfg = make_config(false, None);
    match check_resources(&snapshot(100, 990), &cfg.resource, &shown()) {
        Err(AppError::ResourceLimit(m)) => assert_eq!(m, "RAM usage 98% exceeds limit 90%"),
        other => panic!("{other:?}"),
    }
    let never = ResourceConfig { max_cpu: -1, max_ram: 1000 };
    assert!(check_resources(&ResourceSnapshot::new(), &never, &shown()).is_err());
}

#[test]
fn load_is_read_as_stored() {
    assert_eq!(snapshot(123, 4_000_000_000).load(), (123, 4_000_000_000));
    assert_eq!(ResourceSnapshot::new().load(), (0, 0));
}

#[test]
fn not_found_app_error_maps_to_404_not_500() {
    let (status, body) =
        AppError::NotFound("00000000-0000-0000-0000-000000000000".into()).into_response();
    assert_eq!(status, 404);
    assert_eq!(
        body.to_text(),
        "{\"success\":false,\"error\":\"not found: 00000000-0000-0000-0000-000000000000\"}"
    );
}

#[test]
fn every_error_has_its_status_and_text() {
    let s = || "x".to_string();
    for (error, status, message) in [
        (AppError::Pool(s()), 500, "database pool error: x"),
        (AppError::Postgres(s()), 500, "postgres error: x"),
        (AppError::Redis(s()), 500, "redis error: x"),
        (AppError::Scraper(s()), 500, "scraper error: x"),
        (AppError::Llm(s()), 500, "LLM error: x"),
        (AppError::InvalidUrl(s()), 400, "invalid URL: x"),
        (AppError::NotFound(s()), 404, "not found: x"),
        (AppError::Unauthorized, 401, "unauthorized"),
        (AppError::Serialization(s()), 400, "serialization error: x"),
        (AppError::Timeout, 504, "timeout"),
        (AppError::ResourceLimit(s()), 503, "resource limit exceeded: x"),
        (AppError::BadRequest(s()), 400, "bad request: x"),
    ] {
        assert_eq!(error.status_code(), status);
        assert_eq!(error.message(), message);
    }
}

#[test]
fn pagination_cursor_uses_after_and_after_created_at_and_limit() {
    let id = uuid::Uuid::nil().as_u128();
    let after_id = uuid::Uuid::nil().as_u128();
    let after_created_at: chrono::DateTime<chrono::Utc> =
        chrono::DateTime::from_timestamp(0, 0).expect("epoch parses");
    let time = Timestamp {
        secs: after_created_at.timestamp(),
        nanos: after_created_at.timestamp_subsec_nanos(),
    };
    let url1 = page_url_of("/v2/crawl/", id, after_id, time, 25);
    let url2 = page_url_of("/v2/crawl/", id, after_id, time, 25);
    assert_eq!(
        url1, url2,
        "cursor URL must be deterministic for same inputs"
    );
    assert!(url1.contains("after="));
    assert!(url1.contains("after_created_at="));
    assert!(url1.contains("limit=25"));
    assert_eq!(
        url1,
        format!(
            "/v2/crawl/{}?after={}&after_created_at={}&limit={}",
            uuid::Uuid::nil(),
            uuid::Uuid::nil(),
            after_created_at.to_rfc3339(),
            25
        )
    );
}

fn row(id: u128, status: JobStatus) -> QueueScrapeRow {
    QueueScrapeRow {
        id,
        status,
        data: Some(parse_json("{\"kind\":\"scrape\",\"payload\":{\"url\":\"https://e.com/\"}}").unwrap()),
        created_at: Timestamp { secs: 0, nanos: 0 },
        returnvalue: None,
        failedreason: None,
        group_id: None,
    }
}

fn group(status: GroupStatus) -> GroupCrawlRow {
    GroupCrawlRow {
        id: 1,
        status,
        created_at: Timestamp { secs: 0, nanos: 0 },
        owner_id: 0,
        ttl: 86_400_000,
        expires_at: Some(Timestamp { secs: 9, nanos: 0 }),
    }
}

fn status_page(
    status: GroupStatus,
    counts: GroupCounts,
    rows: Vec<QueueScrapeRow>,
    limit: i64,
) -> GroupPage {
    let data = rows.iter().map(|_| result(None, None, None)).collect();
    GroupPage { group: group(status), counts, rows, data, limit }
}

#[test]
fn status_is_derived_and_paged() {
    assert_eq!(page_limit(None), 25);
    assert_eq!(page_limit(Some(10)), 10);
    assert_eq!(page_limit(Some(500)), 100);
    assert_eq!(page_limit(Some(-3)), -3);
    let counts = GroupCounts { completed: 2, failed: 1, pending: 0, total: 3 };
    let rows = || vec![row(5, JobStatus::Completed), row(6, JobStatus::Completed)];
    let next = "00000000-0000-0000-0000-000000000001?after=00000000-0000-0000-0000-\
                000000000006&after_created_at=1970-01-01T00:00:00+00:00&limit=2";
    let full = crawl_status(status_page(GroupStatus::Active, counts, rows(), 2));
    assert_eq!(full.status, JobStatus::Completed);
    assert_eq!((full.total, full.completed, full.failed, full.credits_used), (3, 2, 1, 2));
    assert_eq!(full.expires_at, Some(Timestamp { secs: 9, nanos: 0 }));
    assert_eq!(full.next.unwrap(), format!("/v2/crawl/{next}"));
    // A job that is no result of a page does not end the pages.
    let mut page = status_page(GroupStatus::Active, counts, rows(), 2);
    page.data.pop();
    let fewer = crawl_status(page);
    assert_eq!(fewer.data.len(), 1);
    assert_eq!(fewer.next.unwrap(), format!("/v2/crawl/{next}"));
    let part = crawl_status(status_page(GroupStatus::Active, counts, rows(), 3));
    assert_eq!(part.next, None);
    let busy = GroupCounts { pending: 1, ..counts };
    let none = crawl_status(status_page(GroupStatus::Active, busy, vec![], 0));
    assert_eq!((none.status, none.next), (JobStatus::Scraping, None));
    let empty = GroupCounts { completed: 0, failed: 0, pending: 0, total: 0 };
    for (status, shown) in [
        (GroupStatus::Active, JobStatus::Scraping),
        (GroupStatus::Completed, JobStatus::Completed),
        (GroupStatus::Cancelled, JobStatus::Cancelled),
    ] {
        let r = crawl_status(status_page(status, empty, vec![], 25));
        assert_eq!(r.status, shown);
    }
}

#[test]
fn batch_is_shown_under_the_id_of_its_job() {
    let mut job = row(8, JobStatus::Queued);
    let pending = batch_status(&job, None);
    assert_eq!((pending.status, pending.total, pending.next), (JobStatus::Queued, 0, None));
    assert!(pending.data.is_empty() && pending.expires_at.is_none());
    job.group_id = Some(1);
    let counts = GroupCounts { completed: 1, failed: 0, pending: 1, total: 2 };
    let rows = vec![row(5, JobStatus::Completed)];
    let r = batch_status(&job, Some(status_page(GroupStatus::Active, counts, rows, 1)));
    assert_eq!(r.status, JobStatus::Scraping);
    assert_eq!(
        r.next.as_deref(),
        Some(
            "/v2/batch/scrape/00000000-0000-0000-0000-000000000008?after=00000000-0000-0000-\
             0000-000000000005&after_created_at=1970-01-01T00:00:00+00:00&limit=1"
        )
    );
}

/// Follows the pages of a group of `n` jobs, `limit` at a time.
fn follow(n: u128, limit: i64) -> (Vec<u128>, usize) {
    let all: Vec<u128> = (0..n).collect();
    let counts = GroupCounts { completed: n as u32, failed: 0, pending: 0, total: n as u32 };
    let (mut seen, mut pages, mut from) = (Vec::new(), 0, 0);
    loop {
        pages += 1;
        let here: Vec<u128> = all[from..].iter().copied().take(limit as usize).collect();
        let rows = here.iter().map(|id| row(*id, JobStatus::Completed)).collect();
        let r = crawl_status(status_page(GroupStatus::Active, counts, rows, limit));
        seen.extend(&here);
        from += here.len();
        match r.next {
            Some(url) => {
                let last = uuid::Uuid::from_u128(here[here.len() - 1]);
                assert!(url.contains(&format!("?after={last}&")));
            }
            None => return (seen, pages),
        }
    }
}

#[test]
fn pages_reach_every_row() {
    for n in [0, 1, 4, 5, 6, 10] {
        assert_eq!(follow(n, 5).0, (0..n).collect::<Vec<u128>>());
    }
    assert_eq!(follow(4, 5).1, 1);
    assert_eq!(follow(6, 5).1, 2);
}

#[test]
fn an_empty_key_is_none() {
    let mut cfg = make_config(true, None);
    cfg.auth.bull_auth_key = String::new();
    for header in ["Bearer ", "Bearer    ", "Bearer x"] {
        assert!(matches!(check_auth(Some(header), &cfg), Err(AppError::Unauthorized)));
    }
    cfg.auth.test_api_key = Some(String::new());
    assert!(check_auth(Some("Bearer "), &cfg).is_err());
}

#[test]
fn routes_have_their_gates() {
    let cfg = make_config(true, Some("expected-key"));
    let key = Some("Bearer expected-key");
    let (free, full) = (snapshot(100, 100), snapshot(990, 100));
    assert!(gates(Route::Health, None, &cfg, &full, &shown()).is_ok());
    let working = [Route::Scrape, Route::Crawl, Route::BatchScrape, Route::Search];
    let reading = [
        Route::CrawlStatus,
        Route::CrawlCancel,
        Route::CrawlErrors,
        Route::CrawlOngoing,
        Route::BatchStatus,
        Route::BatchCancel,
        Route::UrlMap,
        Route::Extract,
        Route::ExtractStatus,
    ];
    for route in working.iter().chain(&reading) {
        let refused = gates(*route, None, &cfg, &full, &shown()).unwrap_err();
        assert_eq!(refused.status_code(), 401, "{route:?}");
        assert!(gates(*route, key, &cfg, &free, &shown()).is_ok());
    }
    for route in working {
        let refused = gates(route, key, &cfg, &full, &shown()).unwrap_err();
        assert_eq!(refused.status_code(), 503, "{route:?}");
    }
    for route in reading {
        assert!(gates(route, key, &cfg, &full, &shown()).is_ok(), "{route:?}");
    }
}

#[test]
fn health_names_what_is_down() {
    let (code, body) = health_response(None, None, None, true);
    assert_eq!((code, body.status.as_str()), (200, "ok"));
    let (code, body) = health_response(None, Some("a".to_string()), Some("b".to_string()), true);
    assert_eq!((code, body.status.as_str()), (503, "degraded"));
    assert_eq!(
        body.services.redis.error.as_deref(),
        Some("primary redis: a; rate-limit redis: b")
    );
    let (_, body) = health_response(None, None, Some("b".to_string()), true);
    assert_eq!(body.services.redis.error.as_deref(), Some("rate-limit redis: b"));
    let mut cfg = make_config(false, None);
    assert!(llm_healthy(&cfg.llm, false) && llm_healthy(&cfg.llm, true));
    cfg.llm.api_key = "k".to_string();
    assert!(!llm_healthy(&cfg.llm, false) && llm_healthy(&cfg.llm, true));
    let (_, body) = health_response(Some("d".to_string()), Some("a".to_string()), None, false);
    assert_eq!(body.services.redis.error.as_deref(), Some("primary redis: a"));
    assert_eq!(body.services.database.error.as_deref(), Some("d"));
    assert!(!body.services.database.healthy && !body.services.llm.healthy);
}

#[test]
fn extraction_gets_a_text_format() {
    let job = scrape_job_of(&scrape_request(vec![], None));
    assert_eq!(job.formats, vec![OutputFormat::Markdown]);
    assert_eq!((job.wait_for, job.mobile, job.timeout), (5, true, Some(9)));
    assert_eq!(job.webhook.as_deref(), Some("https://hook.example"));
    let job = scrape_job_of(&scrape_request(vec![OutputFormat::Extract], Some(options())));
    assert_eq!(job.formats, vec![OutputFormat::Extract, OutputFormat::Markdown]);
    assert_eq!(job.extract.unwrap().system_prompt.as_deref(), Some("sys"));
    let job = scrape_job_of(&scrape_request(vec![OutputFormat::RawHtml], Some(options())));
    assert_eq!(job.formats, vec![OutputFormat::RawHtml]);
}

#[test]
fn extraction_input_is_cut_with_a_warning() {
    let mut cfg = make_config(false, None);
    let req = scrape_request(vec![OutputFormat::Extract], Some(options()));
    let mut page = result(None, None, Some("raw text"));
    assert!(scrape_extraction(&req, &cfg, &mut page).is_none());
    cfg.llm.api_key = "k".to_string();
    let x = scrape_extraction(&req, &cfg, &mut page).unwrap();
    assert_eq!((x.content.as_str(), x.prompt.as_str()), ("raw text", ""));
    assert_eq!(page.warning, None);
    cfg.llm.max_input_chars = 3;
    let mut page = result(Some("m\u{e4}rkdown"), Some("html"), None);
    let x = scrape_extraction(&req, &cfg, &mut page).unwrap();
    assert_eq!(x.content, "m\u{e4}r");
    assert_eq!(
        page.warning.as_deref(),
        Some(
            "Extraction input was truncated from 8 to 3 characters. Refine the prompt or request \
             fewer fields for best results."
        )
    );
    let none = scrape_request(vec![], None);
    assert!(scrape_extraction(&none, &cfg, &mut page).is_none());
}

#[test]
fn response_hides_what_was_not_asked_for() {
    let req = scrape_request(vec![OutputFormat::Extract], Some(options()));
    let mut page = result(Some("md"), Some("html"), Some("raw"));
    page.warning = Some("cut".to_string());
    let r = scrape_response(&req, page, Some(extraction(Some("slow"))));
    assert!(r.success);
    assert_eq!((r.data.markdown, r.data.html, r.data.raw_html), (None, None, None));
    assert_eq!(r.data.extract.unwrap().to_text(), "\"found\"");
    assert_eq!(r.data.warning.as_deref(), Some("cut slow"));
    let req = scrape_request(vec![OutputFormat::Html], None);
    let r = scrape_response(&req, result(Some("md"), Some("html"), Some("raw")), None);
    assert_eq!((r.data.markdown, r.data.html.as_deref()), (None, Some("html")));
    let r = scrape_response(&scrape_request(vec![], None), result(Some("md"), None, None), Some(extraction(None)));
    assert_eq!(r.data.markdown.as_deref(), Some("md"));
    assert_eq!(r.data.warning, None);
}

#[test]
fn crawl_stays_within_the_configuration() {
    let cfg = make_config(false, None);
    let req = CrawlRequest {
        url: "https://example.com".to_string(),
        max_depth: 5,
        limit: 0,
        scrape_options: ScrapeOptions::default(),
        allow_backward_links: true,
        allow_external_links: false,
        ignore_sitemap: true,
        include_paths: vec!["/a".to_string()],
        exclude_paths: vec![],
        webhook: None,
        priority: 4,
    };
    let job = crawl_job_of(req, &cfg.crawler, 77);
    assert_eq!((job.max_depth, job.limit), (1, 0));
    assert_eq!((job.ttl_ms, job.group_id, job.priority), (86_400_000, Some(77), 4));
    assert!(job.allow_backward_links && job.ignore_sitemap);
    let r = crawl_response(0xff);
    assert_eq!(r.url, "/v2/crawl/00000000-0000-0000-0000-0000000000ff");
}

#[test]
fn cancelling_reaches_group_and_job() {
    assert_eq!(cancel_steps(1, true, Some(2)), vec![CancelStep::Group(1)]);
    assert_eq!(cancel_steps(1, false, Some(2)), vec![CancelStep::Group(2), CancelStep::Job(1)]);
    assert_eq!(cancel_steps(1, false, None), vec![CancelStep::Job(1)]);
    assert_eq!(cancel_response().to_text(), "{\"status\":\"cancelled\"}");
}

#[test]
fn errors_are_listed() {
    assert_eq!(errors_group(1, true, None).unwrap(), 1);
    assert_eq!(errors_group(1, false, Some(2)).unwrap(), 2);
    assert_eq!(errors_group(1, false, None).unwrap_err().status_code(), 404);
    let mut failed = row(1, JobStatus::Failed);
    failed.failedreason = Some("no route".to_string());
    let mut bare = row(2, JobStatus::Failed);
    bare.data = None;
    let body = errors_response(&vec![row(0, JobStatus::Completed), failed, bare]);
    assert_eq!(
        body.to_text(),
        "{\"errors\":[{\"id\":\"00000000-0000-0000-0000-000000000001\",\"timestamp\":\
         \"1970-01-01T00:00:00Z\",\"url\":\"https://e.com/\",\"error\":\"no route\"},{\"id\":\
         \"00000000-0000-0000-0000-000000000002\",\"timestamp\":\"1970-01-01T00:00:00Z\",\"url\":\
         \"\",\"error\":\"unknown\"}],\"robotsBlocked\":[]}"
    );
}

#[test]
fn ongoing_crawls_are_listed() {
    let mut g = group(GroupStatus::Active);
    g.ttl = -1;
    assert_eq!(
        ongoing_response(&vec![g]).to_text(),
        "{\"success\":true,\"crawls\":[{\"id\":\"00000000-0000-0000-0000-000000000001\",\"status\":\
         \"active\",\"created_at\":\"1970-01-01T00:00:00Z\",\"owner_id\":\
         \"00000000-0000-0000-0000-000000000000\",\"ttl\":-1}]}"
    );
}

#[test]
fn batch_reports_what_is_no_url() {
    let req = BatchScrapeRequest {
        urls: vec![
            "https://a.example".to_string(),
            "not a url".to_string(),
            "https://b.example".to_string(),
        ],
        scrape_options: ScrapeOptions::default(),
        webhook: None,
        priority: -1,
    };
    let (job, invalid) = batch_job_of(req);
    assert_eq!(job.urls, ["https://a.example", "https://b.example"]);
    assert_eq!(job.priority, -1);
    assert_eq!(invalid, ["not a url"]);
    let r = batch_response(1, invalid);
    assert_eq!(r.url, "/v2/batch/scrape/00000000-0000-0000-0000-000000000001");
    assert_eq!(r.invalid_urls, ["not a url"]);
}

#[test]
fn map_lists_bare_links() {
    let r = map_response(vec!["https://a.example/".to_string()]);
    assert!(r.success);
    assert_eq!(r.links[0].url, "https://a.example/");
    assert_eq!(r.links[0].title, None);
}

#[test]
fn extract_needs_a_language_model() {
    let mut cfg = make_config(false, None);
    let req = || ExtractRequest {
        urls: vec!["https://a.example".to_string()],
        prompt: Some("p".to_string()),
        schema: None,
        system_prompt: None,
        allow_external_links: true,
        enable_web_search: false,
        ignore_invalid_urls: true,
    };
    match extract_job_of(req(), &cfg) {
        Err(AppError::BadRequest(m)) => {
            assert_eq!(m, "LLM not configured. Set OPENAI_API_KEY or OLLAMA_BASE_URL.")
        }
        other => panic!("{other:?}"),
    }
    cfg.llm.ollama_base_url = Some("http://ollama".to_string());
    let job = extract_job_of(req(), &cfg).unwrap();
    assert_eq!(job.urls, ["https://a.example"]);
    assert!(job.allow_external_links && job.ignore_invalid_urls);
    assert_eq!(extract_response(2).url, "/v2/extract/00000000-0000-0000-0000-000000000002");
}

#[test]
fn extract_status_shows_the_data() {
    let mut r = row(1, JobStatus::Completed);
    r.returnvalue = Some(parse_json("{\"data\":{\"a\":1}}").unwrap());
    let status = extract_status_response(r);
    assert_eq!(status.data.unwrap().to_text(), "{\"a\":1}");
    let mut r = row(1, JobStatus::Failed);
    r.failedreason = Some("why".to_string());
    let status = extract_status_response(r);
    assert!(status.data.is_none());
    assert_eq!(status.error.as_deref(), Some("why"));
}
