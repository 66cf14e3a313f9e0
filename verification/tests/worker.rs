use fire_ctrl::config::WorkerConfig;
use fire_ctrl::json::{parse_json, Json};
use fire_ctrl::llm::{ExtractionMetadata, ExtractionResult};
use fire_ctrl::models::{
    AppError, BatchScrapeJobData, CrawlJobData, ExtractJobData, ExtractOptions, JobEnvelope,
    MapJobData, OutputFormat, ScrapeJobData, ScrapeMetadata, ScrapeOptions, ScrapeResult,
    WebhookConfig,
};
use fire_ctrl::worker::{
    add_page, apply_extraction, batch_group, batch_page_job, cause_suffix, claimed, connectivity_error,
    crawl_group, crawl_started, error_chain, execute, extract_done, extract_page_job,
    extract_urls, extraction_of_page, failure_reason, is_local_webhook, job_ended, run_batch_scrape,
    run_crawl, run_extract, run_scrape, stale_after_seconds, stall_limit, surviving_ids, BatchRun, Claim,
    DeliveryOutcome, DeliveryStep, GroupPlan, JobOutcome, JobStep, RecoveryStep, ScrapedPage,
    StallRecovery, WebhookDelivery, WorkerPool, WorkerStep,
};

fn config() -> WorkerConfig {
    WorkerConfig {
        num_workers: 3,
        max_concurrent_jobs: 2,
        job_timeout_seconds: 300,
        max_stalls: 4,
    }
}

fn scrape_job(webhook: Option<&str>) -> ScrapeJobData {
    ScrapeJobData {
        url: "https://example.com".to_string(),
        formats: vec![],
        only_main_content: false,
        include_tags: vec![],
        exclude_tags: vec![],
        headers: None,
        wait_for: 0,
        mobile: false,
        timeout: None,
        extract: None,
        actions: vec![],
        location: None,
        webhook: webhook.map(String::from),
    }
}

fn hook(events: &[&str]) -> Option<WebhookConfig> {
    Some(WebhookConfig {
        url: "https://hook.example".to_string(),
        headers: None,
        events: events.iter().map(|e| e.to_string()).collect(),
    })
}

fn crawl_job(webhook: Option<WebhookConfig>, group_id: Option<u128>) -> CrawlJobData {
    CrawlJobData {
        url: "https://example.com".to_string(),
        max_depth: 1,
        limit: 5,
        scrape_options: ScrapeOptions::default(),
        allow_backward_links: false,
        allow_external_links: false,
        ignore_sitemap: false,
        include_paths: vec![],
        exclude_paths: vec![],
        webhook,
        priority: 0,
        ttl_ms: 1_000,
        group_id,
    }
}

fn result(markdown: Option<&str>) -> ScrapeResult {
    ScrapeResult {
        url: "https://example.com".to_string(),
        title: None,
        markdown: markdown.map(String::from),
        html: None,
        raw_html: Some("raw".to_string()),
        screenshot: None,
        links: None,
        extract: None,
        json: None,
        warning: None,
        metadata: ScrapeMetadata {
            status_code: 200,
            content_type: None,
            source_url: "https://example.com".to_string(),
            scrape_id: None,
            error: None,
        },
    }
}

fn show(steps: &[JobStep]) -> Vec<String> {
    steps
        .iter()
        .map(|s| match s {
            JobStep::StorePage { group_id, priority, data, result } => {
                format!("store {group_id} {priority} {} {}", data.to_text(), result.to_text())
            }
            JobStep::FinishGroup { group_id } => format!("finish {group_id}"),
            JobStep::Complete { result } => format!("complete {}", result.to_text()),
            JobStep::Fail { reason } => format!("fail {reason}"),
            JobStep::Notify { url, payload } => format!("notify {url} {}", payload.to_text()),
        })
        .collect()
}

#[test]
fn detects_local_and_private_webhook_targets() {
    assert!(is_local_webhook("http://localhost:8080/hook"));
    assert!(is_local_webhook("http://127.0.0.1:8080/hook"));
    assert!(is_local_webhook("http://10.0.0.2/hook"));
    assert!(is_local_webhook("http://192.168.1.10/hook"));
    assert!(is_local_webhook("http://172.16.0.9/hook"));
    assert!(is_local_webhook("http://[::1]/hook"));
    assert!(!is_local_webhook("https://example.com/webhook"));
}

#[test]
fn edges_of_the_local_ranges() {
    for local in [
        "http://LocalHost/",
        "http://126.255.255.255.nip/", // a name, not an address
        "http://172.31.255.255/",
        "http://169.254.0.1/",
        "http://255.255.255.255/",
        "http://0.0.0.0/",
        "http://224.0.0.1/",
        "http://239.255.255.255/",
        "http://[fc00::1]/",
        "http://[fdff::]/",
        "http://[fe80::1]/",
        "http://[febf::]/",
        "http://[::]/",
        "http://[ff02::1]/",
    ] {
        assert_eq!(is_local_webhook(local), !local.contains("nip"), "{local}");
    }
    for public in [
        "http://126.255.255.255/",
        "http://128.0.0.0/",
        "http://172.15.255.255/",
        "http://172.32.0.0/",
        "http://11.0.0.0/",
        "http://192.167.255.255/",
        "http://192.169.0.0/",
        "http://223.255.255.255/",
        "http://240.0.0.0/",
        "http://[::2]/",
        "http://[fbff::]/",
        "http://[fe00::]/",
        "http://[fec0::]/",
        "mailto:a@b.c",
        "not a url",
    ] {
        assert!(!is_local_webhook(public), "{public}");
    }
}

#[test]
fn blocks_ssrf_target_when_local_webhooks_disabled() {
    assert!(WebhookDelivery::fire_webhook(false, "http://127.0.0.1:65535/hook").is_none());
    assert!(WebhookDelivery::fire_webhook(true, "http://127.0.0.1:65535/hook").is_some());
    assert!(WebhookDelivery::fire_webhook(false, "https://example.com/").is_some());
}

#[test]
fn retries_webhook_on_retryable_failures() {
    let mut delivery = WebhookDelivery::fire_webhook(true, "http://127.0.0.1:9/hook").unwrap();
    let failed = DeliveryOutcome::Status(500);
    assert_eq!(delivery.attempted(failed), DeliveryStep::Again { pause_ms: 200 });
    assert_eq!(delivery.attempted(failed), DeliveryStep::Again { pause_ms: 400 });
    assert_eq!(delivery.attempted(failed), DeliveryStep::Finished { delivered: false });
}

#[test]
fn delivery_outcomes() {
    let first = |outcome| {
        WebhookDelivery::fire_webhook(true, "https://example.com/").unwrap().attempted(outcome)
    };
    assert_eq!(first(DeliveryOutcome::Status(204)), DeliveryStep::Finished { delivered: true });
    assert_eq!(first(DeliveryOutcome::Status(404)), DeliveryStep::Finished { delivered: false });
    assert_eq!(first(DeliveryOutcome::Status(301)), DeliveryStep::Finished { delivered: false });
    assert_eq!(first(DeliveryOutcome::Status(429)), DeliveryStep::Again { pause_ms: 200 });
    assert_eq!(first(DeliveryOutcome::NotSent), DeliveryStep::Again { pause_ms: 200 });
}

#[test]
fn worker_ids_are_stable() {
    let pool = WorkerPool::new(config(), false);
    assert_eq!(pool.run(), vec![0, 1, 2]);
    assert_eq!(surviving_ids(&vec![0, 1, 2], 0), vec![2, 1]);
    assert_eq!(surviving_ids(&vec![0, 1, 2], 1), vec![0, 2]);
    assert_eq!(surviving_ids(&vec![0, 1, 2], 2), vec![0, 1]);
    let mut tasks = vec!['a', 'b', 'c'];
    tasks.swap_remove(0);
    assert_eq!(tasks, vec!['c', 'b']);
}

#[test]
fn stalled_jobs_are_recovered() {
    assert_eq!(stale_after_seconds(&config()), 330);
    assert_eq!(stall_limit(&config()), 4);
    assert_eq!(stall_limit(&WorkerConfig { max_stalls: u32::MAX, ..config() }), -1);
    let mut recovery = StallRecovery::new();
    let mut pauses = Vec::new();
    for _ in 0..8 {
        match recovery.requeued(false) {
            RecoveryStep::Pause { seconds } => pauses.push(seconds),
            other => panic!("{other:?}"),
        }
    }
    assert_eq!(pauses, vec![2, 4, 8, 16, 32, 64, 120, 120]);
    assert_eq!(recovery.requeued(true), RecoveryStep::FailOver);
    assert_eq!(recovery.requeued(false), RecoveryStep::Pause { seconds: 2 });
}

#[test]
fn claims_lead_to_steps() {
    assert!(matches!(claimed(&config(), Claim::Nothing), WorkerStep::Pause { milliseconds: 500 }));
    assert!(matches!(claimed(&config(), Claim::Failed), WorkerStep::Pause { milliseconds: 2000 }));
    match claimed(&config(), Claim::Job(None)) {
        WorkerStep::Fail { reason } => assert_eq!(reason, "invalid job envelope"),
        other => panic!("{other:?}"),
    }
    match claimed(&config(), Claim::Job(Some(JobEnvelope::Scrape(scrape_job(None))))) {
        WorkerStep::Execute { envelope: JobEnvelope::Scrape(j), timeout_seconds } => {
            assert_eq!(timeout_seconds, 300);
            assert!(execute(&JobEnvelope::Scrape(j)).is_ok());
        }
        other => panic!("{other:?}"),
    }
}

#[test]
fn failures_have_reasons() {
    assert_eq!(failure_reason(&JobOutcome::Done), None);
    assert_eq!(failure_reason(&JobOutcome::TimedOut).as_deref(), Some("job timeout"));
    assert_eq!(
        failure_reason(&JobOutcome::Failed(AppError::Timeout)).as_deref(),
        Some("timeout")
    );
}

#[test]
fn failed_jobs_are_marked_and_told() {
    let batch = |events: &[&str]| {
        JobEnvelope::BatchScrape(BatchScrapeJobData {
            urls: vec![],
            scrape_options: ScrapeOptions::default(),
            webhook: hook(events),
            priority: 0,
        })
    };
    let crawl = |events: &[&str]| JobEnvelope::Crawl(crawl_job(hook(events), None));
    let failed = JobOutcome::Failed(AppError::Scraper("gone".to_string()));
    let ended = |envelope: &JobEnvelope, outcome: &JobOutcome| show(&job_ended(envelope, 1, outcome));
    assert_eq!(
        ended(&crawl(&["failed"]), &failed),
        [
            "fail scraper error: gone",
            "notify https://hook.example {\"type\":\"crawl.failed\",\"job_id\":\
             \"00000000-0000-0000-0000-000000000001\",\"error\":\"scraper error: gone\"}"
        ]
    );
    assert_eq!(
        ended(&batch(&["page", "failed"]), &JobOutcome::TimedOut),
        [
            "fail job timeout",
            "notify https://hook.example {\"type\":\"batch_scrape.failed\",\"job_id\":\
             \"00000000-0000-0000-0000-000000000001\",\"error\":\"job timeout\"}"
        ]
    );
    for quiet in [crawl(&["page"]), crawl(&[]), batch(&["completed"])] {
        assert_eq!(ended(&quiet, &JobOutcome::TimedOut), ["fail job timeout"]);
    }
    let scrape = JobEnvelope::Scrape(scrape_job(Some("https://hook.example")));
    assert_eq!(ended(&scrape, &JobOutcome::TimedOut), ["fail job timeout"]);
    assert!(ended(&crawl(&["failed"]), &JobOutcome::Done).is_empty());
}

#[test]
fn map_jobs_are_refused() {
    let map = JobEnvelope::UrlMap(MapJobData {
        url: "https://example.com".to_string(),
        search: None,
        ignore_sitemap: false,
        include_subdomains: false,
        limit: 5,
    });
    match execute(&map) {
        Err(AppError::BadRequest(m)) => {
            assert_eq!(m, "map jobs are synchronous and must not be enqueued")
        }
        other => panic!("{other:?}"),
    }
}

#[test]
fn causes_are_chained() {
    let causes = vec!["a".to_string(), "b".to_string()];
    assert_eq!(error_chain(&causes), "a -> b");
    assert_eq!(error_chain(&vec![]), "(no further cause)");
    assert_eq!(cause_suffix(&causes), " -> a -> b");
    assert_eq!(cause_suffix(&vec![]), "");
    let text = connectivity_error("refused", &causes);
    assert!(text.starts_with("Database connectivity check failed: refused\nHint: verify POSTGRES_*"));
    assert!(text.ends_with("\nCause chain: a -> b"));
}

#[test]
fn scrape_completes_before_it_notifies() {
    let steps = run_scrape(&scrape_job(Some("https://hook.example")), 1, Json::Bool(true));
    assert_eq!(
        show(&steps),
        [
            "complete true",
            "notify https://hook.example {\"type\":\"scrape.completed\",\"job_id\":\
             \"00000000-0000-0000-0000-000000000001\",\"data\":true}"
        ]
    );
    assert_eq!(show(&run_scrape(&scrape_job(None), 1, Json::Null)), ["complete null"]);
}

#[test]
fn crawl_uses_its_group() {
    assert_eq!(crawl_group(&crawl_job(None, Some(8))), GroupPlan::Existing { id: 8 });
    assert_eq!(crawl_group(&crawl_job(None, None)), GroupPlan::Create { ttl_ms: 1_000 });
    assert!(crawl_started(&crawl_job(None, None), 1, 2).is_none());
    assert!(crawl_started(&crawl_job(hook(&["page", "completed"]), None), 1, 2).is_none());
    // Where no event is named, the start and the end are sent.
    for events in [&["started"][..], &[][..]] {
        let started = crawl_started(&crawl_job(hook(events), None), 1, 2).unwrap();
        assert_eq!(
            show(&[started]),
            ["notify https://hook.example {\"type\":\"crawl.started\",\"job_id\":\
              \"00000000-0000-0000-0000-000000000001\",\"group_id\":\
              \"00000000-0000-0000-0000-000000000002\"}"]
        );
    }
}

#[test]
fn crawl_stores_then_completes() {
    let pages = vec![
        ScrapedPage { url: "https://e.com/a".to_string(), result: Json::Text("ra".to_string()) },
        ScrapedPage { url: "https://e.com/b".to_string(), result: Json::Text("rb".to_string()) },
    ];
    let stored = |p: &str, r: &str| {
        format!(
            "store 2 0 {{\"kind\":\"scrape\",\"payload\":{{\"url\":\"https://e.com/{p}\",\"formats\":\
             [\"markdown\"]}}}} \"{r}\""
        )
    };
    let id = "\"00000000-0000-0000-0000-000000000001\"";
    let group = "\"00000000-0000-0000-0000-000000000002\"";
    let page = |r: &str| {
        format!("notify https://hook.example {{\"type\":\"crawl.page\",\"job_id\":{id},\"data\":\"{r}\"}}")
    };
    let complete = format!("complete {{\"total\":2,\"group_id\":{group}}}");
    let over = format!(
        "notify https://hook.example {{\"type\":\"crawl.completed\",\"job_id\":{id},\"group_id\":\
         {group},\"total\":2}}"
    );
    let finish = "finish 2".to_string();
    let steps = |events: Option<&[&str]>| {
        show(&run_crawl(&crawl_job(events.and_then(hook), None), 1, 2, &pages))
    };
    let (a, b) = (stored("a", "ra"), stored("b", "rb"));
    assert_eq!(
        steps(Some(&["page"])),
        vec![a.clone(), page("ra"), b.clone(), page("rb"), finish.clone(), complete.clone()]
    );
    assert_eq!(
        steps(Some(&["completed"])),
        vec![a.clone(), b.clone(), finish.clone(), complete.clone(), over.clone()]
    );
    assert_eq!(
        steps(Some(&["page", "completed"])),
        vec![
            a.clone(),
            page("ra"),
            b.clone(),
            page("rb"),
            finish.clone(),
            complete.clone(),
            over.clone()
        ]
    );
    let silent = vec![a.clone(), b.clone(), finish.clone(), complete.clone()];
    assert_eq!(steps(Some(&["failed"])), silent);
    assert_eq!(steps(None), silent);
    // Where no event is named, the start and the end are sent.
    assert_eq!(steps(Some(&[])), vec![a, b, finish, complete, over]);
}

#[test]
fn batch_scrapes_and_completes() {
    let mut job = BatchScrapeJobData {
        urls: vec![],
        scrape_options: ScrapeOptions::default(),
        webhook: hook(&[]),
        priority: 7,
    };
    job.scrape_options.formats = vec![OutputFormat::Links];
    job.scrape_options.wait_for = 3;
    let page = batch_page_job(&job, &"https://e.com/".to_string());
    assert_eq!((page.url.as_str(), page.wait_for), ("https://e.com/", 3));
    assert_eq!(page.formats, vec![OutputFormat::Links]);
    assert!(page.webhook.is_none());
    assert_eq!(batch_group(), GroupPlan::Create { ttl_ms: 86_400_000 });
    let scraped = |url: &str| {
        Some(ScrapedPage { url: url.to_string(), result: Json::Text(url.to_string()) })
    };
    let pages = vec![scraped("u"), None, scraped("v"), None];
    let stored = |url: &str| {
        format!(
            "store 2 7 {{\"kind\":\"scrape\",\"payload\":{{\"url\":\"{url}\",\"formats\":\
             [\"markdown\"]}}}} \"{url}\""
        )
    };
    let expected = vec![
        stored("u"),
        stored("v"),
        "finish 2".to_string(),
        "complete {\"total\":2,\"group_id\":\"00000000-0000-0000-0000-000000000002\"}".to_string(),
        "notify https://hook.example {\"type\":\"batch_scrape.completed\",\"job_id\":\
         \"00000000-0000-0000-0000-000000000001\",\"total\":2}"
            .to_string(),
    ];
    assert_eq!(show(&run_batch_scrape(&job, 1, 2, &pages)), expected);
    // The same steps, page by page.
    let mut run = BatchRun::new(&job, 2);
    let mut steps: Vec<JobStep> =
        pages.iter().filter_map(|page| run.page_done(page.as_ref())).collect();
    steps.extend(run.finish(&job, 1));
    assert_eq!(show(&steps), expected);
    // A batch of which no page could be scraped is completed all the same.
    job.webhook = hook(&["page"]);
    assert_eq!(
        show(&run_batch_scrape(&job, 1, 2, &vec![None])),
        [
            "finish 2",
            "complete {\"total\":0,\"group_id\":\"00000000-0000-0000-0000-000000000002\"}"
        ]
    );
}

#[test]
fn extraction_reads_pages_of_one_site() {
    let mut job = ExtractJobData {
        urls: vec![
            "https://a.example/1".to_string(),
            "https://b.example/2".to_string(),
            "no url".to_string(),
            "http://a.example/3".to_string(),
        ],
        prompt: None,
        schema: Some(parse_json("{\"type\":\"object\"}").unwrap()),
        system_prompt: None,
        allow_external_links: false,
        enable_web_search: false,
        ignore_invalid_urls: false,
    };
    assert_eq!(extract_urls(&job), ["https://a.example/1", "no url", "http://a.example/3"]);
    job.allow_external_links = true;
    assert_eq!(extract_urls(&job).len(), 4);
    let page = extract_page_job(&"u".to_string());
    assert_eq!(page.formats, vec![OutputFormat::Markdown]);
    assert!(page.only_main_content);
    let mut content = String::new();
    add_page(&mut content, "u", Some(&result(Some("text"))));
    add_page(&mut content, "v", Some(&result(None)));
    add_page(&mut content, "w", None);
    assert_eq!(content, "## u\n\ntext\n\n");
    let req = run_extract(&job, content);
    assert_eq!(req.prompt, "Extract all relevant information.");
    assert_eq!(req.content, "## u\n\ntext\n\n");
    assert_eq!(req.schema.unwrap().to_text(), "{\"type\":\"object\"}");
    job.prompt = Some("names".to_string());
    assert_eq!(run_extract(&job, String::new()).prompt, "names");
    let done = ExtractionResult {
        data: Json::Bool(true),
        metadata: ExtractionMetadata {
            model: "m".to_string(),
            tokens_used: None,
            processing_time_ms: 1,
        },
        warning: None,
    };
    assert_eq!(show(&[extract_done(Ok(done)).unwrap()]), ["complete {\"data\":true}"]);
    match extract_done(Err("down".to_string())) {
        Err(AppError::Llm(e)) => assert_eq!(e, "down"),
        other => panic!("{other:?}"),
    }
}

#[test]
fn extraction_failures_are_noted() {
    let options = ExtractOptions { prompt: None, schema: None, system_prompt: None };
    let mut page = result(None);
    let req = extraction_of_page(&mut page, &options, 10);
    assert_eq!(req.content, "");
    assert_eq!(req.prompt, "Extract all structured data from this page.");
    apply_extraction(&mut page, Err("down".to_string()));
    assert_eq!(page.metadata.error.as_deref(), Some("LLM extraction failed: down"));
    let mut page = result(Some("0123456789abc"));
    let req = extraction_of_page(&mut page, &options, 10);
    assert_eq!(req.content, "0123456789");
    assert!(page.warning.as_deref().unwrap().contains("from 13 to 10 characters"));
    let done = ExtractionResult {
        data: Json::Null,
        metadata: ExtractionMetadata {
            model: "m".to_string(),
            tokens_used: None,
            processing_time_ms: 1,
        },
        warning: None,
    };
    apply_extraction(&mut page, Ok(done));
    assert!(matches!(page.extract, Some(Json::Null)));
    assert!(page.warning.is_some());
}
