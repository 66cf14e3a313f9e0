//! The HTTP interface: who is let in, what each request makes, and how it is
//! answered.

use crate::config::{AuthConfig, Config, CrawlerConfig, LlmConfig, ResourceConfig};
use crate::database::GroupCounts;
use crate::extracting::{
    add_extraction, before_extraction, extraction_request, or_default, page_text, with_extraction,
};
use crate::ident::{uuid_text, uuid_to_text, Timestamp};
use crate::json::{
    get_in, get_of, json_text, json_views, lemma_array_view, lemma_member_at, lemma_object_view,
    member_views,
    opt_json_clone, opt_json_view, text_in, text_of, Json, JsonNumber, JsonView,
};
use crate::llm::{ExtractionRequest, ExtractionResult};
use crate::models::{
    actions_clone, formats_or_markdown, holds_format, opt_extract_clone, opt_extract_view,
    opt_location_clone, opt_location_view, requested_formats, web_views, AppError, AppErrorView,
    BatchScrapeJobData, BatchScrapeRequest, BatchScrapeResponse, ComponentStatus, CrawlJobData,
    CrawlRequest, CrawlResponse, CrawlStatusResponse, ExtractJobData, ExtractRequest,
    ExtractResponse, ExtractStatusResponse, GroupCrawlRow, GroupStatus, HealthResponse, JobStatus,
    MapResponse, OutputFormat, QueueScrapeRow, ScrapeJobData, ScrapeJobView, ScrapeRequest,
    ScrapeResponse, ScrapeResult, ScrapeResultView, SearchWebResult, SearchWebView, ServiceHealth,
};
use crate::text::{
    contains, is_space, law_text_contains_its_middle, law_trim_takes_white_space_away, opt_clone,
    opt_view, prefix, same_text, signed_decimal, signed_decimal_text, starts_with, strip_prefix_text,
    strings_clone, trim, trim_text, views,
};
use crate::weburl::{is_url, parsed_url};
use vstd::prelude::*;

verus! {

// ---------------------------------------------------------------------------
// The load of the machine
// ---------------------------------------------------------------------------

/// The load of the machine when it was last looked at: the thousandths of the
/// processor in the upper half of a word, those of the memory in the lower half. It is
/// not to be copied, since a copy would not see what is stored later: a program whose
/// tasks share the load keeps the word in one cell, and makes a snapshot of it each time.
#[derive(Debug)]
pub struct ResourceSnapshot {
    pub packed: u64,
}

/// Two loads in one word.
pub open spec fn packed_load(cpu: u64, ram: u64) -> u64 {
    (cpu << 32) | ram
}

/// The load of the processor in a word.
pub open spec fn cpu_load(packed: u64) -> u64 {
    packed >> 32
}

/// The load of the memory in a word.
pub open spec fn ram_load(packed: u64) -> u64 {
    packed & 0xffff_ffff
}

impl ResourceSnapshot {
    /// No load.
    pub fn new() -> (r: Self)
        ensures
            r.packed == 0,
    {
        ResourceSnapshot { packed: 0 }
    }

    /// Takes the load of the processor and of the memory, in thousandths.
    pub fn store(&mut self, cpu: u64, ram: u64)
        ensures
            final(self).packed == packed_load(cpu, ram),
    {
        self.packed = (cpu << 32) | ram;
    }

    /// The load of the processor and of the memory, in thousandths.
    pub fn load(&self) -> (r: (u64, u64))
        ensures
            r == (cpu_load(self.packed), ram_load(self.packed)),
    {
        (self.packed >> 32, self.packed & 0xffff_ffff)
    }
}

/// The load that was stored is the load that is read, as long as each half has
/// room for its number.
pub proof fn law_load_gives_back(cpu: u64, ram: u64)
    requires
        cpu < 0x1_0000_0000,
        ram < 0x1_0000_0000,
    ensures
        cpu_load(packed_load(cpu, ram)) == cpu,
        ram_load(packed_load(cpu, ram)) == ram,
{
    assert(((cpu << 32) | ram) >> 32 == cpu && ((cpu << 32) | ram) & 0xffff_ffff == ram)
        by (bit_vector)
        requires
            cpu < 0x1_0000_0000,
            ram < 0x1_0000_0000,
    ;
}

/// The load and its limits in percent, as they are shown.
#[derive(Debug)]
pub struct ShownLoad {
    pub cpu: String,
    pub max_cpu: String,
    pub ram: String,
    pub max_ram: String,
}

/// The text of the error that a load is over its limit.
pub open spec fn over_limit(name: Seq<char>, load: Seq<char>, limit: Seq<char>) -> Seq<char> {
    name + " usage "@ + load + "% exceeds limit "@ + limit + "%"@
}

fn over_limit_text(name: &str, load: &str, limit: &str) -> (r: String)
    ensures
        r@ == over_limit(name@, load@, limit@),
{
    name.to_owned().concat(" usage ").concat(load).concat("% exceeds limit ").concat(limit).concat(
        "%",
    )
}

/// The text of the error that the machine has no room for another job; the processor is
/// looked at first.
pub open spec fn resource_error(
    resources: ResourceSnapshot,
    limits: ResourceConfig,
    shown: ShownLoad,
) -> Option<Seq<char>> {
    if cpu_load(resources.packed) > limits.max_cpu {
        Some(over_limit("CPU"@, shown.cpu@, shown.max_cpu@))
    } else if ram_load(resources.packed) > limits.max_ram {
        Some(over_limit("RAM"@, shown.ram@, shown.max_ram@))
    } else {
        None
    }
}

/// Whether the machine has room for another job.
pub fn check_resources(
    resources: &ResourceSnapshot,
    limits: &ResourceConfig,
    shown: &ShownLoad,
) -> (r: Result<(), AppError>)
    ensures
        match resource_error(*resources, *limits, *shown) {
            Some(text) => r matches Err(e) && e@ == AppErrorView::ResourceLimit(text),
            None => r is Ok,
        },
        r is Ok <==> cpu_load(resources.packed) <= limits.max_cpu && ram_load(resources.packed)
            <= limits.max_ram,
        cpu_load(resources.packed) > limits.max_cpu ==> (r matches Err(e) && e@
            == AppErrorView::ResourceLimit(
            "CPU"@ + " usage "@ + shown.cpu@ + "% exceeds limit "@ + shown.max_cpu@ + "%"@,
        )),
        cpu_load(resources.packed) <= limits.max_cpu && ram_load(resources.packed) > limits.max_ram
            ==> (r matches Err(e) && e@ == AppErrorView::ResourceLimit(
            "RAM"@ + " usage "@ + shown.ram@ + "% exceeds limit "@ + shown.max_ram@ + "%"@,
        )),
{
    let (cpu, ram) = resources.load();
    if (cpu as i128) > (limits.max_cpu as i128) {
        return Err(
            AppError::ResourceLimit(
                over_limit_text("CPU", shown.cpu.as_str(), shown.max_cpu.as_str()),
            ),
        );
    }
    if (ram as i128) > (limits.max_ram as i128) {
        return Err(
            AppError::ResourceLimit(
                over_limit_text("RAM", shown.ram.as_str(), shown.max_ram.as_str()),
            ),
        );
    }
    Ok(())
}

// ---------------------------------------------------------------------------
// Who is let in
// ---------------------------------------------------------------------------

/// The key that an `Authorization` header presents.
pub open spec fn presented_key(header: Option<Seq<char>>) -> Option<Seq<char>> {
    match header {
        Some(h) => if starts_with(h, "Bearer "@) {
            Some(trim(h.skip("Bearer "@.len() as int)))
        } else {
            None
        },
        None => None,
    }
}

/// A request with the header is let in: where keys are looked at, it has to present
/// the key of the queue or the key for tests. An empty key is none.
pub open spec fn let_in(auth: AuthConfig, header: Option<Seq<char>>) -> bool {
    !auth.use_db_authentication || match presented_key(header) {
        Some(k) => k.len() > 0 && (k == auth.bull_auth_key@ || opt_view(auth.test_api_key)
            == Some(k)),
        None => false,
    }
}

/// Whether a request with the `Authorization` header is let in.
pub fn check_auth(authorization: Option<&str>, cfg: &Config) -> (r: Result<(), AppError>)
    ensures
        if let_in(
            cfg.auth,
            match authorization {
                Some(h) => Some(h@),
                None => None,
            },
        ) {
            r is Ok
        } else {
            r matches Err(e) && e@ == AppErrorView::Unauthorized
        },
{
    if !cfg.auth.use_db_authentication {
        return Ok(());
    }
    let header = match authorization {
        Some(h) => h,
        None => {
            return Err(AppError::Unauthorized);
        },
    };
    let key = match strip_prefix_text(header, "Bearer ") {
        Some(rest) => trim_text(rest.as_str()),
        None => {
            return Err(AppError::Unauthorized);
        },
    };
    if key.as_str().is_empty() {
        return Err(AppError::Unauthorized);
    }
    if same_text(key.as_str(), cfg.auth.bull_auth_key.as_str()) {
        return Ok(());
    }
    match &cfg.auth.test_api_key {
        Some(expected) => if same_text(key.as_str(), expected.as_str()) {
            Ok(())
        } else {
            Err(AppError::Unauthorized)
        },
        None => Err(AppError::Unauthorized),
    }
}

/// Where keys are looked at, a request without a key or with an empty one is never let
/// in, nor is any request where no key is configured, and one that is let in presents a
/// key that is configured.
pub proof fn law_key_is_needed(auth: AuthConfig, header: Option<Seq<char>>)
    requires
        auth.use_db_authentication,
    ensures
        header is None ==> !let_in(auth, header),
        presented_key(header) == Some(Seq::<char>::empty()) ==> !let_in(auth, header),
        auth.bull_auth_key@.len() == 0 && auth.test_api_key is None ==> !let_in(auth, header),
        let_in(auth, header) ==> (presented_key(header) matches Some(k) && (k
            == auth.bull_auth_key@ || opt_view(auth.test_api_key) == Some(k))),
{
}

/// Where keys are not looked at, every request is let in.
pub proof fn law_no_key_is_needed(auth: AuthConfig, header: Option<Seq<char>>)
    requires
        !auth.use_db_authentication,
    ensures
        let_in(auth, header),
{
}

// ---------------------------------------------------------------------------
// The gates of the routes
// ---------------------------------------------------------------------------

/// A route of the interface.
#[derive(Debug, Clone, Copy, PartialEq, Eq, Structural)]
pub enum Route {
    Health,
    Scrape,
    Crawl,
    CrawlStatus,
    CrawlCancel,
    CrawlErrors,
    CrawlOngoing,
    BatchScrape,
    BatchStatus,
    BatchCancel,
    UrlMap,
    Extract,
    ExtractStatus,
    Search,
}

impl Route {
    /// The key of a request is looked at: on all routes but the one that asks after the
    /// health of the service.
    pub open spec fn needs_key(self) -> bool {
        self != Route::Health
    }

    /// The load of the machine is looked at: on the routes that make work.
    pub open spec fn needs_room(self) -> bool {
        self == Route::Scrape || self == Route::Crawl || self == Route::BatchScrape || self
            == Route::Search
    }
}

/// Why a request to a route is turned away, if it is; its key is looked at first.
pub open spec fn gate_error(
    route: Route,
    auth: AuthConfig,
    header: Option<Seq<char>>,
    full: Option<Seq<char>>,
) -> Option<AppErrorView> {
    if route.needs_key() && !let_in(auth, header) {
        Some(AppErrorView::Unauthorized)
    } else if route.needs_room() && full is Some {
        Some(AppErrorView::ResourceLimit(full->0))
    } else {
        None
    }
}

/// Whether a request to a route is served, given its `Authorization` header and the load
/// of the machine.
pub fn gates(
    route: Route,
    authorization: Option<&str>,
    cfg: &Config,
    resources: &ResourceSnapshot,
    shown: &ShownLoad,
) -> (r: Result<(), AppError>)
    ensures
        match gate_error(
            route,
            cfg.auth,
            match authorization {
                Some(h) => Some(h@),
                None => None,
            },
            resource_error(*resources, cfg.resource, *shown),
        ) {
            Some(e) => r matches Err(x) && x@ == e,
            None => r is Ok,
        },
{
    if route != Route::Health {
        check_auth(authorization, cfg)?;
    }
    if route == Route::Scrape || route == Route::Crawl || route == Route::BatchScrape || route
        == Route::Search {
        check_resources(resources, &cfg.resource, shown)?;
    }
    Ok(())
}

/// Every route but the one for the health of the service turns away a request that is
/// not let in. A machine that is full turns away what is to be scraped, crawled, scraped
/// as a batch or searched, and nothing else.
pub proof fn law_gates(
    route: Route,
    auth: AuthConfig,
    header: Option<Seq<char>>,
    full: Option<Seq<char>>,
)
    ensures
        route != Route::Health && !let_in(auth, header) ==> gate_error(route, auth, header, full)
            == Some(AppErrorView::Unauthorized),
        route == Route::Health ==> gate_error(route, auth, header, full) is None,
        let_in(auth, header) && full is Some && (route == Route::Scrape || route == Route::Crawl
            || route == Route::BatchScrape || route == Route::Search) ==> gate_error(
            route,
            auth,
            header,
            full,
        ) == Some(AppErrorView::ResourceLimit(full->0)),
        let_in(auth, header) && !(route == Route::Scrape || route == Route::Crawl || route
            == Route::BatchScrape || route == Route::Search) ==> gate_error(
            route,
            auth,
            header,
            full,
        ) is None,
        let_in(auth, header) && full is None ==> gate_error(route, auth, header, full) is None,
{
}

// ---------------------------------------------------------------------------
// GET /health
// ---------------------------------------------------------------------------

/// The error of the two Redis servers taken together.
pub open spec fn redis_error(primary: Option<Seq<char>>, rate: Option<Seq<char>>) -> Option<
    Seq<char>,
> {
    match (primary, rate) {
        (None, None) => None,
        (Some(e), None) => Some("primary redis: "@ + e),
        (None, Some(e)) => Some("rate-limit redis: "@ + e),
        (Some(a), Some(b)) => Some("primary redis: "@ + a + "; rate-limit redis: "@ + b),
    }
}

/// The error of the two Redis servers holds the error of each; there is none just where
/// neither has one.
pub proof fn law_redis_error(primary: Option<Seq<char>>, rate: Option<Seq<char>>)
    ensures
        redis_error(primary, rate) is None <==> primary is None && rate is None,
        primary matches Some(a) ==> (redis_error(primary, rate) matches Some(e) && contains(e, a)),
        rate matches Some(b) ==> (redis_error(primary, rate) matches Some(e) && contains(e, b)),
{
    let none = Seq::<char>::empty();
    let p = "primary redis: "@;
    let q = "rate-limit redis: "@;
    let m = "; rate-limit redis: "@;
    match (primary, rate) {
        (Some(a), Some(b)) => {
            law_text_contains_its_middle(p, a, m + b);
            assert(p + a + (m + b) =~= p + a + m + b);
            law_text_contains_its_middle(p + a + m, b, none);
            assert(p + a + m + b + none =~= p + a + m + b);
        },
        (Some(a), None) => {
            law_text_contains_its_middle(p, a, none);
            assert(p + a + none =~= p + a);
        },
        (None, Some(b)) => {
            law_text_contains_its_middle(q, b, none);
            assert(q + b + none =~= q + b);
        },
        (None, None) => {},
    }
}

fn redis_error_text(primary: &Option<String>, rate: &Option<String>) -> (r: Option<String>)
    ensures
        opt_view(r) == redis_error(opt_view(*primary), opt_view(*rate)),
{
    match (primary, rate) {
        (None, None) => None,
        (Some(e), None) => Some("primary redis: ".to_owned().concat(e.as_str())),
        (None, Some(e)) => Some("rate-limit redis: ".to_owned().concat(e.as_str())),
        (Some(a), Some(b)) => Some(
            "primary redis: ".to_owned().concat(a.as_str()).concat("; rate-limit redis: ").concat(
                b.as_str(),
            ),
        ),
    }
}

/// Whether the language model counts as healthy, given whether it passed its check: one
/// that is not configured does.
pub fn llm_healthy(cfg: &LlmConfig, check_ok: bool) -> (r: bool)
    ensures
        r == (!cfg.configured() || check_ok),
{
    !cfg.is_configured() || check_ok
}

/// The answer to a question after the health of the service, given the errors of its
/// parts: the HTTP status and the body.
pub fn health_response(
    database: Option<String>,
    redis_primary: Option<String>,
    redis_rate: Option<String>,
    llm_ok: bool,
) -> (r: (u16, HealthResponse))
    ensures
        ({
            let redis = redis_error(opt_view(redis_primary), opt_view(redis_rate));
            let ok = database is None && redis is None && llm_ok;
            &&& r.0 == (if ok {
                200u16
            } else {
                503u16
            })
            &&& r.1.status@ == (if ok {
                "ok"@
            } else {
                "degraded"@
            })
            &&& r.1.services.database.healthy == (database is None)
            &&& r.1.services.database.error == database
            &&& r.1.services.redis.healthy == (redis is None)
            &&& opt_view(r.1.services.redis.error) == redis
            &&& r.1.services.llm.healthy == llm_ok
            &&& r.1.services.llm.error is None
        }),
        r.0 == 200 <==> database is None && redis_primary is None && redis_rate is None && llm_ok,
        r.0 == 200 || r.0 == 503,
        r.1.services.redis.healthy <==> redis_primary is None && redis_rate is None,
        redis_primary matches Some(a) ==> (r.1.services.redis.error matches Some(e) && contains(
            e@,
            a@,
        )),
        redis_rate matches Some(b) ==> (r.1.services.redis.error matches Some(e) && contains(
            e@,
            b@,
        )),
{
    proof {
        law_redis_error(opt_view(redis_primary), opt_view(redis_rate));
    }
    let redis = redis_error_text(&redis_primary, &redis_rate);
    let ok = database.is_none() && redis.is_none() && llm_ok;
    let services = ServiceHealth {
        database: ComponentStatus { healthy: database.is_none(), error: database },
        redis: ComponentStatus { healthy: redis.is_none(), error: redis },
        llm: ComponentStatus { healthy: llm_ok, error: None },
    };
    if ok {
        (200, HealthResponse { status: "ok".to_owned(), services })
    } else {
        (503, HealthResponse { status: "degraded".to_owned(), services })
    }
}

// ---------------------------------------------------------------------------
// POST /v2/scrape
// ---------------------------------------------------------------------------

/// The formats in which a page is scraped: those asked for, and Markdown where data
/// is to be extracted and none of them holds the text of the page.
pub open spec fn effective_formats(formats: Seq<OutputFormat>, extracts: bool) -> Seq<
    OutputFormat,
> {
    let requested = formats_or_markdown(formats);
    if extracts && !requested.contains(OutputFormat::Markdown) && !requested.contains(
        OutputFormat::Html,
    ) && !requested.contains(OutputFormat::RawHtml) {
        requested.push(OutputFormat::Markdown)
    } else {
        requested
    }
}

/// The job that a request to scrape a page is.
pub open spec fn scrape_job(req: ScrapeRequest) -> ScrapeJobView {
    ScrapeJobView {
        url: req.url@,
        formats: effective_formats(req.formats@, req.extract is Some),
        only_main_content: req.only_main_content,
        include_tags: views(req.include_tags@),
        exclude_tags: views(req.exclude_tags@),
        headers: opt_json_view(req.headers),
        wait_for: req.wait_for,
        mobile: req.mobile,
        timeout: req.timeout,
        extract: opt_extract_view(req.extract),
        actions: req.actions@,
        location: opt_location_view(req.location),
        webhook: opt_view(req.webhook),
    }
}

/// The job that a request to scrape a page is.
pub fn scrape_job_of(req: &ScrapeRequest) -> (r: ScrapeJobData)
    ensures
        r@ == scrape_job(*req),
        r.url@ == req.url@,
        req.extract is None && req.formats@.len() > 0 ==> r.formats@ == req.formats@,
        req.extract is None && req.formats@.len() == 0 ==> r.formats@ == seq![
            OutputFormat::Markdown,
        ],
        r.only_main_content == req.only_main_content,
        views(r.include_tags@) == views(req.include_tags@),
        views(r.exclude_tags@) == views(req.exclude_tags@),
        opt_json_view(r.headers) == opt_json_view(req.headers),
        r.wait_for == req.wait_for,
        r.mobile == req.mobile,
        r.timeout == req.timeout,
        opt_extract_view(r.extract) == opt_extract_view(req.extract),
        r.actions@ == req.actions@,
        opt_location_view(r.location) == opt_location_view(req.location),
        opt_view(r.webhook) == opt_view(req.webhook),
{
    let mut formats = requested_formats(&req.formats);
    if req.extract.is_some() && !holds_format(&formats, OutputFormat::Markdown) && !holds_format(
        &formats,
        OutputFormat::Html,
    ) && !holds_format(&formats, OutputFormat::RawHtml) {
        formats.push(OutputFormat::Markdown);
    }
    ScrapeJobData {
        url: req.url.clone(),
        formats,
        only_main_content: req.only_main_content,
        include_tags: strings_clone(&req.include_tags),
        exclude_tags: strings_clone(&req.exclude_tags),
        headers: opt_json_clone(&req.headers),
        wait_for: req.wait_for,
        mobile: req.mobile,
        timeout: req.timeout,
        extract: opt_extract_clone(&req.extract),
        actions: actions_clone(&req.actions),
        location: opt_location_clone(&req.location),
        webhook: opt_clone(&req.webhook),
    }
}

/// What the language model is asked of the scraped page, where something is to be
/// extracted and there is a language model. Where its input was cut, the result says
/// so.
pub fn scrape_extraction(req: &ScrapeRequest, cfg: &Config, result: &mut ScrapeResult) -> (r:
    Option<ExtractionRequest>)
    ensures
        match req.extract {
            Some(options) => if cfg.llm.configured() {
                &&& r matches Some(x)
                &&& x.content@ == prefix(
                    page_text(old(result)@, true),
                    cfg.llm.max_input_chars as nat,
                )
                &&& x.prompt@ == or_default(opt_view(options.prompt), Seq::empty())
                &&& opt_json_view(x.schema) == opt_json_view(options.schema)
                &&& x.system_prompt == options.system_prompt
                &&& final(result)@ == before_extraction(
                    old(result)@,
                    true,
                    cfg.llm.max_input_chars as nat,
                )
            } else {
                r is None && *final(result) == *old(result)
            },
            None => r is None && *final(result) == *old(result),
        },
{
    match &req.extract {
        Some(options) => if cfg.llm.is_configured() {
            proof {
                reveal_strlit("");
                assert(""@ =~= Seq::<char>::empty());
            }
            Some(extraction_request(result, options, "", true, cfg.llm.max_input_chars))
        } else {
            None
        },
        None => None,
    }
}

/// A result without the texts of the page that were not asked for.
pub open spec fn only_requested(
    result: ScrapeResultView,
    formats: Seq<OutputFormat>,
) -> ScrapeResultView {
    let requested = formats_or_markdown(formats);
    ScrapeResultView {
        markdown: if requested.contains(OutputFormat::Markdown) {
            result.markdown
        } else {
            None
        },
        html: if requested.contains(OutputFormat::Html) {
            result.html
        } else {
            None
        },
        raw_html: if requested.contains(OutputFormat::RawHtml) {
            result.raw_html
        } else {
            None
        },
        ..result
    }
}

/// The answer to a request to scrape a page: the result, with what was extracted, and
/// without the texts that were only fetched for that.
pub fn scrape_response(
    req: &ScrapeRequest,
    result: ScrapeResult,
    extraction: Option<ExtractionResult>,
) -> (r: ScrapeResponse)
    ensures
        r.success,
        r.data@ == only_requested(
            match extraction {
                Some(x) => with_extraction(result@, x.data@, opt_view(x.warning)),
                None => result@,
            },
            req.formats@,
        ),
        r.data@.url == result@.url,
        r.data@.title == result@.title,
        r.data@.screenshot == result@.screenshot,
        r.data@.links == result@.links,
        r.data@.json == result@.json,
        r.data@.metadata == result@.metadata,
        r.data@.markdown == (if req.formats@.contains(OutputFormat::Markdown) || req.formats@.len()
            == 0 {
            result@.markdown
        } else {
            None
        }),
        r.data@.html == (if req.formats@.contains(OutputFormat::Html) {
            result@.html
        } else {
            None
        }),
        r.data@.raw_html == (if req.formats@.contains(OutputFormat::RawHtml) {
            result@.raw_html
        } else {
            None
        }),
        extraction matches Some(x) ==> r.data@.extract == Some(x.data@),
        extraction is None ==> r.data@.extract == result@.extract && r.data@.warning
            == result@.warning,
{
    assert(seq![OutputFormat::Markdown][0] == OutputFormat::Markdown);
    let mut data = result;
    if let Some(x) = extraction {
        add_extraction(&mut data, x);
    }
    let requested = requested_formats(&req.formats);
    if !holds_format(&requested, OutputFormat::Markdown) {
        data.markdown = None;
    }
    if !holds_format(&requested, OutputFormat::Html) {
        data.html = None;
    }
    if !holds_format(&requested, OutputFormat::RawHtml) {
        data.raw_html = None;
    }
    ScrapeResponse { success: true, data }
}

/// Where data is to be extracted, the page is scraped in a format that holds its text.
pub proof fn law_extraction_has_text(formats: Seq<OutputFormat>)
    ensures
        ({
            let f = effective_formats(formats, true);
            f.contains(OutputFormat::Markdown) || f.contains(OutputFormat::Html) || f.contains(
                OutputFormat::RawHtml,
            )
        }),
        forall|x: OutputFormat|
            formats_or_markdown(formats).contains(x) ==> #[trigger] effective_formats(
                formats,
                true,
            ).contains(x),
{
    let requested = formats_or_markdown(formats);
    let f = effective_formats(formats, true);
    assert forall|x: OutputFormat| requested.contains(x) implies #[trigger] f.contains(x) by {
        let k = choose|k: int| 0 <= k < requested.len() && requested[k] == x;
        assert(f[k] == x);
    }
    if f.len() > requested.len() {
        assert(f[requested.len() as int] == OutputFormat::Markdown);
    }
}

// ---------------------------------------------------------------------------
// POST /v2/crawl
// ---------------------------------------------------------------------------

/// How long a group is kept, in milliseconds: a day.
pub const GROUP_TTL_MS: i64 = 86_400_000;

/// The lesser of two numbers.
pub open spec fn lesser(a: u32, b: u32) -> u32 {
    if a <= b {
        a
    } else {
        b
    }
}

/// The job that a request to crawl a site is, in the group `group_id`: it goes no
/// further than the configuration allows.
pub fn crawl_job_of(req: CrawlRequest, crawler: &CrawlerConfig, group_id: u128) -> (r:
    CrawlJobData)
    ensures
        r.url == req.url,
        r.max_depth == lesser(req.max_depth, crawler.max_depth),
        r.max_depth <= req.max_depth && r.max_depth <= crawler.max_depth,
        r.max_depth == req.max_depth || r.max_depth == crawler.max_depth,
        r.limit == lesser(req.limit, crawler.max_pages),
        r.limit <= req.limit && r.limit <= crawler.max_pages,
        r.limit == req.limit || r.limit == crawler.max_pages,
        r.scrape_options == req.scrape_options,
        r.allow_backward_links == req.allow_backward_links,
        r.allow_external_links == req.allow_external_links,
        r.ignore_sitemap == req.ignore_sitemap,
        r.include_paths == req.include_paths,
        r.exclude_paths == req.exclude_paths,
        r.webhook == req.webhook,
        r.priority == req.priority,
        r.ttl_ms == GROUP_TTL_MS,
        r.ttl_ms == 24 * 60 * 60 * 1000,
        r.group_id == Some(group_id),
{
    CrawlJobData {
        url: req.url,
        max_depth: if req.max_depth <= crawler.max_depth {
            req.max_depth
        } else {
            crawler.max_depth
        },
        limit: if req.limit <= crawler.max_pages {
            req.limit
        } else {
            crawler.max_pages
        },
        scrape_options: req.scrape_options,
        allow_backward_links: req.allow_backward_links,
        allow_external_links: req.allow_external_links,
        ignore_sitemap: req.ignore_sitemap,
        include_paths: req.include_paths,
        exclude_paths: req.exclude_paths,
        webhook: req.webhook,
        priority: req.priority,
        ttl_ms: GROUP_TTL_MS,
        group_id: Some(group_id),
    }
}

/// The answer to a request to crawl a site.
pub fn crawl_response(group_id: u128) -> (r: CrawlResponse)
    ensures
        r.success,
        r.id == group_id,
        r.url@ == "/v2/crawl/"@ + uuid_text(group_id),
{
    let id = uuid_to_text(group_id);
    CrawlResponse { success: true, id: group_id, url: "/v2/crawl/".to_owned().concat(id.as_str()) }
}

// ---------------------------------------------------------------------------
// GET /v2/crawl/{id}, GET /v2/batch/scrape/{id}
// ---------------------------------------------------------------------------

/// How many jobs a page of a status shows: 25 where the request does not say, and at
/// most 100.
pub open spec fn page_size(limit: Option<i64>) -> i64 {
    match limit {
        Some(n) => if n <= 100 {
            n
        } else {
            100
        },
        None => 25,
    }
}

/// How many jobs a page of a status shows.
pub fn page_limit(limit: Option<i64>) -> (r: i64)
    ensures
        r == page_size(limit),
        limit is None ==> r == 25,
        limit matches Some(n) ==> r <= n && r <= 100 && (r == n || r == 100),
{
    match limit {
        Some(n) => if n <= 100 {
            n
        } else {
            100
        },
        None => 25,
    }
}

/// The URL of the page behind the job `last`.
pub open spec fn page_url(
    path: Seq<char>,
    id: u128,
    last: u128,
    created_at: Timestamp,
    limit: i64,
) -> Seq<char> {
    path + uuid_text(id) + "?after="@ + uuid_text(last) + "&after_created_at="@
        + created_at.rfc3339_text() + "&limit="@ + signed_decimal(limit as int)
}

/// The URL of the page behind the job `last`.
pub fn page_url_of(path: &str, id: u128, last: u128, created_at: Timestamp, limit: i64) -> (r:
    String)
    ensures
        r@ == page_url(path@, id, last, created_at, limit),
        r@ == path@ + uuid_text(id) + "?after="@ + uuid_text(last) + "&after_created_at="@
            + created_at.rfc3339_text() + "&limit="@ + signed_decimal(limit as int),
{
    let id_text = uuid_to_text(id);
    let last_text = uuid_to_text(last);
    let time = created_at.to_rfc3339();
    let limit_text = signed_decimal_text(limit);
    path.to_owned().concat(id_text.as_str()).concat("?after=").concat(last_text.as_str()).concat(
        "&after_created_at=",
    ).concat(time.as_str()).concat("&limit=").concat(limit_text.as_str())
}

/// Where the next page begins: where the page is full, behind its last job.
pub open spec fn next_cursor(rows: Seq<QueueScrapeRow>, limit: i64) -> Option<(u128, Timestamp)> {
    if rows.len() == limit && rows.len() > 0 {
        Some((rows.last().id, rows.last().created_at))
    } else {
        None
    }
}

/// The URL of the next page.
pub open spec fn next_page(
    path: Seq<char>,
    id: u128,
    rows: Seq<QueueScrapeRow>,
    limit: i64,
) -> Option<Seq<char>> {
    match next_cursor(rows, limit) {
        Some((last, time)) => Some(page_url(path, id, last, time, limit)),
        None => None,
    }
}

/// The state of a group as it is shown: a group that is active but has nothing left
/// to do counts as completed.
pub open spec fn overall_status(status: GroupStatus, counts: GroupCounts) -> JobStatus {
    match status {
        GroupStatus::Completed => JobStatus::Completed,
        GroupStatus::Cancelled => JobStatus::Cancelled,
        GroupStatus::Active => if counts.pending == 0 && counts.total > 0 {
            JobStatus::Completed
        } else {
            JobStatus::Scraping
        },
    }
}

/// A page of the status of a group.
#[derive(Debug)]
pub struct GroupPage {
    pub group: GroupCrawlRow,
    pub counts: GroupCounts,
    /// The completed jobs on the page.
    pub rows: Vec<QueueScrapeRow>,
    /// The results among them that are results of pages.
    pub data: Vec<ScrapeResult>,
    /// How many jobs the page shows at most.
    pub limit: i64,
}

/// The answer `r` shows the page, to a question that is asked at `path` after `id`.
pub open spec fn shows_page(
    r: CrawlStatusResponse,
    path: Seq<char>,
    id: u128,
    page: GroupPage,
) -> bool {
    &&& r.status == overall_status(page.group.status, page.counts)
    &&& r.total == page.counts.total
    &&& r.completed == page.counts.completed
    &&& r.failed == page.counts.failed
    &&& r.credits_used == page.counts.completed
    &&& r.expires_at == page.group.expires_at
    &&& opt_view(r.next) == next_page(path, id, page.rows@, page.limit)
    &&& r.data == page.data
}

/// The answer `r` shows a batch in the state `status` that has no group yet.
pub open spec fn shows_pending(r: CrawlStatusResponse, status: JobStatus) -> bool {
    &&& r.status == status
    &&& r.total == 0
    &&& r.completed == 0
    &&& r.failed == 0
    &&& r.credits_used == 0
    &&& r.expires_at is None
    &&& r.next is None
    &&& r.data@.len() == 0
}

fn status_response(path: &str, id: u128, page: GroupPage) -> (r: CrawlStatusResponse)
    ensures
        shows_page(r, path@, id, page),
{
    let GroupPage { group, counts, rows, data, limit } = page;
    let full = limit >= 0 && rows.len() as u64 == limit as u64;
    let next = if full && rows.len() > 0 {
        let last = &rows[rows.len() - 1];
        Some(page_url_of(path, id, last.id, last.created_at, limit))
    } else {
        None
    };
    let status = match group.status {
        GroupStatus::Completed => JobStatus::Completed,
        GroupStatus::Cancelled => JobStatus::Cancelled,
        GroupStatus::Active => if counts.pending == 0 && counts.total > 0 {
            JobStatus::Completed
        } else {
            JobStatus::Scraping
        },
    };
    CrawlStatusResponse {
        status,
        total: counts.total,
        completed: counts.completed,
        failed: counts.failed,
        credits_used: counts.completed,
        expires_at: group.expires_at,
        next,
        data,
    }
}

/// The answer to a question after the state of a crawl.
pub fn crawl_status(page: GroupPage) -> (r: CrawlStatusResponse)
    ensures
        shows_page(r, "/v2/crawl/"@, page.group.id, page),
        r.total == page.counts.total,
        r.completed == page.counts.completed,
        r.failed == page.counts.failed,
        r.credits_used == page.counts.completed,
        r.expires_at == page.group.expires_at,
        r.data == page.data,
        r.next is Some <==> page.rows@.len() > 0 && page.rows@.len() == page.limit,
        r.next matches Some(url) ==> url@ == page_url(
            "/v2/crawl/"@,
            page.group.id,
            page.rows@.last().id,
            page.rows@.last().created_at,
            page.limit,
        ),
        r.status is Cancelled <==> page.group.status is Cancelled,
        r.status is Completed <==> page.group.status is Completed || page.group.status is Active
            && page.counts.pending == 0 && page.counts.total > 0,
        r.status is Scraping <==> page.group.status is Active && !(page.counts.pending == 0
            && page.counts.total > 0),
{
    let id: u128 = page.group.id;
    status_response("/v2/crawl/", id, page)
}

/// The answer to a question after the state of the batch that the job `job` is, with a
/// page of its group, where it has one: the next page is asked for under the id of the
/// job.
pub fn batch_status(job: &QueueScrapeRow, page: Option<GroupPage>) -> (r: CrawlStatusResponse)
    requires
        job.group_id == (match page {
            Some(p) => Some(p.group.id),
            None => None,
        }),
    ensures
        match page {
            Some(p) => shows_page(r, "/v2/batch/scrape/"@, job.id, p),
            None => shows_pending(r, job.status),
        },
        job.group_id is None ==> shows_pending(r, job.status),
        job.group_id is None ==> r.status == job.status && r.total == 0 && r.completed == 0
            && r.failed == 0 && r.credits_used == 0 && r.next is None && r.data@.len() == 0,
        page matches Some(p) ==> {
            &&& r.total == p.counts.total
            &&& r.completed == p.counts.completed
            &&& r.failed == p.counts.failed
            &&& r.credits_used == p.counts.completed
            &&& r.expires_at == p.group.expires_at
            &&& r.data == p.data
            &&& r.next is Some <==> p.rows@.len() > 0 && p.rows@.len() == p.limit
            &&& r.next matches Some(url) ==> url@ == page_url(
                "/v2/batch/scrape/"@,
                job.id,
                p.rows@.last().id,
                p.rows@.last().created_at,
                p.limit,
            )
            &&& r.status is Cancelled <==> p.group.status is Cancelled
            &&& r.status is Completed <==> p.group.status is Completed || p.group.status is Active
                && p.counts.pending == 0 && p.counts.total > 0
            &&& r.status is Scraping <==> p.group.status is Active && !(p.counts.pending == 0
                && p.counts.total > 0)
        },
{
    match page {
        Some(p) => status_response("/v2/batch/scrape/", job.id, p),
        None => CrawlStatusResponse {
            status: job.status,
            total: 0,
            completed: 0,
            failed: 0,
            credits_used: 0,
            expires_at: None,
            next: None,
            data: Vec::new(),
        },
    }
}

// ---------------------------------------------------------------------------
// Following the pages of a status
// ---------------------------------------------------------------------------

/// One point in time is before another.
pub open spec fn earlier(a: Timestamp, b: Timestamp) -> bool {
    a.secs < b.secs || a.secs == b.secs && a.nanos < b.nanos
}

/// A job is behind a cursor, by the time of its creation and its id.
pub open spec fn is_behind(row: QueueScrapeRow, cursor: (u128, Timestamp)) -> bool {
    earlier(cursor.1, row.created_at) || cursor.1 == row.created_at && cursor.0 < row.id
}

/// The jobs stand in order, and no two of them in one place.
pub open spec fn in_order(rows: Seq<QueueScrapeRow>) -> bool {
    forall|i: int, j: int|
        0 <= i < j < rows.len() ==> is_behind(
            #[trigger] rows[j],
            ((#[trigger] rows[i]).id, rows[i].created_at),
        )
}

/// The jobs behind a cursor.
pub open spec fn rows_behind(
    rows: Seq<QueueScrapeRow>,
    cursor: Option<(u128, Timestamp)>,
) -> Seq<QueueScrapeRow>
    decreases rows.len(),
{
    if rows.len() == 0 {
        Seq::empty()
    } else {
        let before = rows_behind(rows.drop_last(), cursor);
        if cursor is None || is_behind(rows.last(), cursor->0) {
            before.push(rows.last())
        } else {
            before
        }
    }
}

/// The page of the jobs `rows` that begins behind a cursor.
pub open spec fn page_behind(
    rows: Seq<QueueScrapeRow>,
    cursor: Option<(u128, Timestamp)>,
    limit: i64,
) -> Seq<QueueScrapeRow> {
    let behind = rows_behind(rows, cursor);
    if behind.len() <= limit {
        behind
    } else {
        behind.take(limit as int)
    }
}

/// The jobs that are seen by who asks for the page behind a cursor, and then for each
/// next one, `pages` pages at most.
pub open spec fn followed(
    rows: Seq<QueueScrapeRow>,
    cursor: Option<(u128, Timestamp)>,
    limit: i64,
    pages: nat,
) -> Seq<QueueScrapeRow>
    decreases pages,
{
    if pages == 0 {
        Seq::empty()
    } else {
        let page = page_behind(rows, cursor, limit);
        match next_cursor(page, limit) {
            Some(c) => page + followed(rows, Some(c), limit, (pages - 1) as nat),
            None => page,
        }
    }
}

proof fn lemma_none_behind(rows: Seq<QueueScrapeRow>, cursor: (u128, Timestamp))
    requires
        forall|i: int| 0 <= i < rows.len() ==> !is_behind(#[trigger] rows[i], cursor),
    ensures
        rows_behind(rows, Some(cursor)) == Seq::<QueueScrapeRow>::empty(),
    decreases rows.len(),
{
    if rows.len() > 0 {
        assert forall|i: int| 0 <= i < rows.drop_last().len() implies !is_behind(
            #[trigger] rows.drop_last()[i],
            cursor,
        ) by {
            assert(rows.drop_last()[i] == rows[i]);
        }
        lemma_none_behind(rows.drop_last(), cursor);
        assert(!is_behind(rows[rows.len() - 1], cursor));
    }
}

proof fn lemma_all_behind(rows: Seq<QueueScrapeRow>)
    ensures
        rows_behind(rows, None) == rows,
    decreases rows.len(),
{
    if rows.len() > 0 {
        lemma_all_behind(rows.drop_last());
        assert(rows.drop_last().push(rows.last()) =~= rows);
    } else {
        assert(rows =~= Seq::empty());
    }
}

/// Behind the `k`-th job are those that stand behind it.
proof fn lemma_behind(rows: Seq<QueueScrapeRow>, k: int)
    requires
        in_order(rows),
        0 < k <= rows.len(),
    ensures
        rows_behind(rows, Some((rows[k - 1].id, rows[k - 1].created_at))) == rows.skip(k),
    decreases rows.len(),
{
    let cursor = (rows[k - 1].id, rows[k - 1].created_at);
    let rest = rows.drop_last();
    if k < rows.len() {
        assert(in_order(rest));
        assert(rest[k - 1] == rows[k - 1]);
        lemma_behind(rest, k);
        assert(is_behind(rows[rows.len() - 1], cursor));
        assert(rest.skip(k).push(rows.last()) =~= rows.skip(k));
    } else {
        assert forall|i: int| 0 <= i < rows.len() implies !is_behind(#[trigger] rows[i], cursor) by {
            if i < k - 1 {
                assert(is_behind(rows[k - 1], (rows[i].id, rows[i].created_at)));
            }
        }
        lemma_none_behind(rows, cursor);
        assert(rows.skip(k) =~= Seq::empty());
    }
}

proof fn lemma_followed(rows: Seq<QueueScrapeRow>, k: int, limit: i64, pages: nat)
    requires
        in_order(rows),
        limit >= 1,
        0 <= k <= rows.len(),
        pages > rows.len() - k,
    ensures
        followed(
            rows,
            if k == 0 {
                None
            } else {
                Some((rows[k - 1].id, rows[k - 1].created_at))
            },
            limit,
            pages,
        ) == rows.skip(k),
    decreases pages,
{
    let cursor = if k == 0 {
        None
    } else {
        Some((rows[k - 1].id, rows[k - 1].created_at))
    };
    if k == 0 {
        lemma_all_behind(rows);
        assert(rows.skip(0) =~= rows);
    } else {
        lemma_behind(rows, k);
    }
    let page = page_behind(rows, cursor, limit);
    if rows.len() - k >= limit {
        assert(page =~= rows.subrange(k, k + limit));
        assert(page.last() == rows[k + limit - 1]);
        lemma_followed(rows, k + limit, limit, (pages - 1) as nat);
        assert(page + rows.skip(k + limit) =~= rows.skip(k));
    } else {
        assert(page =~= rows.skip(k));
    }
}

/// Who follows the pages of a status from the first one on sees every completed job of
/// the group once, in order, as long as the jobs of the group stay as they are.
pub proof fn law_pages_reach_every_row(rows: Seq<QueueScrapeRow>, limit: i64, pages: nat)
    requires
        in_order(rows),
        limit >= 1,
        pages > rows.len(),
    ensures
        followed(rows, None, limit, pages) == rows,
{
    lemma_followed(rows, 0, limit, pages);
    assert(rows.skip(0) =~= rows);
}

/// A page of a status is never larger than the largest page, and a page that is not
/// full is the last one.
pub proof fn law_pages(
    path: Seq<char>,
    id: u128,
    rows: Seq<QueueScrapeRow>,
    limit: Option<i64>,
)
    ensures
        page_size(limit) <= 100,
        rows.len() < page_size(limit) ==> next_page(path, id, rows, page_size(limit)) is None,
{
}

// ---------------------------------------------------------------------------
// DELETE /v2/crawl/{id}, DELETE /v2/batch/scrape/{id}
// ---------------------------------------------------------------------------

/// Something to cancel.
#[derive(Debug, Clone, Copy, PartialEq, Eq, Structural)]
pub enum CancelStep {
    Group(u128),
    Job(u128),
}

/// What is cancelled where `id` is to be: the group with that id, where there is one;
/// else the group of the job with that id, where it has one, and that job.
pub open spec fn cancel_plan(id: u128, is_group: bool, job_group: Option<u128>) -> Seq<
    CancelStep,
> {
    if is_group {
        seq![CancelStep::Group(id)]
    } else {
        match job_group {
            Some(g) => seq![CancelStep::Group(g), CancelStep::Job(id)],
            None => seq![CancelStep::Job(id)],
        }
    }
}

/// What is cancelled where `id` is to be.
pub fn cancel_steps(id: u128, is_group: bool, job_group: Option<u128>) -> (r: Vec<CancelStep>)
    ensures
        r@ == cancel_plan(id, is_group, job_group),
        is_group ==> r@ == seq![CancelStep::Group(id)],
        !is_group ==> r@.len() > 0 && r@.last() == CancelStep::Job(id),
        !is_group && job_group is None ==> r@.len() == 1,
        !is_group ==> (job_group matches Some(g) ==> r@.len() == 2 && r@[0] == CancelStep::Group(
            g,
        )),
{
    let mut r: Vec<CancelStep> = Vec::new();
    if is_group {
        r.push(CancelStep::Group(id));
    } else {
        if let Some(g) = job_group {
            r.push(CancelStep::Group(g));
        }
        r.push(CancelStep::Job(id));
    }
    assert(r@ =~= cancel_plan(id, is_group, job_group));
    r
}

/// The body of the answer to a request to cancel.
pub fn cancel_response() -> (r: Json)
    ensures
        r@ == JsonView::Object(seq![("status"@, JsonView::Text("cancelled"@))]),
{
    let members = vec![("status".to_owned(), json_text("cancelled"))];
    proof {
        lemma_object_view(members);
        assert(member_views(members@) =~= seq![("status"@, JsonView::Text("cancelled"@))]);
    }
    Json::Object(members)
}

// ---------------------------------------------------------------------------
// GET /v2/crawl/{id}/errors
// ---------------------------------------------------------------------------

/// The group whose errors are asked for by `id`: the group with that id, where there
/// is one; else the group of the job with that id.
pub fn errors_group(id: u128, is_group: bool, job_group: Option<u128>) -> (r: Result<
    u128,
    AppError,
>)
    ensures
        if is_group {
            r == Ok::<u128, AppError>(id)
        } else {
            match job_group {
                Some(g) => r == Ok::<u128, AppError>(g),
                None => r matches Err(e) && e@ == AppErrorView::NotFound(uuid_text(id)),
            }
        },
{
    if is_group {
        return Ok(id);
    }
    match job_group {
        Some(g) => Ok(g),
        None => Err(AppError::NotFound(uuid_to_text(id))),
    }
}

/// The URL of the page that a job is about.
pub open spec fn job_url(data: Option<JsonView>) -> Seq<char> {
    or_default(text_in(get_in(get_in(data, "payload"@), "url"@)), Seq::empty())
}

/// A failed job as it is listed.
pub open spec fn job_error(row: QueueScrapeRow) -> JsonView {
    JsonView::Object(
        seq![
            ("id"@, JsonView::Text(uuid_text(row.id))),
            ("timestamp"@, JsonView::Text(row.created_at.json_time_text())),
            ("url"@, JsonView::Text(job_url(opt_json_view(row.data)))),
            ("error"@, JsonView::Text(or_default(opt_view(row.failedreason), "unknown"@))),
        ],
    )
}

/// The failed jobs among `rows`, as they are listed.
pub open spec fn job_errors(rows: Seq<QueueScrapeRow>) -> Seq<JsonView>
    decreases rows.len(),
{
    if rows.len() == 0 {
        Seq::empty()
    } else {
        let before = job_errors(rows.drop_last());
        if rows.last().status == JobStatus::Failed {
            before.push(job_error(rows.last()))
        } else {
            before
        }
    }
}

fn job_error_of(row: &QueueScrapeRow) -> (r: Json)
    ensures
        r@ == job_error(*row),
{
    let id = uuid_to_text(row.id);
    let time = row.created_at.to_json_time();
    let data: Option<&Json> = match &row.data {
        Some(d) => Some(d),
        None => None,
    };
    let url = match text_of(get_of(get_of(data, "payload"), "url")) {
        Some(u) => u,
        None => String::new(),
    };
    let reason = match &row.failedreason {
        Some(e) => e.clone(),
        None => "unknown".to_owned(),
    };
    let members = vec![
        ("id".to_owned(), json_text(id.as_str())),
        ("timestamp".to_owned(), json_text(time.as_str())),
        ("url".to_owned(), json_text(url.as_str())),
        ("error".to_owned(), json_text(reason.as_str())),
    ];
    proof {
        lemma_object_view(members);
        assert(member_views(members@) =~= job_error(*row)->Object_0);
    }
    Json::Object(members)
}

/// The body of the answer to a question after the errors of a group.
pub fn errors_response(rows: &Vec<QueueScrapeRow>) -> (r: Json)
    ensures
        r@ == JsonView::Object(
            seq![
                ("errors"@, JsonView::Array(job_errors(rows@))),
                ("robotsBlocked"@, JsonView::Array(Seq::empty())),
            ],
        ),
{
    let mut errors: Vec<Json> = Vec::new();
    let mut i: usize = 0;
    assert(json_views(errors@) =~= job_errors(rows@.take(0)));
    while i < rows.len()
        invariant
            i <= rows@.len(),
            json_views(errors@) == job_errors(rows@.take(i as int)),
        decreases rows@.len() - i,
    {
        let ghost before = errors@;
        assert(rows@.take(i + 1).drop_last() =~= rows@.take(i as int));
        assert(rows@.take(i + 1).last() == rows@[i as int]);
        if rows[i].status == JobStatus::Failed {
            errors.push(job_error_of(&rows[i]));
            assert(json_views(errors@) =~= json_views(before).push(job_error(rows@[i as int])));
        }
        i = i + 1;
    }
    assert(rows@.take(rows@.len() as int) =~= rows@);
    let blocked: Vec<Json> = Vec::new();
    proof {
        lemma_array_view(errors);
        lemma_array_view(blocked);
        assert(json_views(blocked@) =~= Seq::empty());
    }
    let members = vec![
        ("errors".to_owned(), Json::Array(errors)),
        ("robotsBlocked".to_owned(), Json::Array(blocked)),
    ];
    proof {
        lemma_object_view(members);
        assert(member_views(members@) =~= seq![
            ("errors"@, JsonView::Array(job_errors(rows@))),
            ("robotsBlocked"@, JsonView::Array(Seq::empty())),
        ]);
    }
    Json::Object(members)
}

// ---------------------------------------------------------------------------
// GET /v2/crawl/ongoing
// ---------------------------------------------------------------------------

/// An integer as a JSON number.
pub open spec fn json_int(n: i64) -> JsonView {
    if n >= 0 {
        JsonView::Unsigned(n as u64)
    } else {
        JsonView::Negative(n)
    }
}

/// A group as it is listed.
pub open spec fn listed_group(g: GroupCrawlRow) -> JsonView {
    JsonView::Object(
        seq![
            ("id"@, JsonView::Text(uuid_text(g.id))),
            ("status"@, JsonView::Text(g.status.name())),
            ("created_at"@, JsonView::Text(g.created_at.json_time_text())),
            ("owner_id"@, JsonView::Text(uuid_text(g.owner_id))),
            ("ttl"@, json_int(g.ttl)),
        ],
    )
}

fn listed_group_of(g: &GroupCrawlRow) -> (r: Json)
    ensures
        r@ == listed_group(*g),
{
    let id = uuid_to_text(g.id);
    let time = g.created_at.to_json_time();
    let owner = uuid_to_text(g.owner_id);
    let ttl = if g.ttl >= 0 {
        Json::Number(JsonNumber::Unsigned(g.ttl as u64))
    } else {
        Json::Number(JsonNumber::Negative(g.ttl))
    };
    let members = vec![
        ("id".to_owned(), json_text(id.as_str())),
        ("status".to_owned(), json_text(g.status.as_str())),
        ("created_at".to_owned(), json_text(time.as_str())),
        ("owner_id".to_owned(), json_text(owner.as_str())),
        ("ttl".to_owned(), ttl),
    ];
    proof {
        lemma_object_view(members);
        assert(member_views(members@) =~= listed_group(*g)->Object_0);
    }
    Json::Object(members)
}

/// The body of the answer to a question after the crawls that are under way.
pub fn ongoing_response(groups: &Vec<GroupCrawlRow>) -> (r: Json)
    ensures
        r@ == JsonView::Object(
            seq![
                ("success"@, JsonView::Bool(true)),
                (
                    "crawls"@,
                    JsonView::Array(groups@.map_values(|g: GroupCrawlRow| listed_group(g))),
                ),
            ],
        ),
{
    let ghost listed = groups@.map_values(|g: GroupCrawlRow| listed_group(g));
    let mut crawls: Vec<Json> = Vec::new();
    let mut i: usize = 0;
    assert(json_views(crawls@) =~= listed.take(0));
    while i < groups.len()
        invariant
            i <= groups@.len(),
            listed == groups@.map_values(|g: GroupCrawlRow| listed_group(g)),
            json_views(crawls@) == listed.take(i as int),
        decreases groups@.len() - i,
    {
        let ghost before = crawls@;
        crawls.push(listed_group_of(&groups[i]));
        assert(json_views(crawls@) =~= json_views(before).push(listed[i as int]));
        assert(listed.take(i + 1) =~= listed.take(i as int).push(listed[i as int]));
        i = i + 1;
    }
    assert(listed.take(listed.len() as int) =~= listed);
    proof {
        lemma_array_view(crawls);
    }
    let members = vec![
        ("success".to_owned(), Json::Bool(true)),
        ("crawls".to_owned(), Json::Array(crawls)),
    ];
    proof {
        lemma_object_view(members);
        assert(member_views(members@) =~= seq![
            ("success"@, JsonView::Bool(true)),
            ("crawls"@, JsonView::Array(listed)),
        ]);
    }
    Json::Object(members)
}

// ---------------------------------------------------------------------------
// POST /v2/batch/scrape
// ---------------------------------------------------------------------------

/// The texts that are URLs, or, with `valid` false, those that are none.
pub open spec fn urls_that_are(urls: Seq<Seq<char>>, valid: bool) -> Seq<Seq<char>>
    decreases urls.len(),
{
    if urls.len() == 0 {
        Seq::empty()
    } else {
        let before = urls_that_are(urls.drop_last(), valid);
        if (parsed_url(urls.last()) is Ok) == valid {
            before.push(urls.last())
        } else {
            before
        }
    }
}

/// The texts that are URLs, and those that are none.
pub fn split_urls(urls: &Vec<String>) -> (r: (Vec<String>, Vec<String>))
    ensures
        views(r.0@) == urls_that_are(views(urls@), true),
        views(r.1@) == urls_that_are(views(urls@), false),
        views(r.0@) == views(urls@).filter(|u: Seq<char>| parsed_url(u) is Ok),
        views(r.1@) == views(urls@).filter(|u: Seq<char>| parsed_url(u) is Err),
{
    proof {
        law_urls_are_filtered(views(urls@));
    }
    let ghost all = views(urls@);
    let mut valid: Vec<String> = Vec::new();
    let mut invalid: Vec<String> = Vec::new();
    let mut i: usize = 0;
    assert(views(valid@) =~= urls_that_are(all.take(0), true));
    assert(views(invalid@) =~= urls_that_are(all.take(0), false));
    while i < urls.len()
        invariant
            i <= urls@.len(),
            all == views(urls@),
            views(valid@) == urls_that_are(all.take(i as int), true),
            views(invalid@) == urls_that_are(all.take(i as int), false),
        decreases urls@.len() - i,
    {
        let ghost v = valid@;
        let ghost w = invalid@;
        assert(all.take(i + 1).drop_last() =~= all.take(i as int));
        assert(all.take(i + 1).last() == urls@[i as int]@);
        if is_url(urls[i].as_str()) {
            valid.push(urls[i].clone());
            assert(views(valid@) =~= views(v).push(urls@[i as int]@));
        } else {
            invalid.push(urls[i].clone());
            assert(views(invalid@) =~= views(w).push(urls@[i as int]@));
        }
        i = i + 1;
    }
    assert(all.take(all.len() as int) =~= all);
    (valid, invalid)
}

/// Every text of a batch is either scraped or reported, never both and never neither.
pub proof fn law_batch_is_split(urls: Seq<Seq<char>>)
    ensures
        urls_that_are(urls, true).len() + urls_that_are(urls, false).len() == urls.len(),
        urls_that_are(urls, true).to_multiset().add(urls_that_are(urls, false).to_multiset())
            == urls.to_multiset(),
    decreases urls.len(),
{
    broadcast use vstd::seq_lib::group_to_multiset_ensures;

    if urls.len() > 0 {
        law_batch_is_split(urls.drop_last());
        assert(urls.drop_last().push(urls.last()) =~= urls);
    }
    assert(urls_that_are(urls, true).to_multiset().add(urls_that_are(urls, false).to_multiset())
        =~= urls.to_multiset());
}

/// The job that a request to scrape a list of pages is, and the texts in the list
/// that are no URLs.
pub fn batch_job_of(req: BatchScrapeRequest) -> (r: (BatchScrapeJobData, Vec<String>))
    ensures
        views(r.0.urls@) == urls_that_are(views(req.urls@), true),
        r.0.scrape_options == req.scrape_options,
        r.0.webhook == req.webhook,
        r.0.priority == req.priority,
        views(r.1@) == urls_that_are(views(req.urls@), false),
{
    let (urls, invalid) = split_urls(&req.urls);
    (
        BatchScrapeJobData {
            urls,
            scrape_options: req.scrape_options,
            webhook: req.webhook,
            priority: req.priority,
        },
        invalid,
    )
}

/// The answer to a request to scrape a list of pages.
pub fn batch_response(id: u128, invalid_urls: Vec<String>) -> (r: BatchScrapeResponse)
    ensures
        r.success,
        r.id == id,
        r.url@ == "/v2/batch/scrape/"@ + uuid_text(id),
        r.invalid_urls == invalid_urls,
{
    let text = uuid_to_text(id);
    BatchScrapeResponse {
        success: true,
        id,
        url: "/v2/batch/scrape/".to_owned().concat(text.as_str()),
        invalid_urls,
    }
}

// ---------------------------------------------------------------------------
// POST /v2/map
// ---------------------------------------------------------------------------

/// A URL as a found page.
pub open spec fn bare_result(url: Seq<char>) -> SearchWebView {
    SearchWebView { url, title: None, description: None, category: None }
}

/// The answer to a request to list the URLs of a site.
pub fn map_response(links: Vec<String>) -> (r: MapResponse)
    ensures
        r.success,
        web_views(r.links@) == views(links@).map_values(|u: Seq<char>| bare_result(u)),
        r.links@.len() == links@.len(),
        forall|k: int| 0 <= k < links@.len() ==> (#[trigger] r.links@[k]).url@ == links@[k]@,
{
    let ghost listed = views(links@).map_values(|u: Seq<char>| bare_result(u));
    let mut found: Vec<SearchWebResult> = Vec::new();
    let mut i: usize = 0;
    assert(web_views(found@) =~= listed.take(0));
    while i < links.len()
        invariant
            i <= links@.len(),
            listed == views(links@).map_values(|u: Seq<char>| bare_result(u)),
            web_views(found@) == listed.take(i as int),
        decreases links@.len() - i,
    {
        let ghost before = found@;
        let link = SearchWebResult {
            url: links[i].clone(),
            title: None,
            description: None,
            category: None,
        };
        assert(link@ == listed[i as int]);
        found.push(link);
        assert(web_views(found@) =~= web_views(before).push(listed[i as int]));
        assert(listed.take(i + 1) =~= listed.take(i as int).push(listed[i as int]));
        i = i + 1;
    }
    assert(listed.take(listed.len() as int) =~= listed);
    assert forall|k: int| 0 <= k < links@.len() implies (#[trigger] found@[k]).url@
        == links@[k]@ by {
        assert(web_views(found@)[k] == found@[k]@);
        assert(listed[k] == bare_result(links@[k]@));
    }
    MapResponse { success: true, links: found }
}

// ---------------------------------------------------------------------------
// POST /v2/extract, GET /v2/extract/{id}
// ---------------------------------------------------------------------------

/// The job that a request to extract data of pages is; without a language model the
/// request is refused.
pub fn extract_job_of(req: ExtractRequest, cfg: &Config) -> (r: Result<ExtractJobData, AppError>)
    ensures
        if cfg.llm.configured() {
            r == Ok::<ExtractJobData, AppError>(
                ExtractJobData {
                    urls: req.urls,
                    prompt: req.prompt,
                    schema: req.schema,
                    system_prompt: req.system_prompt,
                    allow_external_links: req.allow_external_links,
                    enable_web_search: req.enable_web_search,
                    ignore_invalid_urls: req.ignore_invalid_urls,
                },
            )
        } else {
            r matches Err(e) && e@ == AppErrorView::BadRequest(
                "LLM not configured. Set OPENAI_API_KEY or OLLAMA_BASE_URL."@,
            )
        },
{
    if !cfg.llm.is_configured() {
        return Err(
            AppError::BadRequest(
                "LLM not configured. Set OPENAI_API_KEY or OLLAMA_BASE_URL.".to_owned(),
            ),
        );
    }
    Ok(
        ExtractJobData {
            urls: req.urls,
            prompt: req.prompt,
            schema: req.schema,
            system_prompt: req.system_prompt,
            allow_external_links: req.allow_external_links,
            enable_web_search: req.enable_web_search,
            ignore_invalid_urls: req.ignore_invalid_urls,
        },
    )
}

/// The answer to a request to extract data of pages.
pub fn extract_response(id: u128) -> (r: ExtractResponse)
    ensures
        r.success,
        r.id == id,
        r.url@ == "/v2/extract/"@ + uuid_text(id),
{
    let text = uuid_to_text(id);
    ExtractResponse { success: true, id, url: "/v2/extract/".to_owned().concat(text.as_str()) }
}

/// The answer to a question after the data that a job extracted.
pub fn extract_status_response(row: QueueScrapeRow) -> (r: ExtractStatusResponse)
    ensures
        r.status == row.status,
        opt_json_view(r.data) == get_in(opt_json_view(row.returnvalue), "data"@),
        r.error == row.failedreason,
{
    let value: Option<&Json> = match &row.returnvalue {
        Some(v) => Some(v),
        None => None,
    };
    let data = match get_of(value, "data") {
        Some(d) => Some(d.clone()),
        None => None,
    };
    ExtractStatusResponse { status: row.status, data, error: row.failedreason }
}

// ---------------------------------------------------------------------------
// Laws of the answers
// ---------------------------------------------------------------------------

/// The key behind `Bearer` is what a header presents, without the white space around it;
/// any other header presents none.
pub proof fn law_presented_key(
    before: Seq<char>,
    key: Seq<char>,
    after: Seq<char>,
    other: Seq<char>,
)
    requires
        forall|i: int| 0 <= i < before.len() ==> is_space(#[trigger] before[i]),
        forall|i: int| 0 <= i < after.len() ==> is_space(#[trigger] after[i]),
        key.len() > 0 ==> !is_space(key[0]) && !is_space(key.last()),
        !starts_with(other, "Bearer "@),
    ensures
        presented_key(Some("Bearer "@ + (before + key + after))) == Some(key),
        presented_key(Some(other)) is None,
        presented_key(None) is None,
{
    let b = "Bearer "@;
    let rest = before + key + after;
    law_text_contains_its_middle(Seq::empty(), b, rest);
    assert((b + rest).skip(b.len() as int) =~= rest);
    law_trim_takes_white_space_away(before, key, after);
}

/// A request that presents a key that is configured is let in.
pub proof fn law_configured_key_is_let_in(auth: AuthConfig, key: Seq<char>)
    requires
        key.len() > 0,
        !is_space(key[0]),
        !is_space(key.last()),
        key == auth.bull_auth_key@ || (auth.test_api_key matches Some(t) && t@ == key),
    ensures
        let_in(auth, Some("Bearer "@ + key)),
{
    let none = Seq::<char>::empty();
    reveal_strlit("Bearer ");
    assert(!starts_with(none, "Bearer "@));
    law_presented_key(none, key, none, none);
    assert(none + key + none =~= key);
}

/// A page is scraped in the formats that were asked for, Markdown where none was, and in
/// no other but Markdown, which is added just where data is to be extracted and no format
/// holds the text of the page.
pub proof fn law_effective_formats(formats: Seq<OutputFormat>, extracts: bool)
    ensures
        ({
            let f = effective_formats(formats, extracts);
            let has_text = formats.contains(OutputFormat::Markdown) || formats.contains(
                OutputFormat::Html,
            ) || formats.contains(OutputFormat::RawHtml);
            &&& formats.len() == 0 ==> f == seq![OutputFormat::Markdown]
            &&& formats.len() > 0 && (!extracts || has_text) ==> f == formats
            &&& formats.len() > 0 && extracts && !has_text ==> f == formats.push(
                OutputFormat::Markdown,
            )
        }),
{
    assert(seq![OutputFormat::Markdown][0] == OutputFormat::Markdown);
}

/// The errors that are listed are those of exactly the jobs that failed, in order.
pub proof fn law_errors_are_those_of_failed_jobs(rows: Seq<QueueScrapeRow>)
    ensures
        job_errors(rows) == rows.filter(
            |row: QueueScrapeRow| row.status == JobStatus::Failed,
        ).map_values(|row: QueueScrapeRow| job_error(row)),
    decreases rows.len(),
{
    reveal(Seq::filter);
    if rows.len() > 0 {
        law_errors_are_those_of_failed_jobs(rows.drop_last());
        let f = |row: QueueScrapeRow| row.status == JobStatus::Failed;
        let g = |row: QueueScrapeRow| job_error(row);
        let before = rows.drop_last().filter(f);
        if rows.last().status == JobStatus::Failed {
            assert(before.push(rows.last()).map_values(g) =~= before.map_values(g).push(
                job_error(rows.last()),
            ));
        }
    } else {
        assert(job_errors(rows) =~= rows.filter(
            |row: QueueScrapeRow| row.status == JobStatus::Failed,
        ).map_values(|row: QueueScrapeRow| job_error(row)));
    }
}

/// A failed job is listed with its id, when it was made, the page that it is about, and
/// why it failed.
pub proof fn law_job_error(row: QueueScrapeRow)
    ensures
        ({
            let e = job_error(row);
            &&& e.get("id"@) == Some(JsonView::Text(uuid_text(row.id)))
            &&& e.get("timestamp"@) == Some(JsonView::Text(row.created_at.json_time_text()))
            &&& (get_in(get_in(opt_json_view(row.data), "payload"@), "url"@) matches Some(
                JsonView::Text(u),
            ) ==> e.get("url"@) == Some(JsonView::Text(u)))
            &&& get_in(get_in(opt_json_view(row.data), "payload"@), "url"@) is None ==> e.get(
                "url"@,
            ) == Some(JsonView::Text(Seq::empty()))
            &&& row.failedreason matches Some(t) ==> e.get("error"@) == Some(JsonView::Text(t@))
            &&& row.failedreason is None ==> e.get("error"@) == Some(JsonView::Text("unknown"@))
        }),
{
    reveal_strlit("id");
    reveal_strlit("timestamp");
    reveal_strlit("url");
    reveal_strlit("error");
    assert("id"@.len() == 2 && "timestamp"@.len() == 9 && "url"@.len() == 3 && "error"@.len() == 5);
    let m = job_error(row)->Object_0;
    lemma_member_at(m, 0);
    lemma_member_at(m, 1);
    lemma_member_at(m, 2);
    lemma_member_at(m, 3);
}

/// A group is listed with its id, its state, when it was made, its owner and how long it
/// is kept.
pub proof fn law_listed_group(g: GroupCrawlRow)
    ensures
        ({
            let j = listed_group(g);
            &&& j.get("id"@) == Some(JsonView::Text(uuid_text(g.id)))
            &&& j.get("status"@) == Some(JsonView::Text(g.status.name()))
            &&& j.get("created_at"@) == Some(JsonView::Text(g.created_at.json_time_text()))
            &&& j.get("owner_id"@) == Some(JsonView::Text(uuid_text(g.owner_id)))
            &&& g.ttl >= 0 ==> j.get("ttl"@) == Some(JsonView::Unsigned(g.ttl as u64))
            &&& g.ttl < 0 ==> j.get("ttl"@) == Some(JsonView::Negative(g.ttl))
        }),
{
    reveal_strlit("id");
    reveal_strlit("status");
    reveal_strlit("created_at");
    reveal_strlit("owner_id");
    reveal_strlit("ttl");
    assert("id"@.len() == 2 && "status"@.len() == 6 && "created_at"@.len() == 10);
    assert("owner_id"@.len() == 8 && "ttl"@.len() == 3);
    let m = listed_group(g)->Object_0;
    lemma_member_at(m, 0);
    lemma_member_at(m, 1);
    lemma_member_at(m, 2);
    lemma_member_at(m, 3);
    lemma_member_at(m, 4);
}

/// The texts of a batch that are scraped are exactly its URLs, and those that are
/// reported exactly the others, each in order.
pub proof fn law_urls_are_filtered(urls: Seq<Seq<char>>)
    ensures
        urls_that_are(urls, true) == urls.filter(|u: Seq<char>| parsed_url(u) is Ok),
        urls_that_are(urls, false) == urls.filter(|u: Seq<char>| parsed_url(u) is Err),
    decreases urls.len(),
{
    reveal(Seq::filter);
    if urls.len() > 0 {
        law_urls_are_filtered(urls.drop_last());
    } else {
        assert(urls =~= Seq::empty());
    }
}
} // verus!
