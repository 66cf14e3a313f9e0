//! Domain types, request and response shapes, and the mapping of errors to
//! HTTP responses.

use crate::ident::Timestamp;
use crate::json::{
    json_text, lemma_member_at, lemma_object_view, member_views, opt_json_clone, opt_json_view, Json,
    JsonView,
};
use crate::text::{opt_clone, opt_view, strings_clone, views};
use vstd::prelude::*;

verus! {

// ---------------------------------------------------------------------------
// Errors
// ---------------------------------------------------------------------------

/// What can go wrong while a request or a job is served.
#[derive(Debug)]
pub enum AppError {
    Pool(String),
    Postgres(String),
    Redis(String),
    Scraper(String),
    Llm(String),
    InvalidUrl(String),
    NotFound(String),
    Unauthorized,
    Serialization(String),
    Timeout,
    ResourceLimit(String),
    BadRequest(String),
}

/// The mathematical value of an `AppError`.
pub enum AppErrorView {
    Pool(Seq<char>),
    Postgres(Seq<char>),
    Redis(Seq<char>),
    Scraper(Seq<char>),
    Llm(Seq<char>),
    InvalidUrl(Seq<char>),
    NotFound(Seq<char>),
    Unauthorized,
    Serialization(Seq<char>),
    Timeout,
    ResourceLimit(Seq<char>),
    BadRequest(Seq<char>),
}

impl View for AppError {
    type V = AppErrorView;

    open spec fn view(&self) -> AppErrorView {
        match self {
            AppError::Pool(e) => AppErrorView::Pool(e@),
            AppError::Postgres(e) => AppErrorView::Postgres(e@),
            AppError::Redis(e) => AppErrorView::Redis(e@),
            AppError::Scraper(e) => AppErrorView::Scraper(e@),
            AppError::Llm(e) => AppErrorView::Llm(e@),
            AppError::InvalidUrl(e) => AppErrorView::InvalidUrl(e@),
            AppError::NotFound(e) => AppErrorView::NotFound(e@),
            AppError::Unauthorized => AppErrorView::Unauthorized,
            AppError::Serialization(e) => AppErrorView::Serialization(e@),
            AppError::Timeout => AppErrorView::Timeout,
            AppError::ResourceLimit(e) => AppErrorView::ResourceLimit(e@),
            AppError::BadRequest(e) => AppErrorView::BadRequest(e@),
        }
    }
}

impl AppErrorView {
    /// The text of the error.
    pub open spec fn message(self) -> Seq<char> {
        match self {
            AppErrorView::Pool(e) => "database pool error: "@ + e,
            AppErrorView::Postgres(e) => "postgres error: "@ + e,
            AppErrorView::Redis(e) => "redis error: "@ + e,
            AppErrorView::Scraper(e) => "scraper error: "@ + e,
            AppErrorView::Llm(e) => "LLM error: "@ + e,
            AppErrorView::InvalidUrl(e) => "invalid URL: "@ + e,
            AppErrorView::NotFound(e) => "not found: "@ + e,
            AppErrorView::Unauthorized => "unauthorized"@,
            AppErrorView::Serialization(e) => "serialization error: "@ + e,
            AppErrorView::Timeout => "timeout"@,
            AppErrorView::ResourceLimit(e) => "resource limit exceeded: "@ + e,
            AppErrorView::BadRequest(e) => "bad request: "@ + e,
        }
    }

    /// The HTTP status that the error is answered with.
    pub open spec fn status_code(self) -> u16 {
        match self {
            AppErrorView::NotFound(_) => 404,
            AppErrorView::Unauthorized => 401,
            AppErrorView::InvalidUrl(_) => 400,
            AppErrorView::Serialization(_) => 400,
            AppErrorView::BadRequest(_) => 400,
            AppErrorView::Timeout => 504,
            AppErrorView::ResourceLimit(_) => 503,
            _ => 500,
        }
    }

    /// The body of the HTTP response.
    pub open spec fn body(self) -> JsonView {
        JsonView::Object(
            seq![
                ("success"@, JsonView::Bool(false)),
                ("error"@, JsonView::Text(self.message())),
            ],
        )
    }
}

impl AppError {
    /// The text of the error.
    pub fn message(&self) -> (r: String)
        ensures
            r@ == self@.message(),
            match *self {
                AppError::Pool(e) => r@ == "database pool error: "@ + e@,
                AppError::Postgres(e) => r@ == "postgres error: "@ + e@,
                AppError::Redis(e) => r@ == "redis error: "@ + e@,
                AppError::Scraper(e) => r@ == "scraper error: "@ + e@,
                AppError::Llm(e) => r@ == "LLM error: "@ + e@,
                AppError::InvalidUrl(e) => r@ == "invalid URL: "@ + e@,
                AppError::NotFound(e) => r@ == "not found: "@ + e@,
                AppError::Unauthorized => r@ == "unauthorized"@,
                AppError::Serialization(e) => r@ == "serialization error: "@ + e@,
                AppError::Timeout => r@ == "timeout"@,
                AppError::ResourceLimit(e) => r@ == "resource limit exceeded: "@ + e@,
                AppError::BadRequest(e) => r@ == "bad request: "@ + e@,
            },
    {
        match self {
            AppError::Pool(e) => "database pool error: ".to_owned().concat(e.as_str()),
            AppError::Postgres(e) => "postgres error: ".to_owned().concat(e.as_str()),
            AppError::Redis(e) => "redis error: ".to_owned().concat(e.as_str()),
            AppError::Scraper(e) => "scraper error: ".to_owned().concat(e.as_str()),
            AppError::Llm(e) => "LLM error: ".to_owned().concat(e.as_str()),
            AppError::InvalidUrl(e) => "invalid URL: ".to_owned().concat(e.as_str()),
            AppError::NotFound(e) => "not found: ".to_owned().concat(e.as_str()),
            AppError::Unauthorized => "unauthorized".to_owned(),
            AppError::Serialization(e) => "serialization error: ".to_owned().concat(e.as_str()),
            AppError::Timeout => "timeout".to_owned(),
            AppError::ResourceLimit(e) => "resource limit exceeded: ".to_owned().concat(e.as_str()),
            AppError::BadRequest(e) => "bad request: ".to_owned().concat(e.as_str()),
        }
    }

    /// The HTTP status that the error is answered with.
    pub fn status_code(&self) -> (r: u16)
        ensures
            r == self@.status_code(),
            match *self {
                AppError::NotFound(_) => r == 404,
                AppError::Unauthorized => r == 401,
                AppError::InvalidUrl(_) => r == 400,
                AppError::Serialization(_) => r == 400,
                AppError::BadRequest(_) => r == 400,
                AppError::Timeout => r == 504,
                AppError::ResourceLimit(_) => r == 503,
                AppError::Pool(_) => r == 500,
                AppError::Postgres(_) => r == 500,
                AppError::Redis(_) => r == 500,
                AppError::Scraper(_) => r == 500,
                AppError::Llm(_) => r == 500,
            },
    {
        match self {
            AppError::NotFound(_) => 404,
            AppError::Unauthorized => 401,
            AppError::InvalidUrl(_) | AppError::Serialization(_) | AppError::BadRequest(_) => 400,
            AppError::Timeout => 504,
            AppError::ResourceLimit(_) => 503,
            _ => 500,
        }
    }

    /// The status and the body of the HTTP response that the error is answered
    /// with.
    pub fn into_response(self) -> (r: (u16, Json))
        ensures
            r.0 == self@.status_code(),
            r.1@ == self@.body(),
    {
        let message = self.message();
        let members = vec![
            ("success".to_owned(), Json::Bool(false)),
            ("error".to_owned(), json_text(message.as_str())),
        ];
        proof {
            lemma_object_view(members);
            assert(member_views(members@) =~= self@.body()->Object_0);
        }
        (self.status_code(), Json::Object(members))
    }
}

// ---------------------------------------------------------------------------
// Status enums
// ---------------------------------------------------------------------------

/// The state of a job.
#[derive(Debug, Clone, Copy, PartialEq, Eq, Structural)]
pub enum JobStatus {
    Queued,
    Scraping,
    Active,
    Completed,
    Failed,
    Cancelled,
}

impl JobStatus {
    /// The name of the state.
    pub open spec fn name(self) -> Seq<char> {
        match self {
            JobStatus::Queued => "queued"@,
            JobStatus::Scraping => "scraping"@,
            JobStatus::Active => "active"@,
            JobStatus::Completed => "completed"@,
            JobStatus::Failed => "failed"@,
            JobStatus::Cancelled => "cancelled"@,
        }
    }

    /// The name of the state.
    pub fn as_str(&self) -> (r: &'static str)
        ensures
            r@ == self.name(),
    {
        match self {
            JobStatus::Queued => "queued",
            JobStatus::Scraping => "scraping",
            JobStatus::Active => "active",
            JobStatus::Completed => "completed",
            JobStatus::Failed => "failed",
            JobStatus::Cancelled => "cancelled",
        }
    }
}

/// The state of a group of jobs.
#[derive(Debug, Clone, Copy, PartialEq, Eq, Structural)]
pub enum GroupStatus {
    Active,
    Completed,
    Cancelled,
}

impl GroupStatus {
    /// The name of the state.
    pub open spec fn name(self) -> Seq<char> {
        match self {
            GroupStatus::Active => "active"@,
            GroupStatus::Completed => "completed"@,
            GroupStatus::Cancelled => "cancelled"@,
        }
    }

    /// The name of the state.
    pub fn as_str(&self) -> (r: &'static str)
        ensures
            r@ == self.name(),
    {
        match self {
            GroupStatus::Active => "active",
            GroupStatus::Completed => "completed",
            GroupStatus::Cancelled => "cancelled",
        }
    }
}

// ---------------------------------------------------------------------------
// Output formats
// ---------------------------------------------------------------------------

/// A form in which a page can be asked for.
#[derive(Debug, Clone, Copy, PartialEq, Eq, Structural)]
pub enum OutputFormat {
    Markdown,
    Html,
    RawHtml,
    Screenshot,
    Links,
    Extract,
    Json,
}

/// A copy of a list of formats.
pub fn formats_clone(v: &Vec<OutputFormat>) -> (r: Vec<OutputFormat>)
    ensures
        r@ == v@,
{
    let mut r: Vec<OutputFormat> = Vec::new();
    let mut i: usize = 0;
    while i < v.len()
        invariant
            i <= v@.len(),
            r@ == v@.take(i as int),
        decreases v@.len() - i,
    {
        r.push(v[i]);
        i = i + 1;
        assert(v@.take(i as int) =~= v@.take(i - 1).push(v@[i - 1]));
    }
    assert(v@.take(v@.len() as int) =~= v@);
    r
}

/// Whether a list of formats holds `f`.
pub fn holds_format(v: &Vec<OutputFormat>, f: OutputFormat) -> (r: bool)
    ensures
        r == v@.contains(f),
{
    let mut i: usize = 0;
    while i < v.len()
        invariant
            i <= v@.len(),
            forall|j: int| 0 <= j < i ==> v@[j] != f,
        decreases v@.len() - i,
    {
        if v[i] == f {
            return true;
        }
        i = i + 1;
    }
    false
}

/// The formats that are delivered where `formats` are asked for: Markdown where
/// none is.
pub open spec fn formats_or_markdown(formats: Seq<OutputFormat>) -> Seq<OutputFormat> {
    if formats.len() == 0 {
        seq![OutputFormat::Markdown]
    } else {
        formats
    }
}

/// The formats that are delivered where `formats` are asked for.
pub fn requested_formats(formats: &Vec<OutputFormat>) -> (r: Vec<OutputFormat>)
    ensures
        r@ == formats_or_markdown(formats@),
        formats@.len() > 0 ==> r@ == formats@,
        formats@.len() == 0 ==> r@ == seq![OutputFormat::Markdown],
{
    if formats.len() == 0 {
        let r = vec![OutputFormat::Markdown];
        assert(r@ =~= seq![OutputFormat::Markdown]);
        r
    } else {
        formats_clone(formats)
    }
}

// ---------------------------------------------------------------------------
// Shared parts of requests and jobs
// ---------------------------------------------------------------------------

/// One step to take on a page before it is read.
#[derive(Debug)]
pub enum PageAction {
    Wait { milliseconds: u32 },
    Click { selector: String },
    Screenshot,
    Scroll { direction: String, amount: Option<u32> },
    Write { text: String, selector: String },
    Press { key: String },
    ExecuteJavascript { script: String },
}

impl Clone for PageAction {
    /// The same step.
    fn clone(&self) -> (r: Self)
        ensures
            r == *self,
    {
        match self {
            PageAction::Wait { milliseconds } => PageAction::Wait { milliseconds: *milliseconds },
            PageAction::Click { selector } => PageAction::Click { selector: selector.clone() },
            PageAction::Screenshot => PageAction::Screenshot,
            PageAction::Scroll { direction, amount } => PageAction::Scroll {
                direction: direction.clone(),
                amount: *amount,
            },
            PageAction::Write { text, selector } => PageAction::Write {
                text: text.clone(),
                selector: selector.clone(),
            },
            PageAction::Press { key } => PageAction::Press { key: key.clone() },
            PageAction::ExecuteJavascript { script } => PageAction::ExecuteJavascript {
                script: script.clone(),
            },
        }
    }
}

/// A copy of a list of steps.
pub fn actions_clone(v: &Vec<PageAction>) -> (r: Vec<PageAction>)
    ensures
        r@ == v@,
{
    let mut r: Vec<PageAction> = Vec::new();
    let mut i: usize = 0;
    while i < v.len()
        invariant
            i <= v@.len(),
            r@ == v@.take(i as int),
        decreases v@.len() - i,
    {
        r.push(v[i].clone());
        i = i + 1;
        assert(v@.take(i as int) =~= v@.take(i - 1).push(v@[i - 1]));
    }
    assert(v@.take(v@.len() as int) =~= v@);
    r
}

/// Where a page is to be seen from.
#[derive(Debug)]
pub struct LocationOptions {
    pub country: Option<String>,
    pub languages: Option<Vec<String>>,
}

/// The mathematical value of `LocationOptions`.
pub struct LocationView {
    pub country: Option<Seq<char>>,
    pub languages: Option<Seq<Seq<char>>>,
}

impl View for LocationOptions {
    type V = LocationView;

    open spec fn view(&self) -> LocationView {
        LocationView {
            country: opt_view(self.country),
            languages: match self.languages {
                Some(l) => Some(views(l@)),
                None => None,
            },
        }
    }
}

impl Clone for LocationOptions {
    /// A copy with the same value.
    fn clone(&self) -> (r: Self)
        ensures
            r@ == self@,
    {
        LocationOptions {
            country: opt_clone(&self.country),
            languages: match &self.languages {
                Some(l) => Some(strings_clone(l)),
                None => None,
            },
        }
    }
}

/// The view of an optional location.
pub open spec fn opt_location_view(o: Option<LocationOptions>) -> Option<LocationView> {
    match o {
        Some(l) => Some(l@),
        None => None,
    }
}

/// A copy of an optional location.
pub fn opt_location_clone(o: &Option<LocationOptions>) -> (r: Option<LocationOptions>)
    ensures
        opt_location_view(r) == opt_location_view(*o),
{
    match o {
        Some(l) => Some(l.clone()),
        None => None,
    }
}

/// What to ask a language model of the content of a page.
#[derive(Debug)]
pub struct ExtractOptions {
    pub prompt: Option<String>,
    pub schema: Option<Json>,
    pub system_prompt: Option<String>,
}

/// The mathematical value of `ExtractOptions`.
pub struct ExtractOptionsView {
    pub prompt: Option<Seq<char>>,
    pub schema: Option<JsonView>,
    pub system_prompt: Option<Seq<char>>,
}

impl View for ExtractOptions {
    type V = ExtractOptionsView;

    open spec fn view(&self) -> ExtractOptionsView {
        ExtractOptionsView {
            prompt: opt_view(self.prompt),
            schema: opt_json_view(self.schema),
            system_prompt: opt_view(self.system_prompt),
        }
    }
}

impl Clone for ExtractOptions {
    /// A copy with the same value.
    fn clone(&self) -> (r: Self)
        ensures
            r@ == self@,
    {
        ExtractOptions {
            prompt: opt_clone(&self.prompt),
            schema: opt_json_clone(&self.schema),
            system_prompt: opt_clone(&self.system_prompt),
        }
    }
}

/// The view of optional `ExtractOptions`.
pub open spec fn opt_extract_view(o: Option<ExtractOptions>) -> Option<ExtractOptionsView> {
    match o {
        Some(e) => Some(e@),
        None => None,
    }
}

/// A copy of optional `ExtractOptions`.
pub fn opt_extract_clone(o: &Option<ExtractOptions>) -> (r: Option<ExtractOptions>)
    ensures
        opt_extract_view(r) == opt_extract_view(*o),
{
    match o {
        Some(e) => Some(e.clone()),
        None => None,
    }
}

/// Where events of a job are sent to.
#[derive(Debug, Clone)]
pub struct WebhookConfig {
    pub url: String,
    pub headers: Option<Json>,
    /// The names of the events to send: "completed", "failed", "page", "started". Where
    /// none is named, the start and the end are sent.
    pub events: Vec<String>,
}

/// How each page of a crawl or a batch is scraped.
#[derive(Debug)]
pub struct ScrapeOptions {
    pub formats: Vec<OutputFormat>,
    pub only_main_content: bool,
    pub include_tags: Vec<String>,
    pub exclude_tags: Vec<String>,
    pub headers: Option<Json>,
    pub wait_for: u32,
    pub mobile: bool,
    pub timeout: Option<u32>,
    pub actions: Vec<PageAction>,
    pub location: Option<LocationOptions>,
}

/// The mathematical value of `ScrapeOptions`.
pub struct ScrapeOptionsView {
    pub formats: Seq<OutputFormat>,
    pub only_main_content: bool,
    pub include_tags: Seq<Seq<char>>,
    pub exclude_tags: Seq<Seq<char>>,
    pub headers: Option<JsonView>,
    pub wait_for: u32,
    pub mobile: bool,
    pub timeout: Option<u32>,
    pub actions: Seq<PageAction>,
    pub location: Option<LocationView>,
}

impl View for ScrapeOptions {
    type V = ScrapeOptionsView;

    open spec fn view(&self) -> ScrapeOptionsView {
        ScrapeOptionsView {
            formats: self.formats@,
            only_main_content: self.only_main_content,
            include_tags: views(self.include_tags@),
            exclude_tags: views(self.exclude_tags@),
            headers: opt_json_view(self.headers),
            wait_for: self.wait_for,
            mobile: self.mobile,
            timeout: self.timeout,
            actions: self.actions@,
            location: opt_location_view(self.location),
        }
    }
}

impl Clone for ScrapeOptions {
    /// A copy with the same value.
    fn clone(&self) -> (r: Self)
        ensures
            r@ == self@,
    {
        ScrapeOptions {
            formats: formats_clone(&self.formats),
            only_main_content: self.only_main_content,
            include_tags: strings_clone(&self.include_tags),
            exclude_tags: strings_clone(&self.exclude_tags),
            headers: opt_json_clone(&self.headers),
            wait_for: self.wait_for,
            mobile: self.mobile,
            timeout: self.timeout,
            actions: actions_clone(&self.actions),
            location: opt_location_clone(&self.location),
        }
    }
}

impl Default for ScrapeOptions {
    /// No format, no filter, no wait.
    fn default() -> (r: Self)
        ensures
            r@ == (ScrapeOptionsView {
                formats: Seq::empty(),
                only_main_content: false,
                include_tags: Seq::empty(),
                exclude_tags: Seq::empty(),
                headers: None,
                wait_for: 0,
                mobile: false,
                timeout: None,
                actions: Seq::empty(),
                location: None,
            }),
    {
        let r = ScrapeOptions {
            formats: Vec::new(),
            only_main_content: false,
            include_tags: Vec::new(),
            exclude_tags: Vec::new(),
            headers: None,
            wait_for: 0,
            mobile: false,
            timeout: None,
            actions: Vec::new(),
            location: None,
        };
        assert(views(r.include_tags@) =~= Seq::empty());
        assert(views(r.exclude_tags@) =~= Seq::empty());
        r
    }
}

// ---------------------------------------------------------------------------
// Jobs
// ---------------------------------------------------------------------------

/// A unit of work in the queue.
#[derive(Debug, Clone)]
pub enum JobEnvelope {
    Scrape(ScrapeJobData),
    Crawl(CrawlJobData),
    BatchScrape(BatchScrapeJobData),
    Extract(ExtractJobData),
    UrlMap(MapJobData),
}

/// One page to scrape.
#[derive(Debug)]
pub struct ScrapeJobData {
    pub url: String,
    pub formats: Vec<OutputFormat>,
    pub only_main_content: bool,
    pub include_tags: Vec<String>,
    pub exclude_tags: Vec<String>,
    pub headers: Option<Json>,
    pub wait_for: u32,
    pub mobile: bool,
    pub timeout: Option<u32>,
    pub extract: Option<ExtractOptions>,
    pub actions: Vec<PageAction>,
    pub location: Option<LocationOptions>,
    /// Where the result is sent to on completion.
    pub webhook: Option<String>,
}

/// The mathematical value of `ScrapeJobData`.
pub struct ScrapeJobView {
    pub url: Seq<char>,
    pub formats: Seq<OutputFormat>,
    pub only_main_content: bool,
    pub include_tags: Seq<Seq<char>>,
    pub exclude_tags: Seq<Seq<char>>,
    pub headers: Option<JsonView>,
    pub wait_for: u32,
    pub mobile: bool,
    pub timeout: Option<u32>,
    pub extract: Option<ExtractOptionsView>,
    pub actions: Seq<PageAction>,
    pub location: Option<LocationView>,
    pub webhook: Option<Seq<char>>,
}

impl View for ScrapeJobData {
    type V = ScrapeJobView;

    open spec fn view(&self) -> ScrapeJobView {
        ScrapeJobView {
            url: self.url@,
            formats: self.formats@,
            only_main_content: self.only_main_content,
            include_tags: views(self.include_tags@),
            exclude_tags: views(self.exclude_tags@),
            headers: opt_json_view(self.headers),
            wait_for: self.wait_for,
            mobile: self.mobile,
            timeout: self.timeout,
            extract: opt_extract_view(self.extract),
            actions: self.actions@,
            location: opt_location_view(self.location),
            webhook: opt_view(self.webhook),
        }
    }
}

impl Clone for ScrapeJobData {
    /// A copy with the same value.
    fn clone(&self) -> (r: Self)
        ensures
            r@ == self@,
    {
        ScrapeJobData {
            url: self.url.clone(),
            formats: formats_clone(&self.formats),
            only_main_content: self.only_main_content,
            include_tags: strings_clone(&self.include_tags),
            exclude_tags: strings_clone(&self.exclude_tags),
            headers: opt_json_clone(&self.headers),
            wait_for: self.wait_for,
            mobile: self.mobile,
            timeout: self.timeout,
            extract: opt_extract_clone(&self.extract),
            actions: actions_clone(&self.actions),
            location: opt_location_clone(&self.location),
            webhook: opt_clone(&self.webhook),
        }
    }
}

/// The job that scrapes `url` as `options` say, for the formats `formats`.
pub open spec fn page_job(
    url: Seq<char>,
    formats: Seq<OutputFormat>,
    options: ScrapeOptionsView,
) -> ScrapeJobView {
    ScrapeJobView {
        url,
        formats,
        only_main_content: options.only_main_content,
        include_tags: options.include_tags,
        exclude_tags: options.exclude_tags,
        headers: options.headers,
        wait_for: options.wait_for,
        mobile: options.mobile,
        timeout: options.timeout,
        extract: None,
        actions: options.actions,
        location: options.location,
        webhook: None,
    }
}

/// The job that scrapes `url` as `options` say, for the formats `formats`.
pub fn page_job_of(url: &String, formats: Vec<OutputFormat>, options: &ScrapeOptions) -> (r:
    ScrapeJobData)
    ensures
        r@ == page_job(url@, formats@, options@),
        r.url@ == url@,
        r.formats@ == formats@,
        r.only_main_content == options.only_main_content,
        views(r.include_tags@) == views(options.include_tags@),
        views(r.exclude_tags@) == views(options.exclude_tags@),
        opt_json_view(r.headers) == opt_json_view(options.headers),
        r.wait_for == options.wait_for,
        r.mobile == options.mobile,
        r.timeout == options.timeout,
        r.actions@ == options.actions@,
        opt_location_view(r.location) == opt_location_view(options.location),
        r.extract is None && r.webhook is None,
{
    ScrapeJobData {
        url: url.clone(),
        formats,
        only_main_content: options.only_main_content,
        include_tags: strings_clone(&options.include_tags),
        exclude_tags: strings_clone(&options.exclude_tags),
        headers: opt_json_clone(&options.headers),
        wait_for: options.wait_for,
        mobile: options.mobile,
        timeout: options.timeout,
        extract: None,
        actions: actions_clone(&options.actions),
        location: opt_location_clone(&options.location),
        webhook: None,
    }
}

/// A site to crawl.
#[derive(Debug, Clone)]
pub struct CrawlJobData {
    pub url: String,
    pub max_depth: u32,
    pub limit: u32,
    pub scrape_options: ScrapeOptions,
    pub allow_backward_links: bool,
    pub allow_external_links: bool,
    pub ignore_sitemap: bool,
    pub include_paths: Vec<String>,
    pub exclude_paths: Vec<String>,
    pub webhook: Option<WebhookConfig>,
    pub priority: i32,
    pub ttl_ms: i64,
    /// The group that was made for the crawl when it was requested.
    pub group_id: Option<u128>,
}

/// A list of pages to scrape.
#[derive(Debug, Clone)]
pub struct BatchScrapeJobData {
    pub urls: Vec<String>,
    pub scrape_options: ScrapeOptions,
    pub webhook: Option<WebhookConfig>,
    pub priority: i32,
}

/// Pages of which a language model extracts data.
#[derive(Debug, Clone)]
pub struct ExtractJobData {
    pub urls: Vec<String>,
    pub prompt: Option<String>,
    pub schema: Option<Json>,
    pub system_prompt: Option<String>,
    pub allow_external_links: bool,
    pub enable_web_search: bool,
    pub ignore_invalid_urls: bool,
}

/// A site whose URLs are listed.
#[derive(Debug, Clone)]
pub struct MapJobData {
    pub url: String,
    pub search: Option<String>,
    pub ignore_sitemap: bool,
    pub include_subdomains: bool,
    pub limit: u32,
}

// ---------------------------------------------------------------------------
// Scrape result
// ---------------------------------------------------------------------------

/// What was scraped of a page.
#[derive(Debug, Clone)]
pub struct ScrapeResult {
    pub url: String,
    pub title: Option<String>,
    pub markdown: Option<String>,
    pub html: Option<String>,
    pub raw_html: Option<String>,
    pub screenshot: Option<String>,
    pub links: Option<Vec<String>>,
    pub extract: Option<Json>,
    pub json: Option<Json>,
    pub warning: Option<String>,
    pub metadata: ScrapeMetadata,
}

/// How a page was fetched.
#[derive(Debug, Clone)]
pub struct ScrapeMetadata {
    pub status_code: u16,
    pub content_type: Option<String>,
    pub source_url: String,
    pub scrape_id: Option<u128>,
    pub error: Option<String>,
}

/// The mathematical value of a `ScrapeResult`.
pub struct ScrapeResultView {
    pub url: Seq<char>,
    pub title: Option<Seq<char>>,
    pub markdown: Option<Seq<char>>,
    pub html: Option<Seq<char>>,
    pub raw_html: Option<Seq<char>>,
    pub screenshot: Option<Seq<char>>,
    pub links: Option<Seq<Seq<char>>>,
    pub extract: Option<JsonView>,
    pub json: Option<JsonView>,
    pub warning: Option<Seq<char>>,
    pub metadata: ScrapeMetadataView,
}

/// The mathematical value of `ScrapeMetadata`.
pub struct ScrapeMetadataView {
    pub status_code: u16,
    pub content_type: Option<Seq<char>>,
    pub source_url: Seq<char>,
    pub scrape_id: Option<u128>,
    pub error: Option<Seq<char>>,
}

/// The view of an optional list of strings.
pub open spec fn opt_views(o: Option<Vec<String>>) -> Option<Seq<Seq<char>>> {
    match o {
        Some(v) => Some(views(v@)),
        None => None,
    }
}

impl View for ScrapeMetadata {
    type V = ScrapeMetadataView;

    open spec fn view(&self) -> ScrapeMetadataView {
        ScrapeMetadataView {
            status_code: self.status_code,
            content_type: opt_view(self.content_type),
            source_url: self.source_url@,
            scrape_id: self.scrape_id,
            error: opt_view(self.error),
        }
    }
}

impl View for ScrapeResult {
    type V = ScrapeResultView;

    open spec fn view(&self) -> ScrapeResultView {
        ScrapeResultView {
            url: self.url@,
            title: opt_view(self.title),
            markdown: opt_view(self.markdown),
            html: opt_view(self.html),
            raw_html: opt_view(self.raw_html),
            screenshot: opt_view(self.screenshot),
            links: opt_views(self.links),
            extract: opt_json_view(self.extract),
            json: opt_json_view(self.json),
            warning: opt_view(self.warning),
            metadata: self.metadata@,
        }
    }
}

/// The view of an optional result.
pub open spec fn opt_result_view(o: Option<ScrapeResult>) -> Option<ScrapeResultView> {
    match o {
        Some(r) => Some(r@),
        None => None,
    }
}

/// The values of a sequence of results.
pub open spec fn result_views(v: Seq<ScrapeResult>) -> Seq<ScrapeResultView> {
    v.map_values(|r: ScrapeResult| r@)
}

// ---------------------------------------------------------------------------
// Rows of the database
// ---------------------------------------------------------------------------

/// A job as the queue holds it.
#[derive(Debug, Clone)]
pub struct QueueScrapeRow {
    pub id: u128,
    pub status: JobStatus,
    pub data: Option<Json>,
    pub created_at: Timestamp,
    pub returnvalue: Option<Json>,
    pub failedreason: Option<String>,
    pub group_id: Option<u128>,
}

/// A group of jobs as the database holds it.
#[derive(Debug, Clone, Copy)]
pub struct GroupCrawlRow {
    pub id: u128,
    pub status: GroupStatus,
    pub created_at: Timestamp,
    pub owner_id: u128,
    pub ttl: i64,
    pub expires_at: Option<Timestamp>,
}

// ---------------------------------------------------------------------------
// Requests
// ---------------------------------------------------------------------------

/// The body of `POST /v2/scrape`.
#[derive(Debug, Clone)]
pub struct ScrapeRequest {
    pub url: String,
    pub formats: Vec<OutputFormat>,
    pub only_main_content: bool,
    pub include_tags: Vec<String>,
    pub exclude_tags: Vec<String>,
    pub headers: Option<Json>,
    pub wait_for: u32,
    pub mobile: bool,
    pub timeout: Option<u32>,
    pub extract: Option<ExtractOptions>,
    pub actions: Vec<PageAction>,
    pub location: Option<LocationOptions>,
    pub webhook: Option<String>,
}

/// The body of `POST /v2/crawl`.
#[derive(Debug, Clone)]
pub struct CrawlRequest {
    pub url: String,
    pub max_depth: u32,
    pub limit: u32,
    pub scrape_options: ScrapeOptions,
    pub allow_backward_links: bool,
    pub allow_external_links: bool,
    pub ignore_sitemap: bool,
    pub include_paths: Vec<String>,
    pub exclude_paths: Vec<String>,
    pub webhook: Option<WebhookConfig>,
    pub priority: i32,
}

/// The body of `POST /v2/batch/scrape`.
#[derive(Debug, Clone)]
pub struct BatchScrapeRequest {
    pub urls: Vec<String>,
    pub scrape_options: ScrapeOptions,
    pub webhook: Option<WebhookConfig>,
    pub priority: i32,
}

/// The body of `POST /v2/map`.
#[derive(Debug, Clone)]
pub struct MapRequest {
    pub url: String,
    pub search: Option<String>,
    pub ignore_sitemap: bool,
    pub include_subdomains: bool,
    pub limit: u32,
}

/// The body of `POST /v2/extract`.
#[derive(Debug, Clone)]
pub struct ExtractRequest {
    pub urls: Vec<String>,
    pub prompt: Option<String>,
    pub schema: Option<Json>,
    pub system_prompt: Option<String>,
    pub allow_external_links: bool,
    pub enable_web_search: bool,
    pub ignore_invalid_urls: bool,
}

/// The body of `POST /v2/search`.
#[derive(Debug, Clone)]
pub struct SearchRequest {
    pub query: String,
    pub limit: u32,
    pub lang: Option<String>,
    pub country: Option<String>,
    pub scrape_options: Option<ScrapeOptions>,
    pub timeout: Option<u32>,
}

// ---------------------------------------------------------------------------
// Responses
// ---------------------------------------------------------------------------

/// The answer to `POST /v2/scrape`.
#[derive(Debug)]
pub struct ScrapeResponse {
    pub success: bool,
    pub data: ScrapeResult,
}

/// The answer to `POST /v2/crawl`; `url` is where the status can be asked for.
#[derive(Debug)]
pub struct CrawlResponse {
    pub success: bool,
    pub id: u128,
    pub url: String,
}

/// The answer to `GET /v2/crawl/{id}`.
#[derive(Debug)]
pub struct CrawlStatusResponse {
    pub status: JobStatus,
    /// All pages of the crawl.
    pub total: u32,
    /// The pages that were scraped.
    pub completed: u32,
    /// The pages that failed.
    pub failed: u32,
    pub credits_used: u32,
    pub expires_at: Option<Timestamp>,
    pub next: Option<String>,
    pub data: Vec<ScrapeResult>,
}

/// The answer to `POST /v2/batch/scrape`.
#[derive(Debug)]
pub struct BatchScrapeResponse {
    pub success: bool,
    pub id: u128,
    pub url: String,
    pub invalid_urls: Vec<String>,
}

/// The answer to `POST /v2/map`.
#[derive(Debug)]
pub struct MapResponse {
    pub success: bool,
    pub links: Vec<SearchWebResult>,
}

/// The answer to `POST /v2/extract`.
#[derive(Debug)]
pub struct ExtractResponse {
    pub success: bool,
    pub id: u128,
    pub url: String,
}

/// The answer to `GET /v2/extract/{id}`.
#[derive(Debug)]
pub struct ExtractStatusResponse {
    pub status: JobStatus,
    pub data: Option<Json>,
    pub error: Option<String>,
}

/// The answer to `POST /v2/search`.
#[derive(Debug)]
pub struct SearchResponse {
    pub success: bool,
    pub data: SearchResponseData,
}

/// What was found.
#[derive(Debug)]
pub struct SearchResponseData {
    pub web: Option<Vec<SearchWebResult>>,
    pub news: Option<Vec<Json>>,
    pub images: Option<Vec<Json>>,
}

impl Default for SearchResponseData {
    /// Nothing.
    fn default() -> (r: Self)
        ensures
            r.web is None,
            r.news is None,
            r.images is None,
    {
        SearchResponseData { web: None, news: None, images: None }
    }
}

/// One page that was found.
#[derive(Debug, Clone)]
pub struct SearchWebResult {
    pub url: String,
    pub title: Option<String>,
    pub description: Option<String>,
    pub category: Option<String>,
}

/// The mathematical value of a `SearchWebResult`.
pub struct SearchWebView {
    pub url: Seq<char>,
    pub title: Option<Seq<char>>,
    pub description: Option<Seq<char>>,
    pub category: Option<Seq<char>>,
}

impl View for SearchWebResult {
    type V = SearchWebView;

    open spec fn view(&self) -> SearchWebView {
        SearchWebView {
            url: self.url@,
            title: opt_view(self.title),
            description: opt_view(self.description),
            category: opt_view(self.category),
        }
    }
}

/// The values of a sequence of found pages.
pub open spec fn web_views(v: Seq<SearchWebResult>) -> Seq<SearchWebView> {
    v.map_values(|r: SearchWebResult| r@)
}

/// The answer to `GET /health`.
#[derive(Debug)]
pub struct HealthResponse {
    pub status: String,
    pub services: ServiceHealth,
}

/// The health of each service.
#[derive(Debug)]
pub struct ServiceHealth {
    pub database: ComponentStatus,
    pub redis: ComponentStatus,
    pub llm: ComponentStatus,
}

/// The health of one service.
#[derive(Debug)]
pub struct ComponentStatus {
    pub healthy: bool,
    pub error: Option<String>,
}

// ---------------------------------------------------------------------------
// Defaults
// ---------------------------------------------------------------------------

/// How deep a crawl goes where the request does not say.
pub fn default_max_depth() -> (r: u32)
    ensures
        r == 5,
{
    5
}

/// How many pages a crawl scrapes where the request does not say.
pub fn default_max_pages() -> (r: u32)
    ensures
        r == 100,
{
    100
}

/// How many URLs a map lists where the request does not say.
pub fn default_map_limit() -> (r: u32)
    ensures
        r == 5000,
{
    5000
}

/// How many pages a search finds where the request does not say.
pub fn default_search_limit() -> (r: u32)
    ensures
        r == 5,
{
    5
}

/// The answer to an error says that the request did not succeed, and the text of the
/// error.
pub proof fn law_error_body(e: AppErrorView)
    ensures
        e.body().get("success"@) == Some(JsonView::Bool(false)),
        e.body().get("error"@) == Some(JsonView::Text(e.message())),
{
    reveal_strlit("success");
    reveal_strlit("error");
    assert("success"@.len() == 7 && "error"@.len() == 5);
    let m = e.body()->Object_0;
    lemma_member_at(m, 0);
    lemma_member_at(m, 1);
}
} // verus!
