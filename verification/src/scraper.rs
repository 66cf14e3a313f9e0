//! Scraping one page, and listing the URLs of a site.

use crate::config::CrawlerConfig;
use crate::html::{
    converted_markdown, first_n, links_in, main_content, markdown_of, page_links, parts_in,
    selected_attrs, selected_texts, summary_in, title_in,
};
use crate::models::{
    formats_or_markdown, holds_format, requested_formats, AppError, AppErrorView, OutputFormat,
    ScrapeJobData, ScrapeJobView, ScrapeMetadata, ScrapeMetadataView, ScrapeResult,
    ScrapeResultView,
};
use crate::robots::{is_allowed_by_robots, kept, remembered, robots_url, rules_allow, RobotsCache, RobotsStep};
use crate::sitemaps::{sitemap_url, SitemapWalk};
use crate::text::{
    chars_of, contains, ends_with, find, find_chars, holds_text, join,
    law_contained_text_stands_in_the_text, law_text_contains_its_middle, lemma_find_from,
    lemma_find_is, lowercase, lowercase_text, occurs_at, opt_view, same_text, squeeze, string_from,
    text_contains, text_ends_with, trim, trim_text, views,
};
use crate::weburl::{parse_url, parsed_url, PageUrl};
use vstd::prelude::*;

pub use crate::crawl::{Crawl, CrawlParams};
pub use crate::html::{
    extract_links, extract_main_content, extract_title, html_to_markdown, html_to_structured_json,
    html_to_text,
};

verus! {

// ---------------------------------------------------------------------------
// Pages over HTTP
// ---------------------------------------------------------------------------

/// How pages are fetched over HTTP, and the robots' rules that are known.
#[derive(Debug)]
pub struct HttpScraper {
    pub config: CrawlerConfig,
    pub robots_cache: RobotsCache,
}

/// The media type that a `Content-Type` header names: what stands before the first
/// semicolon, trimmed.
pub open spec fn media_type(header: Seq<char>) -> Seq<char> {
    match find(header, seq![';']) {
        Some(i) => trim(header.take(i)),
        None => trim(header),
    }
}

/// The media type that a `Content-Type` header names.
pub fn media_type_of(header: &str) -> (r: String)
    ensures
        r@ == media_type(header@),
{
    let v = chars_of(header);
    let mut pattern: Vec<char> = Vec::new();
    pattern.push(';');
    assert(pattern@ =~= seq![';']);
    match find_chars(&v, &pattern, 0) {
        Some(i) => {
            let head = string_from(&v, 0, i);
            assert(v@.subrange(0, i as int) =~= v@.take(i as int));
            trim_text(head.as_str())
        },
        None => trim_text(header),
    }
}

impl HttpScraper {
    /// No rules are known yet.
    pub fn new(config: &CrawlerConfig) -> (r: Self)
        ensures
            r.config == *config,
            r.robots_cache@ == Seq::<(Seq<char>, Seq<char>)>::empty(),
            r.robots_cache.wf(),
    {
        HttpScraper { config: config.clone(), robots_cache: RobotsCache::new() }
    }

    /// Whether the page `url` may be fetched, as far as is known.
    pub fn is_allowed_by_robots(&self, url: &PageUrl) -> (r: RobotsStep)
        requires
            self.robots_cache.wf(),
        ensures
            if !self.config.respect_robots_txt {
                r == RobotsStep::Decided(true)
            } else {
                match kept(self.robots_cache@, url@.host_text()) {
                    Some(text) => r == RobotsStep::Decided(
                        rules_allow(text, self.config.user_agent@, url.text@),
                    ),
                    None => r matches RobotsStep::Fetch { url: u } && u@ == robots_url(url@) && u@
                        == url.scheme@ + "://"@ + url@.host_text() + "/robots.txt"@,
                }
            },
    {
        is_allowed_by_robots(&self.config, &self.robots_cache, url)
    }

    /// Takes the robots' rules of the site of `url`, `None` where there are none to
    /// be had, and decides whether the page may be fetched. Rules are kept.
    pub fn robots_fetched(&mut self, url: &PageUrl, text: Option<String>) -> (r: bool)
        requires
            old(self).robots_cache.wf(),
            text matches Some(t) ==> crate::robots::is_readable(t@),
        ensures
            final(self).config == old(self).config,
            final(self).robots_cache.wf(),
            match text {
                Some(t) => {
                    &&& r == rules_allow(t@, old(self).config.user_agent@, url.text@)
                    &&& final(self).robots_cache@ == remembered(
                        old(self).robots_cache@,
                        url@.host_text(),
                        t@,
                    )
                },
                None => r && final(self).robots_cache@ == old(self).robots_cache@,
            },
    {
        crate::robots::robots_fetched(&self.config, &mut self.robots_cache, url, text)
    }

    /// Begins the walk through the sitemaps of the site of `base_url`.
    pub fn fetch_sitemap_urls(&self, base_url: &PageUrl, limit: usize) -> (r: SitemapWalk)
        ensures
            r.limit == limit,
            views(r.collected@) == Seq::<Seq<char>>::empty(),
            views(r.visited@) == Seq::<Seq<char>>::empty(),
            views(r.pending@) == seq![sitemap_url(base_url@)],
            r.wf(),
    {
        SitemapWalk::fetch_sitemap_urls(base_url, limit)
    }
}

// ---------------------------------------------------------------------------
// Scraping one page
// ---------------------------------------------------------------------------

/// Scrapes pages.
#[derive(Debug)]
pub struct Scraper {
    pub http: HttpScraper,
}

/// Where a page is taken from.
#[derive(Debug, PartialEq, Eq, Clone, Copy, Structural)]
pub enum PageSource {
    Browser { wait_for: u32, timeout_seconds: u64 },
    Http,
}

/// A page as it was fetched.
#[derive(Debug)]
pub struct FetchedPage {
    pub html: String,
    pub title: Option<String>,
    pub status_code: u16,
    pub content_type: Option<String>,
}

/// Where the page of `job` is taken from: the browser, where something has to be
/// done or waited for on it and no other service does that.
pub open spec fn source_of(job: ScrapeJobView, config: CrawlerConfig) -> PageSource {
    if (job.actions.len() > 0 || job.wait_for > 0) && config.playwright_url is None {
        PageSource::Browser {
            wait_for: job.wait_for,
            timeout_seconds: match job.timeout {
                Some(t) => t as u64,
                None => config.request_timeout_seconds,
            },
        }
    } else {
        PageSource::Http
    }
}

impl FetchedPage {
    /// A page that a browser showed; where it has no title, that of its HTML is
    /// taken.
    pub fn from_browser(html: String, title: Option<String>) -> (r: Self)
        ensures
            r.html == html,
            opt_view(r.title) == (match title {
                Some(t) => Some(t@),
                None => title_in(selected_texts(html@, "title"@)),
            }),
            r.status_code == 200,
            r.content_type matches Some(t) && t@ == "text/html"@,
    {
        let title = match title {
            Some(t) => Some(t),
            None => extract_title(html.as_str()),
        };
        FetchedPage { html, title, status_code: 200, content_type: Some("text/html".to_owned()) }
    }

    /// A page that was fetched over HTTP.
    pub fn from_http(status_code: u16, content_type: Option<String>, body: String) -> (r: Self)
        ensures
            r.html == body,
            opt_view(r.title) == title_in(selected_texts(body@, "title"@)),
            r.status_code == status_code,
            r.content_type == content_type,
    {
        let title = extract_title(body.as_str());
        FetchedPage { html: body, title, status_code, content_type }
    }
}

/// What the job asks of a page, if `wanted` is one of its formats.
pub open spec fn if_wanted<T>(job: ScrapeJobView, wanted: OutputFormat, value: T) -> Option<T> {
    if formats_or_markdown(job.formats).contains(wanted) {
        Some(value)
    } else {
        None
    }
}

/// The result of scraping a page with the HTML `html`.
pub open spec fn scraped(
    job: ScrapeJobView,
    base: Seq<char>,
    html: Seq<char>,
    title: Option<Seq<char>>,
    status_code: u16,
    content_type: Option<Seq<char>>,
) -> ScrapeResultView {
    ScrapeResultView {
        url: job.url,
        title,
        markdown: if_wanted(job, OutputFormat::Markdown, markdown_of(html)),
        html: if_wanted(
            job,
            OutputFormat::Html,
            if job.only_main_content {
                main_content(html)
            } else {
                crate::html::first_text(selected_texts(html, "body"@))
            },
        ),
        raw_html: if_wanted(job, OutputFormat::RawHtml, html),
        screenshot: None,
        links: if_wanted(job, OutputFormat::Links, page_links(html, base)),
        extract: None,
        json: if_wanted(job, OutputFormat::Json, summary_in(parts_in(html, base))),
        warning: None,
        metadata: ScrapeMetadataView {
            status_code,
            content_type,
            source_url: job.url,
            scrape_id: None,
            error: None,
        },
    }
}

impl Scraper {
    /// A scraper as `cfg` describes.
    pub fn new(cfg: &CrawlerConfig) -> (r: Self)
        ensures
            r.http.config == *cfg,
            r.http.robots_cache@ == Seq::<(Seq<char>, Seq<char>)>::empty(),
            r.http.robots_cache.wf(),
    {
        Scraper { http: HttpScraper::new(cfg) }
    }

    /// How many pages of one job are fetched at a time.
    pub fn concurrent_requests(&self) -> (r: usize)
        ensures
            r == self.http.config.concurrent_requests,
    {
        self.http.config.concurrent_requests as usize
    }

    /// Begins to scrape a page: its URL, or the error that it is none.
    pub fn scrape(&self, job: &ScrapeJobData) -> (r: Result<PageUrl, AppError>)
        ensures
            match parsed_url(job.url@) {
                Ok(u) => r matches Ok(p) && p@ == u && p.source@ == job.url@,
                Err(e) => r matches Err(x) && x@ == AppErrorView::InvalidUrl(e),
            },
    {
        match parse_url(job.url.as_str()) {
            Ok(u) => Ok(u),
            Err(e) => Err(AppError::InvalidUrl(e)),
        }
    }

    /// Goes on once it is known whether robots may fetch the page: where it is taken
    /// from, or the error that it may not be fetched.
    pub fn after_robots(&self, job: &ScrapeJobData, allowed: bool) -> (r: Result<
        PageSource,
        AppError,
    >)
        ensures
            if allowed {
                r == Ok::<PageSource, AppError>(source_of(job@, self.http.config))
            } else {
                r matches Err(x) && x@ == AppErrorView::Scraper(
                    "URL blocked by robots.txt: "@ + job.url@,
                )
            },
    {
        if !allowed {
            return Err(
                AppError::Scraper(
                    "URL blocked by robots.txt: ".to_owned().concat(job.url.as_str()),
                ),
            );
        }
        let config = &self.http.config;
        if (job.actions.len() > 0 || job.wait_for > 0) && config.playwright_url.is_none() {
            Ok(
                PageSource::Browser {
                    wait_for: job.wait_for,
                    timeout_seconds: match job.timeout {
                        Some(t) => t as u64,
                        None => config.request_timeout_seconds,
                    },
                },
            )
        } else {
            Ok(PageSource::Http)
        }
    }

    /// The result of scraping a page, in the formats that the job asks for.
    pub fn scraped(&self, job: &ScrapeJobData, url: &PageUrl, page: FetchedPage) -> (r:
        ScrapeResult)
        ensures
            r@ == scraped(
                job@,
                url.source@,
                page.html@,
                opt_view(page.title),
                page.status_code,
                opt_view(page.content_type),
            ),
            r.url@ == job.url@,
            opt_view(r.title) == opt_view(page.title),
            r.metadata.status_code == page.status_code,
            opt_view(r.metadata.content_type) == opt_view(page.content_type),
            r.metadata.source_url@ == job.url@,
            r.metadata.error is None,
            r.screenshot is None && r.extract is None && r.warning is None,
            r.markdown is Some <==> job.formats@.contains(OutputFormat::Markdown)
                || job.formats@.len() == 0,
            r.markdown matches Some(m) ==> match converted_markdown(page.html@) {
                Some(converted) => m@ == converted,
                None => m@.len() == 0,
            },
            r.html is Some <==> job.formats@.contains(OutputFormat::Html),
            r.html matches Some(h) ==> (!job.only_main_content ==> match selected_texts(
                page.html@,
                "body"@,
            ) {
                Some(e) => if e.len() > 0 {
                    h@ == squeeze(join(e[0], " "@))
                } else {
                    h@.len() == 0
                },
                None => h@.len() == 0,
            }),
            r.html matches Some(h) ==> (job.only_main_content ==> h@ == main_content(page.html@)),
            r.raw_html is Some <==> job.formats@.contains(OutputFormat::RawHtml),
            r.raw_html matches Some(h) ==> h@ == page.html@,
            r.links is Some <==> job.formats@.contains(OutputFormat::Links),
            r.links matches Some(l) ==> match selected_attrs(page.html@, "a[href]"@, "href"@) {
                Some(hrefs) => views(l@) == links_in(hrefs, url.source@),
                None => l@.len() == 0,
            },
            r.json is Some <==> job.formats@.contains(OutputFormat::Json),
            r.json matches Some(j) ==> j@ == summary_in(parts_in(page.html@, url.source@)),
    {
        let formats = requested_formats(&job.formats);
        let html = page.html.as_str();
        let markdown = if holds_format(&formats, OutputFormat::Markdown) {
            Some(html_to_markdown(html))
        } else {
            None
        };
        let text = if holds_format(&formats, OutputFormat::Html) {
            Some(
                if job.only_main_content {
                    extract_main_content(html)
                } else {
                    html_to_text(html)
                },
            )
        } else {
            None
        };
        let links = if holds_format(&formats, OutputFormat::Links) {
            Some(extract_links(html, url))
        } else {
            None
        };
        let json = if holds_format(&formats, OutputFormat::Json) {
            Some(html_to_structured_json(html, url))
        } else {
            None
        };
        let raw_html = if holds_format(&formats, OutputFormat::RawHtml) {
            Some(page.html.clone())
        } else {
            None
        };
        assert(seq![OutputFormat::Markdown][0] == OutputFormat::Markdown);
        assert(job.formats@.len() == 0 ==> formats@ == seq![OutputFormat::Markdown]);
        if let Some(l) = &links {
            assert(views(l@).len() == l@.len());
        }
        ScrapeResult {
            url: job.url.clone(),
            title: page.title,
            markdown,
            html: text,
            raw_html,
            screenshot: None,
            links,
            extract: None,
            json,
            warning: None,
            metadata: ScrapeMetadata {
                status_code: page.status_code,
                content_type: page.content_type,
                source_url: job.url.clone(),
                scrape_id: None,
                error: None,
            },
        }
    }
}

// ---------------------------------------------------------------------------
// The URLs of a site
// ---------------------------------------------------------------------------

/// The members of `urls` that differ from all before them.
pub open spec fn distinct(urls: Seq<Seq<char>>) -> Seq<Seq<char>>
    decreases urls.len(),
{
    if urls.len() == 0 {
        Seq::empty()
    } else {
        let before = distinct(urls.drop_last());
        if before.contains(urls.last()) {
            before
        } else {
            before.push(urls.last())
        }
    }
}

/// The URL `link` is on the site with the host `base_host`, or, with
/// `include_subdomains`, on a site below it.
pub open spec fn on_site(link: Seq<char>, base_host: Seq<char>, include_subdomains: bool) -> bool {
    match parsed_url(link) {
        Ok(u) => u.host_text() == base_host || include_subdomains && ends_with(
            u.host_text(),
            "."@ + base_host,
        ),
        Err(_) => false,
    }
}

/// The URLs after the links of the root page were added: those on the site that
/// are new, until there are `limit` of them.
pub open spec fn with_links(
    urls: Seq<Seq<char>>,
    links: Seq<Seq<char>>,
    base_host: Seq<char>,
    include_subdomains: bool,
    limit: nat,
) -> Seq<Seq<char>>
    decreases links.len(),
{
    if links.len() == 0 {
        urls
    } else if on_site(links[0], base_host, include_subdomains) && !urls.contains(links[0]) {
        let more = urls.push(links[0]);
        if more.len() >= limit {
            more
        } else {
            with_links(more, links.drop_first(), base_host, include_subdomains, limit)
        }
    } else {
        with_links(urls, links.drop_first(), base_host, include_subdomains, limit)
    }
}

/// The URLs in which `search` stands, whatever its case.
pub open spec fn searched(urls: Seq<Seq<char>>, search: Seq<char>) -> Seq<Seq<char>>
    decreases urls.len(),
{
    if urls.len() == 0 {
        Seq::empty()
    } else {
        let before = searched(urls.drop_last(), search);
        if contains(lowercase(urls.last()), lowercase(search)) {
            before.push(urls.last())
        } else {
            before
        }
    }
}

/// The URLs that are listed of a site: those of its sitemap, then the links of its
/// root page `body`, filtered, at most `limit`.
pub open spec fn mapped(
    root: Seq<char>,
    base_host: Seq<char>,
    search: Option<Seq<char>>,
    include_subdomains: bool,
    limit: nat,
    sitemap: Seq<Seq<char>>,
    body: Option<Seq<char>>,
) -> Seq<Seq<char>> {
    let listed = distinct(sitemap);
    let all = match body {
        Some(html) => with_links(
            listed,
            page_links(html, root),
            base_host,
            include_subdomains,
            limit,
        ),
        None => listed,
    };
    first_n(
        match search {
            Some(q) => searched(all, q),
            None => all,
        },
        limit,
    )
}

/// The texts that differ from all before them.
fn distinct_of(urls: &Vec<String>) -> (r: Vec<String>)
    ensures
        views(r@) == distinct(views(urls@)),
{
    let ghost all = views(urls@);
    let mut r: Vec<String> = Vec::new();
    let mut i: usize = 0;
    assert(views(r@) =~= distinct(all.take(0)));
    while i < urls.len()
        invariant
            i <= urls@.len(),
            all == views(urls@),
            views(r@) == distinct(all.take(i as int)),
        decreases urls@.len() - i,
    {
        let ghost before = r@;
        assert(all.take(i + 1).drop_last() =~= all.take(i as int));
        assert(all.take(i + 1).last() == urls@[i as int]@);
        if !holds_text(&r, urls[i].as_str()) {
            r.push(urls[i].clone());
            assert(views(r@) =~= views(before).push(urls@[i as int]@));
        }
        i = i + 1;
    }
    assert(all.take(all.len() as int) =~= all);
    r
}

/// Whether the URL is on the site.
fn is_on_site(link: &str, base_host: &str, include_subdomains: bool) -> (r: bool)
    ensures
        r == on_site(link@, base_host@, include_subdomains),
{
    match parse_url(link) {
        Ok(u) => {
            let host = u.host_text();
            if same_text(host.as_str(), base_host) {
                return true;
            }
            let below = ".".to_owned().concat(base_host);
            include_subdomains && text_ends_with(host.as_str(), below.as_str())
        },
        Err(_) => false,
    }
}

/// Adds the links that are on the site and new, until there are `limit` URLs.
fn add_links(
    urls: Vec<String>,
    links: &Vec<String>,
    base_host: &str,
    include_subdomains: bool,
    limit: usize,
) -> (r: Vec<String>)
    ensures
        views(r@) == with_links(
            views(urls@),
            views(links@),
            base_host@,
            include_subdomains,
            limit as nat,
        ),
{
    let ghost all = views(links@);
    let ghost target = with_links(views(urls@), all, base_host@, include_subdomains, limit as nat);
    let mut r = urls;
    let mut i: usize = 0;
    assert(all.skip(0) =~= all);
    while i < links.len()
        invariant
            i <= links@.len(),
            all == views(links@),
            target == with_links(
                views(urls@),
                all,
                base_host@,
                include_subdomains,
                limit as nat,
            ),
            with_links(
                views(r@),
                all.skip(i as int),
                base_host@,
                include_subdomains,
                limit as nat,
            ) == target,
        decreases links@.len() - i,
    {
        let ghost before = r@;
        assert(all.skip(i as int)[0] == links@[i as int]@);
        assert(all.skip(i as int).drop_first() =~= all.skip(i + 1));
        if is_on_site(links[i].as_str(), base_host, include_subdomains) && !holds_text(
            &r,
            links[i].as_str(),
        ) {
            r.push(links[i].clone());
            assert(views(r@) =~= views(before).push(links@[i as int]@));
            if r.len() >= limit {
                return r;
            }
        }
        i = i + 1;
    }
    r
}

/// The URLs in which `search` stands.
fn search_in(urls: &Vec<String>, search: &str) -> (r: Vec<String>)
    ensures
        views(r@) == searched(views(urls@), search@),
        views(r@) == views(urls@).filter(
            |u: Seq<char>| contains(lowercase(u), lowercase(search@)),
        ),
{
    proof {
        law_search_is_a_filter(views(urls@), search@);
    }
    let ghost all = views(urls@);
    let wanted = lowercase_text(search);
    let mut r: Vec<String> = Vec::new();
    let mut i: usize = 0;
    assert(views(r@) =~= searched(all.take(0), search@));
    while i < urls.len()
        invariant
            i <= urls@.len(),
            all == views(urls@),
            wanted@ == lowercase(search@),
            views(r@) == searched(all.take(i as int), search@),
        decreases urls@.len() - i,
    {
        let ghost before = r@;
        assert(all.take(i + 1).drop_last() =~= all.take(i as int));
        assert(all.take(i + 1).last() == urls@[i as int]@);
        let lower = lowercase_text(urls[i].as_str());
        if text_contains(lower.as_str(), wanted.as_str()) {
            r.push(urls[i].clone());
            assert(views(r@) =~= views(before).push(urls@[i as int]@));
        }
        i = i + 1;
    }
    assert(all.take(all.len() as int) =~= all);
    r
}

impl Scraper {
    /// The URLs of a site, given those of its sitemap, none where that is ignored,
    /// and its root page, `None` where that could not be fetched. A root that is no
    /// URL is an error.
    pub fn map_urls(
        &self,
        root_url: &str,
        search: Option<&str>,
        include_subdomains: bool,
        limit: u32,
        sitemap_urls: &Vec<String>,
        body: Option<&str>,
    ) -> (r: Result<Vec<String>, AppError>)
        ensures
            match parsed_url(root_url@) {
                Ok(base) => r matches Ok(urls) && views(urls@) == mapped(
                    root_url@,
                    base.host_text(),
                    match search {
                        Some(q) => Some(q@),
                        None => None,
                    },
                    include_subdomains,
                    limit as nat,
                    views(sitemap_urls@),
                    match body {
                        Some(html) => Some(html@),
                        None => None,
                    },
                ),
                Err(e) => r matches Err(x) && x@ == AppErrorView::InvalidUrl(e),
            },
    {
        let base = match parse_url(root_url) {
            Ok(u) => u,
            Err(e) => {
                return Err(AppError::InvalidUrl(e));
            },
        };
        let base_host = base.host_text();
        let mut urls = distinct_of(sitemap_urls);
        if let Some(html) = body {
            let links = extract_links(html, &base);
            urls = add_links(
                urls,
                &links,
                base_host.as_str(),
                include_subdomains,
                limit as usize,
            );
        }
        if let Some(q) = search {
            urls = search_in(&urls, q);
        }
        let ghost before = views(urls@);
        if urls.len() > limit as usize {
            urls.truncate(limit as usize);
        }
        assert(views(urls@) =~= first_n(before, limit as nat));
        Ok(urls)
    }
}

// ---------------------------------------------------------------------------
// Laws of the list of URLs
// ---------------------------------------------------------------------------

proof fn lemma_distinct(urls: Seq<Seq<char>>)
    ensures
        distinct(urls).no_duplicates(),
        forall|u: Seq<char>| #[trigger] distinct(urls).contains(u) ==> urls.contains(u),
    decreases urls.len(),
{
    if urls.len() > 0 {
        lemma_distinct(urls.drop_last());
        let before = distinct(urls.drop_last());
        assert forall|u: Seq<char>| #[trigger] distinct(urls).contains(u) implies urls.contains(
            u,
        ) by {
            if before.contains(u) {
                let k = choose|k: int| 0 <= k < urls.drop_last().len() && urls.drop_last()[k] == u;
                assert(urls[k] == u);
            } else {
                let k = choose|k: int| 0 <= k < distinct(urls).len() && distinct(urls)[k] == u;
                assert(k == before.len()) by {
                    if k < before.len() {
                        assert(before[k] == u);
                    }
                }
                assert(urls[urls.len() - 1] == u);
            }
        }
    }
}

proof fn lemma_with_links(
    urls: Seq<Seq<char>>,
    links: Seq<Seq<char>>,
    base_host: Seq<char>,
    include_subdomains: bool,
    limit: nat,
)
    requires
        urls.no_duplicates(),
    ensures
        with_links(urls, links, base_host, include_subdomains, limit).no_duplicates(),
        forall|u: Seq<char>| #[trigger]
            with_links(urls, links, base_host, include_subdomains, limit).contains(u)
                ==> urls.contains(u) || links.contains(u) && on_site(
                u,
                base_host,
                include_subdomains,
            ),
    decreases links.len(),
{
    if links.len() > 0 {
        let r = with_links(urls, links, base_host, include_subdomains, limit);
        let rest = links.drop_first();
        assert forall|u: Seq<char>| rest.contains(u) implies links.contains(u) by {
            let k = choose|k: int| 0 <= k < rest.len() && rest[k] == u;
            assert(links[k + 1] == u);
        }
        if on_site(links[0], base_host, include_subdomains) && !urls.contains(links[0]) {
            let more = urls.push(links[0]);
            assert forall|u: Seq<char>| #[trigger] more.contains(u) implies urls.contains(u) || u
                == links[0] by {
                let k = choose|k: int| 0 <= k < more.len() && more[k] == u;
                if k < urls.len() {
                    assert(urls[k] == u);
                }
            }
            assert(links.contains(links[0]));
            if more.len() < limit {
                lemma_with_links(more, rest, base_host, include_subdomains, limit);
            }
        } else {
            lemma_with_links(urls, rest, base_host, include_subdomains, limit);
        }
    }
}

proof fn lemma_searched(urls: Seq<Seq<char>>, search: Seq<char>)
    requires
        urls.no_duplicates(),
    ensures
        searched(urls, search).no_duplicates(),
        forall|u: Seq<char>| #[trigger]
            searched(urls, search).contains(u) ==> urls.contains(u) && contains(
                lowercase(u),
                lowercase(search),
            ),
    decreases urls.len(),
{
    if urls.len() > 0 {
        lemma_searched(urls.drop_last(), search);
        let before = searched(urls.drop_last(), search);
        let last = urls.last();
        assert forall|u: Seq<char>| urls.drop_last().contains(u) implies urls.contains(u) && u
            != last by {
            let k = choose|k: int| 0 <= k < urls.drop_last().len() && urls.drop_last()[k] == u;
            assert(urls[k] == u);
        }
        assert(urls.contains(last)) by {
            assert(urls[urls.len() - 1] == last);
        }
        assert forall|u: Seq<char>| #[trigger] searched(urls, search).contains(u) implies urls.contains(
            u,
        ) && contains(lowercase(u), lowercase(search)) by {
            let all = searched(urls, search);
            let k = choose|k: int| 0 <= k < all.len() && all[k] == u;
            if k < before.len() {
                assert(before[k] == u);
                assert(before.contains(u));
            }
        }
        assert(!before.contains(last)) by {
            if before.contains(last) {
                assert(urls.drop_last().contains(last));
            }
        }
    }
}

/// The list of the URLs of a site is no longer than asked for and names no URL
/// twice; each of them is in the sitemap or a link of the root page on the site,
/// and what was searched for stands in it.
pub proof fn law_mapped_urls(
    root: Seq<char>,
    base_host: Seq<char>,
    search: Option<Seq<char>>,
    include_subdomains: bool,
    limit: nat,
    sitemap: Seq<Seq<char>>,
    body: Option<Seq<char>>,
    i: int,
)
    requires
        0 <= i < mapped(
            root,
            base_host,
            search,
            include_subdomains,
            limit,
            sitemap,
            body,
        ).len(),
    ensures
        ({
            let urls = mapped(root, base_host, search, include_subdomains, limit, sitemap, body);
            &&& urls.len() <= limit
            &&& urls.no_duplicates()
            &&& sitemap.contains(urls[i]) || (body matches Some(html) && page_links(
                html,
                root,
            ).contains(urls[i]) && on_site(urls[i], base_host, include_subdomains))
            &&& search matches Some(q) ==> contains(lowercase(urls[i]), lowercase(q))
        }),
{
    let listed = distinct(sitemap);
    lemma_distinct(sitemap);
    let all = match body {
        Some(html) => with_links(
            listed,
            page_links(html, root),
            base_host,
            include_subdomains,
            limit,
        ),
        None => listed,
    };
    if let Some(html) = body {
        lemma_with_links(listed, page_links(html, root), base_host, include_subdomains, limit);
    }
    let found = match search {
        Some(q) => searched(all, q),
        None => all,
    };
    if let Some(q) = search {
        lemma_searched(all, q);
    }
    let urls = mapped(root, base_host, search, include_subdomains, limit, sitemap, body);
    assert(urls[i] == found[i]);
    assert(found.contains(found[i]));
    assert(all.contains(found[i]));
    assert(listed.contains(found[i]) ==> sitemap.contains(found[i]));
}

/// Of the URLs, exactly those in which the text stands, whatever its case, are kept, in
/// order.
pub proof fn law_search_is_a_filter(urls: Seq<Seq<char>>, search: Seq<char>)
    ensures
        searched(urls, search) == urls.filter(
            |u: Seq<char>| contains(lowercase(u), lowercase(search)),
        ),
    decreases urls.len(),
{
    reveal(Seq::filter);
    if urls.len() > 0 {
        law_search_is_a_filter(urls.drop_last(), search);
    } else {
        assert(urls =~= Seq::empty());
    }
}

/// The search leaves out no match, and keeps nothing else.
pub proof fn law_search_leaves_out_no_match(urls: Seq<Seq<char>>, search: Seq<char>, u: Seq<char>)
    ensures
        searched(urls, search).contains(u) <==> urls.contains(u) && contains(
            lowercase(u),
            lowercase(search),
        ),
    decreases urls.len(),
{
    if urls.len() > 0 {
        let rest = urls.drop_last();
        let before = searched(rest, search);
        let all = searched(urls, search);
        law_search_leaves_out_no_match(rest, search, u);
        if all.contains(u) {
            let k = choose|k: int| 0 <= k < all.len() && all[k] == u;
            if k < before.len() {
                assert(before[k] == u);
                let m = choose|m: int| 0 <= m < rest.len() && rest[m] == u;
                assert(urls[m] == u);
            } else {
                assert(urls[urls.len() - 1] == u);
            }
        }
        if urls.contains(u) && contains(lowercase(u), lowercase(search)) {
            let m = choose|m: int| 0 <= m < urls.len() && urls[m] == u;
            if m < rest.len() {
                assert(rest[m] == u);
                let k = choose|k: int| 0 <= k < before.len() && before[k] == u;
                assert(all[k] == u);
            } else {
                assert(all[before.len() as int] == u);
            }
        }
    }
}

/// Searching two lists of URLs one after the other finds what searching them together
/// does.
pub proof fn law_search_of_two_lists(a: Seq<Seq<char>>, b: Seq<Seq<char>>, search: Seq<char>)
    ensures
        searched(a + b, search) == searched(a, search) + searched(b, search),
{
    law_search_is_a_filter(a, search);
    law_search_is_a_filter(b, search);
    law_search_is_a_filter(a + b, search);
    Seq::filter_distributes_over_add(
        a,
        b,
        |u: Seq<char>| contains(lowercase(u), lowercase(search)),
    );
}

/// Of URLs that are named more than once the first one is kept, in its place, and no URL
/// is lost.
pub proof fn law_distinct(a: Seq<Seq<char>>, b: Seq<Seq<char>>, u: Seq<char>)
    ensures
        distinct(a).no_duplicates(),
        distinct(a).contains(u) <==> a.contains(u),
        distinct(a).is_prefix_of(distinct(a + b)),
    decreases a.len(), b.len(),
{
    lemma_distinct(a);
    if a.contains(u) {
        lemma_distinct_keeps(a, u);
    }
    if b.len() == 0 {
        assert(a + b =~= a);
    } else {
        law_distinct(a, b.drop_last(), u);
        assert((a + b).drop_last() =~= a + b.drop_last());
        assert(distinct(a).is_prefix_of(distinct(a + b)));
    }
}

proof fn lemma_distinct_keeps(urls: Seq<Seq<char>>, u: Seq<char>)
    requires
        urls.contains(u),
    ensures
        distinct(urls).contains(u),
    decreases urls.len(),
{
    let rest = urls.drop_last();
    let before = distinct(rest);
    let k = choose|k: int| 0 <= k < urls.len() && urls[k] == u;
    if k < rest.len() {
        assert(rest[k] == u);
        lemma_distinct_keeps(rest, u);
        let m = choose|m: int| 0 <= m < before.len() && before[m] == u;
        assert(distinct(urls)[m] == u);
    } else if !before.contains(u) {
        assert(distinct(urls)[before.len() as int] == u);
    }
}

/// A link is on the site where its host is that of the site; without subdomains no other
/// link is, and what is no URL never is.
pub proof fn law_on_site(link: Seq<char>, base_host: Seq<char>, include_subdomains: bool)
    ensures
        parsed_url(link) is Err ==> !on_site(link, base_host, include_subdomains),
        parsed_url(link) matches Ok(u) ==> on_site(link, base_host, false) == (u.host_text()
            == base_host),
        parsed_url(link) matches Ok(u) ==> (u.host_text() == base_host ==> on_site(
            link,
            base_host,
            include_subdomains,
        )),
{
}

/// With subdomains a link is on the site too where its host is that of the site behind
/// anything and a dot.
pub proof fn law_subdomain_is_on_site(link: Seq<char>, below: Seq<char>, base_host: Seq<char>)
    requires
        parsed_url(link) matches Ok(u) && u.host_text() == below + ("."@ + base_host),
    ensures
        on_site(link, base_host, true),
{
    law_text_contains_its_middle(below, "."@ + base_host, Seq::empty());
}

/// With subdomains no other link is on the site.
pub proof fn law_other_hosts_are_not_on_site(link: Seq<char>, base_host: Seq<char>)
    requires
        on_site(link, base_host, true),
        parsed_url(link) matches Ok(u) && u.host_text() != base_host,
    ensures
        parsed_url(link) matches Ok(u) && u.host_text() == u.host_text().take(
            u.host_text().len() - ("."@ + base_host).len(),
        ) + ("."@ + base_host),
{
    if let Ok(u) = parsed_url(link) {
        law_contained_text_stands_in_the_text(u.host_text(), "."@ + base_host);
    }
}

/// Until the list is full, the links of the root page that are on the site are added to
/// it behind what it held, one after the other, and none is left out.
pub proof fn law_links_are_added(
    urls: Seq<Seq<char>>,
    a: Seq<Seq<char>>,
    b: Seq<Seq<char>>,
    base_host: Seq<char>,
    include_subdomains: bool,
    limit: nat,
    u: Seq<char>,
)
    ensures
        ({
            let some = with_links(urls, a, base_host, include_subdomains, limit);
            &&& urls.is_prefix_of(some)
            &&& some.len() < limit ==> with_links(urls, a + b, base_host, include_subdomains, limit)
                == with_links(some, b, base_host, include_subdomains, limit)
            &&& some.len() < limit && a.contains(u) && on_site(u, base_host, include_subdomains)
                ==> some.contains(u)
            &&& urls.len() < limit ==> some.len() <= limit
        }),
    decreases a.len(),
{
    let some = with_links(urls, a, base_host, include_subdomains, limit);
    if a.len() == 0 {
        assert(a + b =~= b);
    } else {
        let rest = a.drop_first();
        assert((a + b).drop_first() =~= rest + b);
        let more = urls.push(a[0]);
        if on_site(a[0], base_host, include_subdomains) && !urls.contains(a[0]) {
            if more.len() < limit {
                law_links_are_added(more, rest, b, base_host, include_subdomains, limit, u);
                assert(more[urls.len() as int] == a[0]);
                assert(some[urls.len() as int] == a[0]);
                assert(urls.is_prefix_of(more));
            }
        } else {
            law_links_are_added(urls, rest, b, base_host, include_subdomains, limit, u);
        }
        if some.len() < limit && a.contains(u) && on_site(u, base_host, include_subdomains) {
            let k = choose|k: int| 0 <= k < a.len() && a[k] == u;
            if k > 0 {
                assert(rest[k - 1] == u);
            } else if urls.contains(u) {
                let m = choose|m: int| 0 <= m < urls.len() && urls[m] == u;
                assert(some[m] == u);
            }
        }
    }
}

/// What a list holds of texts it holds of them behind its beginning too.
proof fn lemma_prefix_contains(a: Seq<Seq<char>>, b: Seq<Seq<char>>, u: Seq<char>)
    requires
        a.is_prefix_of(b),
        a.contains(u),
    ensures
        b.contains(u),
{
    let k = choose|k: int| 0 <= k < a.len() && a[k] == u;
    assert(b[k] == u);
}

/// The list of the URLs of a site leaves nothing out: where it is shorter than it may
/// be, it names every URL of the sitemap in which the text stands; and where, without
/// the search, it would be shorter than it may be, it names every link of the root page
/// on the site in which the text stands.
pub proof fn law_map_leaves_nothing_out(
    root: Seq<char>,
    base_host: Seq<char>,
    search: Option<Seq<char>>,
    include_subdomains: bool,
    limit: nat,
    sitemap: Seq<Seq<char>>,
    body: Option<Seq<char>>,
    u: Seq<char>,
)
    requires
        search matches Some(q) ==> contains(lowercase(u), lowercase(q)),
    ensures
        ({
            let urls = mapped(root, base_host, search, include_subdomains, limit, sitemap, body);
            let unsearched = mapped(
                root,
                base_host,
                None,
                include_subdomains,
                limit,
                sitemap,
                body,
            );
            &&& sitemap.contains(u) && urls.len() < limit ==> urls.contains(u)
            &&& (body matches Some(html) && page_links(html, root).contains(u)) && on_site(
                u,
                base_host,
                include_subdomains,
            ) && unsearched.len() < limit ==> urls.contains(u)
        }),
{
    let listed = distinct(sitemap);
    law_distinct(sitemap, Seq::empty(), u);
    let all = match body {
        Some(html) => with_links(
            listed,
            page_links(html, root),
            base_host,
            include_subdomains,
            limit,
        ),
        None => listed,
    };
    if let Some(html) = body {
        law_links_are_added(
            listed,
            page_links(html, root),
            Seq::empty(),
            base_host,
            include_subdomains,
            limit,
            u,
        );
    }
    if listed.contains(u) {
        lemma_prefix_contains(listed, all, u);
    }
    if let Some(q) = search {
        law_search_leaves_out_no_match(all, q, u);
        law_search_is_a_filter(all, q);
        all.lemma_filter_len(|u: Seq<char>| contains(lowercase(u), lowercase(q)));
    }
}

/// Searching the list of a site that is not full narrows it down to the matches.
pub proof fn law_map_is_searched(
    root: Seq<char>,
    base_host: Seq<char>,
    search: Seq<char>,
    include_subdomains: bool,
    limit: nat,
    sitemap: Seq<Seq<char>>,
    body: Option<Seq<char>>,
)
    requires
        mapped(root, base_host, None, include_subdomains, limit, sitemap, body).len() < limit,
    ensures
        mapped(root, base_host, Some(search), include_subdomains, limit, sitemap, body) == mapped(
            root,
            base_host,
            None,
            include_subdomains,
            limit,
            sitemap,
            body,
        ).filter(|u: Seq<char>| contains(lowercase(u), lowercase(search))),
{
    let all = mapped(root, base_host, None, include_subdomains, limit, sitemap, body);
    law_search_is_a_filter(all, search);
    all.lemma_filter_len(|u: Seq<char>| contains(lowercase(u), lowercase(search)));
}

/// The list begins with the URLs of the sitemap.
pub proof fn law_map_begins_with_the_sitemap(
    root: Seq<char>,
    base_host: Seq<char>,
    include_subdomains: bool,
    limit: nat,
    sitemap: Seq<Seq<char>>,
    body: Option<Seq<char>>,
    k: int,
)
    requires
        0 <= k < distinct(sitemap).len(),
        k < limit,
    ensures
        ({
            let urls = mapped(root, base_host, None, include_subdomains, limit, sitemap, body);
            k < urls.len() && urls[k] == distinct(sitemap)[k]
        }),
{
    if let Some(html) = body {
        law_links_are_added(
            distinct(sitemap),
            page_links(html, root),
            Seq::empty(),
            base_host,
            include_subdomains,
            limit,
            root,
        );
    }
}

/// A page is taken from the browser just where something is to be done or waited for on
/// it and there is no other service for that; the time it may take is that of the job,
/// or else the usual one.
pub proof fn law_page_source(job: ScrapeJobView, config: CrawlerConfig)
    ensures
        config.playwright_url is Some ==> source_of(job, config) is Http,
        job.actions.len() == 0 && job.wait_for == 0 ==> source_of(job, config) is Http,
        config.playwright_url is None && (job.actions.len() > 0 || job.wait_for > 0) ==> {
            &&& source_of(job, config) matches PageSource::Browser { wait_for, timeout_seconds }
            &&& wait_for == job.wait_for
            &&& job.timeout matches Some(t) ==> timeout_seconds == t
            &&& job.timeout is None ==> timeout_seconds == config.request_timeout_seconds
        },
{
}

/// What stands behind a semicolon is no part of the media type.
pub proof fn law_media_type(name: Seq<char>, parameters: Seq<char>)
    requires
        forall|i: int| 0 <= i < name.len() ==> (#[trigger] name[i]) != ';',
    ensures
        media_type(name + seq![';'] + parameters) == trim(name),
        media_type(name) == trim(name),
{
    let all = name + seq![';'] + parameters;
    let p = seq![';'];
    let at = name.len() as int;
    assert(all.subrange(at, at + 1) =~= p);
    assert forall|j: int| 0 <= j < at implies !#[trigger] occurs_at(all, p, j) by {
        if occurs_at(all, p, j) {
            assert(all.subrange(j, j + 1)[0] == name[j]);
        }
    }
    lemma_find_is(all, p, 0, at);
    assert(all.take(at) =~= name);
    assert forall|j: int| 0 <= j implies !#[trigger] occurs_at(name, p, j) by {
        if occurs_at(name, p, j) {
            assert(name.subrange(j, j + 1)[0] == name[j]);
        }
    }
    lemma_find_from(name, p, 0);
}

} // verus!
