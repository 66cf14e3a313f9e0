//! The breadth-first crawl of a site: which page comes next, and what a page adds.

use crate::html::{extract_links, page_links};
use crate::models::{
    formats_or_markdown, holds_format, opt_result_view, page_job, page_job_of, requested_formats,
    result_views, AppError, AppErrorView, OutputFormat, ScrapeJobData, ScrapeJobView, ScrapeOptions,
    ScrapeOptionsView, ScrapeResult, ScrapeResultView,
};
use crate::text::{
    contains, holds_text, law_text_contains_its_middle, same_text, text_contains, views,
};
use crate::weburl::{parse_url, parsed_url};
use std::collections::VecDeque;
use vstd::prelude::*;

verus! {

/// What to crawl, and how far.
#[derive(Debug)]
pub struct CrawlParams {
    pub root_url: String,
    pub max_depth: u32,
    pub limit: u32,
    pub scrape_options: ScrapeOptions,
    pub allow_external_links: bool,
    pub ignore_sitemap: bool,
    pub include_paths: Vec<String>,
    pub exclude_paths: Vec<String>,
}

/// A crawl, as far as it has come.
#[derive(Debug)]
pub struct Crawl {
    pub params: CrawlParams,
    pub base_host: String,
    /// The URLs that were ever put into the queue.
    pub visited: Vec<String>,
    /// The URLs to scrape, with their depths.
    pub queue: VecDeque<(String, u32)>,
    pub results: Vec<ScrapeResult>,
    /// The URL that is being scraped, with its depth.
    pub current: Option<(String, u32)>,
}

/// What a crawl goes by: the mathematical value of its parameters.
pub struct CrawlRules {
    pub max_depth: u32,
    pub limit: u32,
    pub options: ScrapeOptionsView,
    pub allow_external_links: bool,
    pub include_paths: Seq<Seq<char>>,
    pub exclude_paths: Seq<Seq<char>>,
    pub base_host: Seq<char>,
}

/// The mathematical value of a crawl.
pub struct CrawlView {
    pub rules: CrawlRules,
    pub visited: Seq<Seq<char>>,
    pub queue: Seq<(Seq<char>, u32)>,
    pub results: Seq<ScrapeResultView>,
    pub current: Option<(Seq<char>, u32)>,
}

/// The values of a queue.
pub open spec fn queue_view(q: Seq<(String, u32)>) -> Seq<(Seq<char>, u32)> {
    q.map_values(|e: (String, u32)| (e.0@, e.1))
}

impl View for Crawl {
    type V = CrawlView;

    open spec fn view(&self) -> CrawlView {
        CrawlView {
            rules: rules_of(self.params, self.base_host@),
            visited: views(self.visited@),
            queue: queue_view(self.queue@),
            results: result_views(self.results@),
            current: match self.current {
                Some((url, depth)) => Some((url@, depth)),
                None => None,
            },
        }
    }
}

/// The rules that the parameters of a crawl are, on a site with the host
/// `base_host`.
pub open spec fn rules_of(params: CrawlParams, base_host: Seq<char>) -> CrawlRules {
    CrawlRules {
        max_depth: params.max_depth,
        limit: params.limit,
        options: params.scrape_options@,
        allow_external_links: params.allow_external_links,
        include_paths: views(params.include_paths@),
        exclude_paths: views(params.exclude_paths@),
        base_host,
    }
}

// ---------------------------------------------------------------------------
// What a crawl does
// ---------------------------------------------------------------------------

/// Some member of `paths` stands in `url`.
pub open spec fn matches_some(url: Seq<char>, paths: Seq<Seq<char>>) -> bool {
    exists|i: int| 0 <= i < paths.len() && contains(url, #[trigger] paths[i])
}

/// The URL is one that the crawl scrapes: it has one of the paths to go to, where
/// there are any, none of the paths to keep off, and is on the site that is
/// crawled, unless other sites are allowed. What is no URL is on no other site.
pub open spec fn admitted(rules: CrawlRules, url: Seq<char>) -> bool {
    &&& rules.include_paths.len() == 0 || matches_some(url, rules.include_paths)
    &&& !matches_some(url, rules.exclude_paths)
    &&& rules.allow_external_links || match parsed_url(url) {
        Ok(u) => u.host_text() == rules.base_host,
        Err(_) => true,
    }
}

/// The URLs visited and the queue after `links` were found at depth `depth`: a
/// link that was never in the queue is put at its end.
pub open spec fn enqueued(
    visited: Seq<Seq<char>>,
    queue: Seq<(Seq<char>, u32)>,
    links: Seq<Seq<char>>,
    depth: u32,
) -> (Seq<Seq<char>>, Seq<(Seq<char>, u32)>)
    decreases links.len(),
{
    if links.len() == 0 {
        (visited, queue)
    } else {
        let (v, q) = enqueued(visited, queue, links.drop_last(), depth);
        if v.contains(links.last()) {
            (v, q)
        } else {
            (v.push(links.last()), q.push((links.last(), depth)))
        }
    }
}

/// A crawl at its beginning: the root is first, and the pages of the sitemap are one
/// deep, where the crawl may go there.
pub open spec fn crawl_start(
    rules: CrawlRules,
    root: Seq<char>,
    sitemap: Seq<Seq<char>>,
) -> CrawlView {
    let seeds = if rules.max_depth >= 1 {
        sitemap
    } else {
        Seq::empty()
    };
    let (visited, queue) = enqueued(seq![root], seq![(root, 0u32)], seeds, 1);
    CrawlView { rules, visited, queue, results: Seq::empty(), current: None }
}

/// The first URL of the queue that is admitted, and the queue behind it.
pub open spec fn first_admitted(rules: CrawlRules, queue: Seq<(Seq<char>, u32)>) -> (
    Seq<(Seq<char>, u32)>,
    Option<(Seq<char>, u32)>,
)
    decreases queue.len(),
{
    if queue.len() == 0 {
        (queue, None)
    } else if admitted(rules, queue[0].0) {
        (queue.drop_first(), Some(queue[0]))
    } else {
        first_admitted(rules, queue.drop_first())
    }
}

/// A crawl after its next page was chosen; where it has scraped as many pages as
/// it may, there is none.
pub open spec fn crawl_next(c: CrawlView) -> CrawlView {
    if c.results.len() >= c.rules.limit {
        CrawlView { current: None, ..c }
    } else {
        let (queue, current) = first_admitted(c.rules, c.queue);
        CrawlView { queue, current, ..c }
    }
}

/// The formats in which a page at depth `depth` is fetched: those asked for, and
/// the page itself where its links are followed.
pub open spec fn fetched_formats(rules: CrawlRules, depth: u32) -> Seq<OutputFormat> {
    let formats = formats_or_markdown(rules.options.formats);
    if depth < rules.max_depth && !formats.contains(OutputFormat::RawHtml) {
        formats.push(OutputFormat::RawHtml)
    } else {
        formats
    }
}

/// The job that scrapes the page `url` at depth `depth`.
pub open spec fn crawl_job(rules: CrawlRules, url: Seq<char>, depth: u32) -> ScrapeJobView {
    page_job(url, fetched_formats(rules, depth), rules.options)
}

/// The result that a crawl keeps of a page: without the page itself, unless that
/// was asked for.
pub open spec fn kept_result(rules: CrawlRules, result: ScrapeResultView) -> ScrapeResultView {
    if formats_or_markdown(rules.options.formats).contains(OutputFormat::RawHtml) {
        result
    } else {
        ScrapeResultView { raw_html: None, ..result }
    }
}

/// The links that are followed from a page.
pub open spec fn followed_links(
    rules: CrawlRules,
    url: Seq<char>,
    depth: u32,
    result: ScrapeResultView,
) -> Seq<Seq<char>> {
    match result.raw_html {
        Some(raw) => if depth < rules.max_depth && parsed_url(url) is Ok {
            page_links(raw, url)
        } else {
            Seq::empty()
        },
        None => Seq::empty(),
    }
}

/// A crawl after the current page was scraped, or could not be.
pub open spec fn crawl_scraped(c: CrawlView, result: Option<ScrapeResultView>) -> CrawlView {
    match (c.current, result) {
        (Some((url, depth)), Some(r)) => {
            let links = followed_links(c.rules, url, depth, r);
            let (visited, queue) = enqueued(c.visited, c.queue, links, (depth + 1) as u32);
            CrawlView {
                visited,
                queue,
                results: c.results.push(kept_result(c.rules, r)),
                current: None,
                ..c
            }
        },
        _ => CrawlView { current: None, ..c },
    }
}

// ---------------------------------------------------------------------------
// What every crawl keeps
// ---------------------------------------------------------------------------

/// The URLs of a queue.
pub open spec fn urls_of(queue: Seq<(Seq<char>, u32)>) -> Seq<Seq<char>> {
    queue.map_values(|e: (Seq<char>, u32)| e.0)
}

impl CrawlView {
    /// At most as many results as may be; no URL twice in the queue, nor twice
    /// among those visited, and all of the queue visited; the queue in order of
    /// depth, with depths at most one apart, and none before the current page.
    pub open spec fn wf(self) -> bool {
        &&& self.results.len() <= self.rules.limit
        &&& self.visited.no_duplicates()
        &&& urls_of(self.queue).no_duplicates()
        &&& forall|i: int| 0 <= i < self.queue.len() ==> self.visited.contains(
            (#[trigger] self.queue[i]).0,
        )
        &&& forall|i: int, j: int|
            0 <= i <= j < self.queue.len() ==> (#[trigger] self.queue[i]).1 <= (
            #[trigger] self.queue[j]).1 <= self.queue[i].1 + 1
        &&& match self.current {
            Some((url, depth)) => {
                &&& self.results.len() < self.rules.limit
                &&& self.visited.contains(url)
                &&& !urls_of(self.queue).contains(url)
                &&& admitted(self.rules, url)
                &&& forall|i: int|
                    0 <= i < self.queue.len() ==> depth <= (#[trigger] self.queue[i]).1 <= depth + 1
            },
            None => true,
        }
    }
}

/// What was visited stays visited, the queue grows at its end, and what is new in
/// it is new among what was visited.
pub proof fn lemma_enqueued(
    visited: Seq<Seq<char>>,
    queue: Seq<(Seq<char>, u32)>,
    links: Seq<Seq<char>>,
    depth: u32,
)
    requires
        visited.no_duplicates(),
        urls_of(queue).no_duplicates(),
        forall|i: int| 0 <= i < queue.len() ==> visited.contains((#[trigger] queue[i]).0),
    ensures
        ({
            let (v, q) = enqueued(visited, queue, links, depth);
            &&& v.no_duplicates()
            &&& urls_of(q).no_duplicates()
            &&& queue.len() <= q.len()
            &&& forall|i: int| 0 <= i < queue.len() ==> #[trigger] q[i] == queue[i]
            &&& forall|i: int|
                queue.len() <= i < q.len() ==> (#[trigger] q[i]).1 == depth && !visited.contains(
                    q[i].0,
                ) && links.contains(q[i].0)
            &&& forall|i: int| 0 <= i < q.len() ==> v.contains((#[trigger] q[i]).0)
            &&& forall|u: Seq<char>| visited.contains(u) ==> #[trigger] v.contains(u)
            &&& forall|u: Seq<char>| #[trigger]
                v.contains(u) ==> visited.contains(u) || links.contains(u)
        }),
    decreases links.len(),
{
    if links.len() > 0 {
        let rest = links.drop_last();
        lemma_enqueued(visited, queue, rest, depth);
        let (v, q) = enqueued(visited, queue, rest, depth);
        let (v2, q2) = enqueued(visited, queue, links, depth);
        let last = links.last();
        assert forall|u: Seq<char>| rest.contains(u) implies links.contains(u) by {
            let k = choose|k: int| 0 <= k < rest.len() && rest[k] == u;
            assert(links[k] == u);
        }
        assert(links.contains(last)) by {
            assert(links[links.len() - 1] == last);
        }
        if !v.contains(last) {
            assert(v2 == v.push(last));
            assert(q2 == q.push((last, depth)));
            assert forall|u: Seq<char>| v.contains(u) implies #[trigger] v2.contains(u) by {
                let k = choose|k: int| 0 <= k < v.len() && v[k] == u;
                assert(v2[k] == u);
            }
            assert(v2.contains(last)) by {
                assert(v2[v.len() as int] == last);
            }
            assert forall|u: Seq<char>| #[trigger]
                v2.contains(u) implies visited.contains(u) || links.contains(u) by {
                let k = choose|k: int| 0 <= k < v2.len() && v2[k] == u;
                if k < v.len() {
                    assert(v[k] == u);
                    assert(v.contains(u));
                }
            }
            assert forall|i: int, j: int|
                0 <= i < urls_of(q2).len() && 0 <= j < urls_of(q2).len() && i != j implies urls_of(
                q2,
            )[i] != urls_of(q2)[j] by {
                if i < q.len() && j < q.len() {
                    assert(urls_of(q)[i] != urls_of(q)[j]);
                } else if i < q.len() {
                    assert(v.contains(q[i].0));
                } else {
                    assert(v.contains(q[j].0));
                }
            }
            assert forall|i: int| queue.len() <= i < q2.len() implies (#[trigger] q2[i]).1 == depth
                && !visited.contains(q2[i].0) && links.contains(q2[i].0) by {
                if i < q.len() {
                    assert(q2[i] == q[i]);
                } else if visited.contains(last) {
                    assert(v.contains(last));
                }
            }
            assert forall|i: int| 0 <= i < q2.len() implies v2.contains((#[trigger] q2[i]).0) by {
                if i < q.len() {
                    assert(q2[i] == q[i]);
                    assert(v.contains(q[i].0));
                }
            }
        } else {
            assert forall|i: int| queue.len() <= i < q2.len() implies links.contains(
                (#[trigger] q2[i]).0,
            ) by {
                assert(rest.contains(q[i].0));
            }
        }
    }
}

/// A crawl that begins keeps what every crawl keeps; the root comes first.
pub proof fn lemma_start_wf(rules: CrawlRules, root: Seq<char>, sitemap: Seq<Seq<char>>)
    ensures
        crawl_start(rules, root, sitemap).wf(),
        crawl_start(rules, root, sitemap).queue.len() > 0,
        crawl_start(rules, root, sitemap).queue[0] == (root, 0u32),
        forall|i: int|
            0 <= i < crawl_start(rules, root, sitemap).queue.len() ==> (
            #[trigger] crawl_start(rules, root, sitemap).queue[i]).1 <= rules.max_depth,
{
    let first = seq![root];
    let queue = seq![(root, 0u32)];
    let seeds = if rules.max_depth >= 1 {
        sitemap
    } else {
        Seq::empty()
    };
    assert(first[0] == root);
    assert(urls_of(queue).no_duplicates());
    lemma_enqueued(first, queue, seeds, 1);
    let c = crawl_start(rules, root, sitemap);
    assert(c.queue[0] == queue[0]);
    assert forall|i: int| 0 <= i < c.queue.len() implies (#[trigger] c.queue[i]).1
        <= rules.max_depth && (i > 0 ==> c.queue[i].1 == 1) by {
        if i > 0 {
            assert(seeds.contains(c.queue[i].0));
        }
    }
}

/// Choosing the next page keeps what every crawl keeps, and takes a page of the
/// queue.
pub proof fn lemma_next_wf(c: CrawlView)
    requires
        c.wf(),
    ensures
        crawl_next(c).wf(),
        forall|i: int|
            0 <= i < crawl_next(c).queue.len() ==> c.queue.contains(
                #[trigger] crawl_next(c).queue[i],
            ),
        crawl_next(c).current matches Some(e) ==> c.queue.contains(e),
{
    lemma_first_admitted(c.rules, c.queue);
    let d = crawl_next(c);
    if c.results.len() < c.rules.limit {
        let (rest, current) = first_admitted(c.rules, c.queue);
        let n = c.queue.len() - rest.len();
        assert forall|i: int| 0 <= i < rest.len() implies #[trigger] rest[i] == c.queue[n + i] by {}
        assert forall|i: int, j: int|
            0 <= i < urls_of(rest).len() && 0 <= j < urls_of(rest).len() && i != j implies urls_of(
            rest,
        )[i] != urls_of(rest)[j] by {
            assert(urls_of(c.queue)[n + i] != urls_of(c.queue)[n + j]);
        }
        assert forall|i: int| 0 <= i < d.queue.len() implies c.queue.contains(
            #[trigger] d.queue[i],
        ) by {
            assert(c.queue[n + i] == d.queue[i]);
        }
        if let Some(e) = current {
            assert(c.queue[n - 1] == e);
            assert forall|i: int| 0 <= i < urls_of(rest).len() implies urls_of(rest)[i] != e.0 by {
                assert(urls_of(c.queue)[n + i] != urls_of(c.queue)[n - 1]);
            }
            assert forall|i: int| 0 <= i < rest.len() implies e.1 <= (#[trigger] rest[i]).1 <= e.1
                + 1 by {
                assert(c.queue[n - 1].1 <= c.queue[n + i].1);
            }
        }
    } else {
        assert forall|i: int| 0 <= i < d.queue.len() implies c.queue.contains(
            #[trigger] d.queue[i],
        ) by {}
    }
}

proof fn lemma_first_admitted(rules: CrawlRules, queue: Seq<(Seq<char>, u32)>)
    ensures
        ({
            let (rest, first) = first_admitted(rules, queue);
            &&& rest.len() <= queue.len()
            &&& forall|i: int|
                0 <= i < rest.len() ==> #[trigger] rest[i] == queue[queue.len() - rest.len() + i]
            &&& match first {
                Some(e) => rest.len() < queue.len() && queue[queue.len() - rest.len() - 1] == e
                    && admitted(rules, e.0),
                None => rest.len() == 0,
            }
        }),
    decreases queue.len(),
{
    if queue.len() > 0 && !admitted(rules, queue[0].0) {
        lemma_first_admitted(rules, queue.drop_first());
        let (rest, first) = first_admitted(rules, queue);
        let tail = queue.drop_first();
        assert forall|i: int| 0 <= i < rest.len() implies #[trigger] rest[i] == queue[queue.len()
            - rest.len() + i] by {
            assert(tail[tail.len() - rest.len() + i] == queue[queue.len() - rest.len() + i]);
        }
        if let Some(e) = first {
            assert(tail[tail.len() - rest.len() - 1] == queue[queue.len() - rest.len() - 1]);
        }
    }
}

/// Scraping the current page keeps what every crawl keeps; what is new in the
/// queue was never in it, and is one deeper.
pub proof fn lemma_scraped_wf(c: CrawlView, result: Option<ScrapeResultView>)
    requires
        c.wf(),
    ensures
        crawl_scraped(c, result).wf(),
        forall|i: int|
            0 <= i < crawl_scraped(c, result).queue.len() ==> {
                let e = #[trigger] crawl_scraped(c, result).queue[i];
                ||| c.queue.contains(e)
                ||| !c.visited.contains(e.0) && (c.current matches Some((_, depth)) && e.1 == depth
                    + 1 && depth < c.rules.max_depth)
            },
        forall|u: Seq<char>|
            c.visited.contains(u) ==> #[trigger] crawl_scraped(c, result).visited.contains(u),
        c.current matches Some((u, _)) ==> !urls_of(crawl_scraped(c, result).queue).contains(u),
{
    let d = crawl_scraped(c, result);
    match (c.current, result) {
        (Some((url, depth)), Some(r)) => {
            let links = followed_links(c.rules, url, depth, r);
            let next = (depth + 1) as u32;
            lemma_enqueued(c.visited, c.queue, links, next);
            assert(links.len() > 0 ==> depth < c.rules.max_depth && next == depth + 1);
            assert forall|i: int| 0 <= i < d.queue.len() implies {
                let e = #[trigger] d.queue[i];
                ||| c.queue.contains(e)
                ||| !c.visited.contains(e.0) && e.1 == depth + 1 && depth < c.rules.max_depth
            } by {
                if i < c.queue.len() {
                    assert(d.queue[i] == c.queue[i]);
                } else {
                    assert(links.contains(d.queue[i].0));
                }
            }
            assert forall|i: int, j: int| 0 <= i <= j < d.queue.len() implies (
            #[trigger] d.queue[i]).1 <= (#[trigger] d.queue[j]).1 <= d.queue[i].1 + 1 by {
                if j < c.queue.len() {
                    assert(d.queue[i] == c.queue[i] && d.queue[j] == c.queue[j]);
                } else {
                    assert(links.contains(d.queue[j].0));
                    if i < c.queue.len() {
                        assert(d.queue[i] == c.queue[i]);
                    }
                }
            }
            assert forall|i: int| 0 <= i < urls_of(d.queue).len() implies urls_of(d.queue)[i]
                != url by {
                if i < c.queue.len() {
                    assert(d.queue[i] == c.queue[i]);
                    assert(urls_of(c.queue)[i] == c.queue[i].0);
                } else {
                    assert(!c.visited.contains(d.queue[i].0));
                }
            }
        },
        _ => {},
    }
}

// ---------------------------------------------------------------------------
// Whole crawls
// ---------------------------------------------------------------------------

/// The pages that are scraped, with their depths, when the scraping of one page
/// after the other comes out as `outcomes` say.
pub open spec fn scraped_pages(c: CrawlView, outcomes: Seq<Option<ScrapeResultView>>) -> Seq<
    (Seq<char>, u32),
>
    decreases outcomes.len(),
{
    if outcomes.len() == 0 {
        Seq::empty()
    } else {
        let chosen = crawl_next(c);
        match chosen.current {
            Some(e) => seq![e] + scraped_pages(
                crawl_scraped(chosen, outcomes[0]),
                outcomes.drop_first(),
            ),
            None => Seq::empty(),
        }
    }
}

/// The crawl at the end of the same pages.
pub open spec fn crawl_end(c: CrawlView, outcomes: Seq<Option<ScrapeResultView>>) -> CrawlView
    decreases outcomes.len(),
{
    if outcomes.len() == 0 {
        c
    } else {
        let chosen = crawl_next(c);
        match chosen.current {
            Some(_) => crawl_end(crawl_scraped(chosen, outcomes[0]), outcomes.drop_first()),
            None => chosen,
        }
    }
}

/// What holds of the pages that a crawl scrapes from some point on.
proof fn lemma_scraped_pages(
    c: CrawlView,
    outcomes: Seq<Option<ScrapeResultView>>,
    low: nat,
    high: nat,
)
    requires
        c.wf(),
        c.rules.max_depth <= high,
        forall|i: int| 0 <= i < c.queue.len() ==> low <= (#[trigger] c.queue[i]).1 <= high,
    ensures
        urls_of(scraped_pages(c, outcomes)).no_duplicates(),
        crawl_end(c, outcomes).wf(),
        crawl_end(c, outcomes).rules == c.rules,
        forall|i: int|
            0 <= i < scraped_pages(c, outcomes).len() ==> {
                let e = #[trigger] scraped_pages(c, outcomes)[i];
                &&& c.queue.contains(e) || !c.visited.contains(e.0)
                &&& low <= e.1 <= high
                &&& admitted(c.rules, e.0)
            },
        forall|i: int, j: int|
            0 <= i <= j < scraped_pages(c, outcomes).len() ==> (#[trigger] scraped_pages(
                c,
                outcomes,
            )[i]).1 <= (#[trigger] scraped_pages(c, outcomes)[j]).1,
    decreases outcomes.len(),
{
    let pages = scraped_pages(c, outcomes);
    if outcomes.len() > 0 {
        let chosen = crawl_next(c);
        lemma_next_wf(c);
        if let Some(e) = chosen.current {
            let after = crawl_scraped(chosen, outcomes[0]);
            lemma_scraped_wf(chosen, outcomes[0]);
            let later = scraped_pages(after, outcomes.drop_first());
            let k = choose|k: int| 0 <= k < c.queue.len() && c.queue[k] == e;
            assert(low <= c.queue[k].1 <= high);
            assert forall|i: int| 0 <= i < after.queue.len() implies e.1 <= (
            #[trigger] after.queue[i]).1 <= high by {
                let q = after.queue[i];
                if chosen.queue.contains(q) {
                    let m = choose|m: int| 0 <= m < chosen.queue.len() && chosen.queue[m] == q;
                    assert(chosen.queue[m] == q);
                    assert(c.queue.contains(q));
                    let n = choose|n: int| 0 <= n < c.queue.len() && c.queue[n] == q;
                    assert(c.queue[n].1 <= high);
                }
            }
            lemma_scraped_pages(after, outcomes.drop_first(), e.1 as nat, high);
            assert(pages =~= seq![e] + later);
            assert forall|i: int| 0 < i < pages.len() implies #[trigger] pages[i] == later[i - 1] by {}
            assert(!urls_of(after.queue).contains(e.0));
            assert(after.visited.contains(e.0)) by {
                assert(c.visited.contains(c.queue[k].0));
            }
            assert forall|i: int| 0 <= i < later.len() implies (#[trigger] later[i]).0 != e.0 by {
                if after.queue.contains(later[i]) {
                    let m = choose|m: int| 0 <= m < after.queue.len() && after.queue[m] == later[i];
                    assert(urls_of(after.queue)[m] == later[i].0);
                }
            }
            assert forall|i: int, j: int|
                0 <= i < urls_of(pages).len() && 0 <= j < urls_of(pages).len() && i
                    != j implies urls_of(pages)[i] != urls_of(pages)[j] by {
                if i > 0 && j > 0 {
                    assert(urls_of(later)[i - 1] != urls_of(later)[j - 1]);
                } else if i > 0 {
                    assert(later[i - 1].0 != e.0);
                } else {
                    assert(later[j - 1].0 != e.0);
                }
            }
            assert forall|i: int| 0 <= i < pages.len() implies {
                let p = #[trigger] pages[i];
                &&& c.queue.contains(p) || !c.visited.contains(p.0)
                &&& low <= p.1 <= high
                &&& admitted(c.rules, p.0)
            } by {
                if i > 0 {
                    let p = later[i - 1];
                    if after.queue.contains(p) {
                        let m = choose|m: int| 0 <= m < after.queue.len() && after.queue[m] == p;
                        assert(after.queue[m] == p);
                        if chosen.queue.contains(p) {
                            let n = choose|n: int|
                                0 <= n < chosen.queue.len() && chosen.queue[n] == p;
                            assert(chosen.queue[n] == p);
                        }
                    } else if c.visited.contains(p.0) {
                        assert(after.visited.contains(p.0));
                    }
                }
            }
            assert forall|i: int, j: int| 0 <= i <= j < pages.len() implies (
            #[trigger] pages[i]).1 <= (#[trigger] pages[j]).1 by {
                if i > 0 {
                    assert(later[i - 1].1 <= later[j - 1].1);
                } else if j > 0 {
                    assert(e.1 <= later[j - 1].1);
                }
            }
        }
    }
}

/// No page is scraped twice in a crawl.
pub proof fn law_each_page_once(
    rules: CrawlRules,
    root: Seq<char>,
    sitemap: Seq<Seq<char>>,
    outcomes: Seq<Option<ScrapeResultView>>,
)
    ensures
        urls_of(scraped_pages(crawl_start(rules, root, sitemap), outcomes)).no_duplicates(),
{
    lemma_start_wf(rules, root, sitemap);
    lemma_scraped_pages(
        crawl_start(rules, root, sitemap),
        outcomes,
        0,
        rules.max_depth as nat,
    );
}

/// A crawl gives at most as many results as it may.
pub proof fn law_results_within_limit(
    rules: CrawlRules,
    root: Seq<char>,
    sitemap: Seq<Seq<char>>,
    outcomes: Seq<Option<ScrapeResultView>>,
)
    ensures
        crawl_end(crawl_start(rules, root, sitemap), outcomes).results.len() <= rules.limit,
{
    lemma_start_wf(rules, root, sitemap);
    lemma_scraped_pages(
        crawl_start(rules, root, sitemap),
        outcomes,
        0,
        rules.max_depth as nat,
    );
}

/// Every page that a crawl scrapes is at most as deep as the crawl may go.
pub proof fn law_depth_within_limit(
    rules: CrawlRules,
    root: Seq<char>,
    sitemap: Seq<Seq<char>>,
    outcomes: Seq<Option<ScrapeResultView>>,
    i: int,
)
    requires
        0 <= i < scraped_pages(crawl_start(rules, root, sitemap), outcomes).len(),
    ensures
        scraped_pages(crawl_start(rules, root, sitemap), outcomes)[i].1 <= rules.max_depth,
{
    lemma_start_wf(rules, root, sitemap);
    lemma_scraped_pages(
        crawl_start(rules, root, sitemap),
        outcomes,
        0,
        rules.max_depth as nat,
    );
}

/// A crawl begins at its root, wherever the sitemap lists it: where it scrapes pages at
/// all and the root is admitted, the root is the first of them.
pub proof fn law_root_comes_first(
    rules: CrawlRules,
    root: Seq<char>,
    sitemap: Seq<Seq<char>>,
    outcomes: Seq<Option<ScrapeResultView>>,
)
    requires
        rules.limit > 0,
        admitted(rules, root),
        outcomes.len() > 0,
    ensures
        scraped_pages(crawl_start(rules, root, sitemap), outcomes).len() > 0,
        scraped_pages(crawl_start(rules, root, sitemap), outcomes)[0] == (root, 0u32),
{
    lemma_start_wf(rules, root, sitemap);
}

/// A crawl is breadth first: it scrapes no page before one that is less deep.
pub proof fn law_breadth_first(
    rules: CrawlRules,
    root: Seq<char>,
    sitemap: Seq<Seq<char>>,
    outcomes: Seq<Option<ScrapeResultView>>,
    i: int,
    j: int,
)
    requires
        0 <= i <= j < scraped_pages(crawl_start(rules, root, sitemap), outcomes).len(),
    ensures
        scraped_pages(crawl_start(rules, root, sitemap), outcomes)[i].1 <= scraped_pages(
            crawl_start(rules, root, sitemap),
            outcomes,
        )[j].1,
{
    lemma_start_wf(rules, root, sitemap);
    lemma_scraped_pages(
        crawl_start(rules, root, sitemap),
        outcomes,
        0,
        rules.max_depth as nat,
    );
}

/// A crawl scrapes only pages that its rules admit: it stays on its site unless
/// other sites are allowed, and keeps to the paths it was given.
pub proof fn law_only_admitted_pages(
    rules: CrawlRules,
    root: Seq<char>,
    sitemap: Seq<Seq<char>>,
    outcomes: Seq<Option<ScrapeResultView>>,
    i: int,
)
    requires
        0 <= i < scraped_pages(crawl_start(rules, root, sitemap), outcomes).len(),
    ensures
        admitted(rules, scraped_pages(crawl_start(rules, root, sitemap), outcomes)[i].0),
{
    lemma_start_wf(rules, root, sitemap);
    lemma_scraped_pages(
        crawl_start(rules, root, sitemap),
        outcomes,
        0,
        rules.max_depth as nat,
    );
}

/// Unless it was asked for, no result of a crawl holds the page itself.
pub proof fn law_raw_html_only_if_asked(
    rules: CrawlRules,
    root: Seq<char>,
    sitemap: Seq<Seq<char>>,
    outcomes: Seq<Option<ScrapeResultView>>,
    i: int,
)
    requires
        !rules.options.formats.contains(OutputFormat::RawHtml),
        0 <= i < crawl_end(crawl_start(rules, root, sitemap), outcomes).results.len(),
    ensures
        crawl_end(crawl_start(rules, root, sitemap), outcomes).results[i].raw_html is None,
{
    lemma_results_stripped(crawl_start(rules, root, sitemap), outcomes);
}

proof fn lemma_results_stripped(c: CrawlView, outcomes: Seq<Option<ScrapeResultView>>)
    requires
        !c.rules.options.formats.contains(OutputFormat::RawHtml),
        forall|i: int| 0 <= i < c.results.len() ==> (#[trigger] c.results[i]).raw_html is None,
    ensures
        forall|i: int|
            0 <= i < crawl_end(c, outcomes).results.len() ==> (#[trigger] crawl_end(
                c,
                outcomes,
            ).results[i]).raw_html is None,
    decreases outcomes.len(),
{
    if outcomes.len() > 0 {
        let chosen = crawl_next(c);
        if chosen.current is Some {
            assert(!formats_or_markdown(c.rules.options.formats).contains(OutputFormat::RawHtml));
            lemma_results_stripped(crawl_scraped(chosen, outcomes[0]), outcomes.drop_first());
        }
    }
}

/// A page that was scraped adds one result behind those before it. In every part but
/// the page itself it is the result of scraping, and in that too where it was asked for.
pub proof fn law_result_is_kept(c: CrawlView, r: ScrapeResultView)
    requires
        c.current is Some,
    ensures
        ({
            let after = crawl_scraped(c, Some(r)).results;
            let kept = after.last();
            &&& crawl_scraped(c, Some(r)).rules == c.rules
            &&& crawl_scraped(c, Some(r)).current is None
            &&& after.len() == c.results.len() + 1
            &&& forall|k: int| 0 <= k < c.results.len() ==> #[trigger] after[k] == c.results[k]
            &&& kept == (ScrapeResultView { raw_html: kept.raw_html, ..r })
            &&& kept.url == r.url
            &&& kept.title == r.title
            &&& kept.markdown == r.markdown
            &&& kept.html == r.html
            &&& kept.screenshot == r.screenshot
            &&& kept.links == r.links
            &&& kept.extract == r.extract
            &&& kept.json == r.json
            &&& kept.warning == r.warning
            &&& kept.metadata == r.metadata
            &&& c.rules.options.formats.contains(OutputFormat::RawHtml) ==> kept == r
            &&& !c.rules.options.formats.contains(OutputFormat::RawHtml) ==> kept.raw_html is None
        }),
{
}

/// A page that could not be scraped changes nothing but that it is no longer the
/// current one.
pub proof fn law_failed_page_is_left_out(c: CrawlView)
    ensures
        crawl_scraped(c, None).results == c.results,
        crawl_scraped(c, None).queue == c.queue,
        crawl_scraped(c, None).visited == c.visited,
        crawl_scraped(c, None).rules == c.rules,
        crawl_scraped(c, None).current is None,
{
}

/// The outcome is a page that was scraped.
spec fn is_scraped() -> spec_fn(Option<ScrapeResultView>) -> bool {
    |o: Option<ScrapeResultView>| o is Some
}

/// The results from some point of a crawl on are those of the pages that were scraped.
proof fn lemma_results(c: CrawlView, outcomes: Seq<Option<ScrapeResultView>>)
    ensures
        ({
            let n = scraped_pages(c, outcomes).len();
            let got = outcomes.take(n as int).filter(is_scraped());
            let results = crawl_end(c, outcomes).results;
            &&& n <= outcomes.len()
            &&& crawl_end(c, outcomes).rules == c.rules
            &&& results.len() == c.results.len() + got.len()
            &&& forall|k: int| 0 <= k < c.results.len() ==> #[trigger] results[k] == c.results[k]
            &&& forall|k: int|
                c.results.len() <= k < results.len() ==> {
                    let kept = #[trigger] results[k];
                    let r = got[k - c.results.len()];
                    &&& r is Some
                    &&& kept == (ScrapeResultView { raw_html: kept.raw_html, ..r->0 })
                    &&& c.rules.options.formats.contains(OutputFormat::RawHtml) ==> kept == r->0
                }
        }),
    decreases outcomes.len(),
{
    let n = scraped_pages(c, outcomes).len();
    let first = outcomes.take(n as int);
    let got = first.filter(is_scraped());
    reveal_with_fuel(Seq::filter, 2);
    if outcomes.len() > 0 && crawl_next(c).current is Some {
        let chosen = crawl_next(c);
        let rest = outcomes.drop_first();
        let after = crawl_scraped(chosen, outcomes[0]);
        lemma_results(after, rest);
        let m = scraped_pages(after, rest).len();
        let later = rest.take(m as int);
        assert(n == m + 1);
        assert(first =~= seq![outcomes[0]] + later);
        Seq::filter_distributes_over_add(seq![outcomes[0]], later, is_scraped());
        let head = seq![outcomes[0]].filter(is_scraped());
        assert(seq![outcomes[0]].drop_last() =~= Seq::empty());
        assert(seq![outcomes[0]].last() == outcomes[0]);
        assert(got == head + later.filter(is_scraped()));
        if let Some(r) = outcomes[0] {
            law_result_is_kept(chosen, r);
            assert(head =~= seq![outcomes[0]]);
        } else {
            assert(head =~= Seq::empty());
        }
        let results = crawl_end(c, outcomes).results;
        assert(results == crawl_end(after, rest).results);
        assert forall|k: int| 0 <= k < c.results.len() implies #[trigger] results[k]
            == c.results[k] by {
            assert(after.results[k] == c.results[k]);
        }
        assert forall|k: int| c.results.len() <= k < results.len() implies {
            let kept = #[trigger] results[k];
            let r = got[k - c.results.len()];
            &&& r is Some
            &&& kept == (ScrapeResultView { raw_html: kept.raw_html, ..r->0 })
            &&& c.rules.options.formats.contains(OutputFormat::RawHtml) ==> kept == r->0
        } by {
            if k < after.results.len() {
                assert(results[k] == after.results[k]);
                assert(got[0] == outcomes[0]);
            } else {
                assert(got[k - c.results.len()] == later.filter(is_scraped())[k
                    - after.results.len()]);
            }
        }
    } else {
        assert(first =~= Seq::empty());
        assert(got =~= Seq::empty());
    }
}

/// A crawl gives one result for each page that it scraped, in the order in which it
/// scraped them, and loses nothing of any but the page itself, and not that either
/// where it was asked for.
pub proof fn law_results_are_the_scraped_pages(
    rules: CrawlRules,
    root: Seq<char>,
    sitemap: Seq<Seq<char>>,
    outcomes: Seq<Option<ScrapeResultView>>,
)
    ensures
        ({
            let start = crawl_start(rules, root, sitemap);
            let got = outcomes.take(scraped_pages(start, outcomes).len() as int).filter(
                |o: Option<ScrapeResultView>| o is Some,
            );
            let results = crawl_end(start, outcomes).results;
            &&& results.len() == got.len()
            &&& forall|k: int|
                0 <= k < results.len() ==> {
                    let kept = #[trigger] results[k];
                    &&& got[k] is Some
                    &&& kept == (ScrapeResultView { raw_html: kept.raw_html, ..got[k]->0 })
                    &&& rules.options.formats.contains(OutputFormat::RawHtml) ==> kept == got[k]->0
                }
        }),
{
    let start = crawl_start(rules, root, sitemap);
    lemma_results(start, outcomes);
    assert(is_scraped() =~= (|o: Option<ScrapeResultView>| o is Some));
}

/// Links that are found together are put into the queue as if they were found one
/// after the other.
pub proof fn law_links_are_enqueued_in_order(
    visited: Seq<Seq<char>>,
    queue: Seq<(Seq<char>, u32)>,
    first: Seq<Seq<char>>,
    second: Seq<Seq<char>>,
    depth: u32,
)
    ensures
        ({
            let (v, q) = enqueued(visited, queue, first, depth);
            enqueued(visited, queue, first + second, depth) == enqueued(v, q, second, depth)
        }),
    decreases second.len(),
{
    if second.len() == 0 {
        assert(first + second =~= first);
    } else {
        law_links_are_enqueued_in_order(visited, queue, first, second.drop_last(), depth);
        assert((first + second).drop_last() =~= first + second.drop_last());
    }
}

/// No link is lost: each is visited afterwards, and each that was not visited before
/// waits in the queue.
pub proof fn law_every_link_is_enqueued(
    visited: Seq<Seq<char>>,
    queue: Seq<(Seq<char>, u32)>,
    links: Seq<Seq<char>>,
    depth: u32,
)
    ensures
        ({
            let (v, q) = enqueued(visited, queue, links, depth);
            &&& forall|k: int| 0 <= k < visited.len() ==> #[trigger] v[k] == visited[k]
            &&& forall|k: int| 0 <= k < queue.len() ==> #[trigger] q[k] == queue[k]
            &&& v.len() - visited.len() == q.len() - queue.len() >= 0
            &&& forall|k: int| 0 <= k < q.len() - queue.len() ==> #[trigger] q[queue.len() + k]
                == (v[visited.len() + k], depth)
            &&& forall|k: int| 0 <= k < links.len() ==> v.contains(#[trigger] links[k])
            &&& forall|k: int|
                0 <= k < links.len() && !visited.contains(links[k]) ==> q.contains(
                    (#[trigger] links[k], depth),
                )
        }),
    decreases links.len(),
{
    if links.len() > 0 {
        let rest = links.drop_last();
        law_every_link_is_enqueued(visited, queue, rest, depth);
        let (v, q) = enqueued(visited, queue, rest, depth);
        let (v2, q2) = enqueued(visited, queue, links, depth);
        let last = links.last();
        assert forall|k: int| 0 <= k < links.len() implies v2.contains(#[trigger] links[k])
            && (!visited.contains(links[k]) ==> q2.contains((links[k], depth))) by {
            if v.contains(last) {
                if k < rest.len() {
                    assert(rest[k] == links[k]);
                } else if !visited.contains(last) {
                    let m = choose|m: int| 0 <= m < v.len() && v[m] == last;
                    assert(m >= visited.len());
                    assert(q[queue.len() + (m - visited.len())] == (v[m], depth));
                }
            } else if k < rest.len() {
                assert(rest[k] == links[k]);
                let m = choose|m: int| 0 <= m < v.len() && v[m] == links[k];
                assert(v2[m] == links[k]);
                if !visited.contains(links[k]) {
                    let n = choose|n: int| 0 <= n < q.len() && q[n] == (links[k], depth);
                    assert(q2[n] == (links[k], depth));
                }
            } else {
                assert(v2[v.len() as int] == last);
                assert(q2[q.len() as int] == (last, depth));
            }
        }
    }
}

/// Where a crawl may go deeper, every link of a page that it scraped has its turn: it
/// was visited before, or waits in the queue, one deeper than the page.
pub proof fn law_every_link_is_followed(c: CrawlView, r: ScrapeResultView, link: Seq<char>)
    requires
        c.current matches Some((url, depth)) && depth < c.rules.max_depth && parsed_url(url) is Ok
            && (r.raw_html matches Some(raw) && page_links(raw, url).contains(link)),
    ensures
        crawl_scraped(c, Some(r)).visited.contains(link),
        c.visited.contains(link) || (c.current matches Some((_, depth)) && crawl_scraped(
            c,
            Some(r),
        ).queue.contains((link, (depth + 1) as u32))),
{
    let (url, depth) = c.current->0;
    let links = page_links(r.raw_html->0, url);
    law_every_link_is_enqueued(c.visited, c.queue, links, (depth + 1) as u32);
    let k = choose|k: int| 0 <= k < links.len() && links[k] == link;
    assert(links[k] == link);
}

/// Scraping a page puts nothing into the queue but links of that page, one deeper than
/// it, and nothing that was visited before; what waited stays in its place.
pub proof fn law_only_links_are_followed(c: CrawlView, r: ScrapeResultView, k: int)
    requires
        c.wf(),
        c.current is Some,
        0 <= k < crawl_scraped(c, Some(r)).queue.len(),
    ensures
        k < c.queue.len() ==> crawl_scraped(c, Some(r)).queue[k] == c.queue[k],
        k >= c.queue.len() ==> {
            let (link, at) = crawl_scraped(c, Some(r)).queue[k];
            &&& !c.visited.contains(link)
            &&& c.current matches Some((url, depth)) && at == depth + 1 && depth < c.rules.max_depth
                && (r.raw_html matches Some(raw) && page_links(raw, url).contains(link))
        },
{
    let (url, depth) = c.current->0;
    let links = followed_links(c.rules, url, depth, r);
    lemma_enqueued(c.visited, c.queue, links, (depth + 1) as u32);
    let q = crawl_scraped(c, Some(r)).queue;
    if k >= c.queue.len() {
        assert(links.contains(q[k].0));
    }
}

/// A page at the greatest depth adds nothing to the queue.
pub proof fn law_deepest_page_adds_no_link(c: CrawlView, r: ScrapeResultView)
    requires
        c.current matches Some((_, depth)) && depth >= c.rules.max_depth,
    ensures
        crawl_scraped(c, Some(r)).queue == c.queue,
        crawl_scraped(c, Some(r)).visited == c.visited,
{
}

/// A crawl that may go deeper than its root begins with every page of the sitemap in
/// its queue; one that may not begins with its root alone.
pub proof fn law_sitemap_is_crawled(rules: CrawlRules, root: Seq<char>, sitemap: Seq<Seq<char>>)
    ensures
        crawl_start(rules, root, sitemap).results.len() == 0,
        crawl_start(rules, root, sitemap).rules == rules,
        crawl_start(rules, root, sitemap).queue.len() > 0,
        crawl_start(rules, root, sitemap).queue[0] == (root, 0u32),
        rules.max_depth == 0 ==> crawl_start(rules, root, sitemap).queue.len() == 1,
        rules.max_depth >= 1 ==> forall|k: int|
            0 <= k < sitemap.len() ==> (#[trigger] sitemap[k]) == root || crawl_start(
                rules,
                root,
                sitemap,
            ).queue.contains((sitemap[k], 1u32)),
{
    lemma_start_wf(rules, root, sitemap);
    if rules.max_depth >= 1 {
        law_every_link_is_enqueued(seq![root], seq![(root, 0u32)], sitemap, 1);
        assert forall|k: int| 0 <= k < sitemap.len() implies (#[trigger] sitemap[k]) == root
            || crawl_start(rules, root, sitemap).queue.contains((sitemap[k], 1u32)) by {
            if seq![root].contains(sitemap[k]) {
                assert(sitemap[k] == root);
            }
        }
    }
}

/// Choosing the next page passes over no page that is admitted: as long as there may
/// be more results, each one that waited is the current page or waits still, in the
/// same order, and there is a current page where any of them is admitted.
pub proof fn law_no_admitted_page_is_passed_over(c: CrawlView, k: int)
    requires
        c.results.len() < c.rules.limit,
        0 <= k < c.queue.len(),
        admitted(c.rules, c.queue[k].0),
    ensures
        crawl_next(c).current is Some,
        crawl_next(c).current == Some(c.queue[k]) || crawl_next(c).queue.contains(c.queue[k]),
        crawl_next(c).queue.len() < c.queue.len(),
        crawl_next(c).queue == c.queue.skip(c.queue.len() - crawl_next(c).queue.len()),
        crawl_next(c).current == Some(c.queue[c.queue.len() - crawl_next(c).queue.len() - 1]),
        forall|i: int|
            0 <= i < c.queue.len() - crawl_next(c).queue.len() - 1 ==> !admitted(
                c.rules,
                (#[trigger] c.queue[i]).0,
            ),
        crawl_next(c).results == c.results,
        crawl_next(c).visited == c.visited,
        crawl_next(c).rules == c.rules,
    decreases c.queue.len(),
{
    let d = crawl_next(c);
    if !admitted(c.rules, c.queue[0].0) {
        let tail = CrawlView { queue: c.queue.drop_first(), ..c };
        assert(tail.queue[k - 1] == c.queue[k]);
        law_no_admitted_page_is_passed_over(tail, k - 1);
        assert(crawl_next(tail) == d);
        let n = c.queue.len() - d.queue.len();
        assert(tail.queue.skip(n - 1) =~= c.queue.skip(n));
        assert forall|i: int| 0 <= i < n - 1 implies !admitted(
            c.rules,
            (#[trigger] c.queue[i]).0,
        ) by {
            if i > 0 {
                assert(tail.queue[i - 1] == c.queue[i]);
            }
        }
    } else {
        assert(d.queue =~= c.queue.skip(1));
        if k > 0 {
            assert(d.queue[k - 1] == c.queue[k]);
        }
    }
}

/// A crawl that has as many results as it may has no further page.
pub proof fn law_crawl_stops_at_limit(c: CrawlView)
    requires
        c.results.len() >= c.rules.limit,
    ensures
        crawl_next(c).current is None,
        crawl_next(c).results == c.results,
{
}

/// From some point of a crawl on, every admitted page that was visited, if it was
/// scraped or waited at that point, is scraped or waits at the end.
proof fn lemma_no_page_is_lost(
    c: CrawlView,
    done: Seq<Seq<char>>,
    outcomes: Seq<Option<ScrapeResultView>>,
    u: Seq<char>,
)
    requires
        c.current is None,
        forall|w: Seq<char>| #[trigger]
            c.visited.contains(w) && admitted(c.rules, w) ==> done.contains(w) || urls_of(
                c.queue,
            ).contains(w),
        crawl_end(c, outcomes).visited.contains(u),
        admitted(c.rules, u),
    ensures
        done.contains(u) || urls_of(scraped_pages(c, outcomes)).contains(u) || urls_of(
            crawl_end(c, outcomes).queue,
        ).contains(u),
    decreases outcomes.len(),
{
    if outcomes.len() > 0 {
        let chosen = crawl_next(c);
        if let Some(e) = chosen.current {
            let after = crawl_scraped(chosen, outcomes[0]);
            let rest = outcomes.drop_first();
            let more = done.push(e.0);
            assert forall|w: Seq<char>| #[trigger]
                after.visited.contains(w) && admitted(c.rules, w) implies more.contains(w)
                || urls_of(after.queue).contains(w) by {
                lemma_step_keeps(c, done, outcomes[0], w, e.0);
            }
            lemma_no_page_is_lost(after, more, rest, u);
            let pages = scraped_pages(c, outcomes);
            let later = scraped_pages(after, rest);
            assert(pages =~= seq![e] + later);
            if more.contains(u) && !done.contains(u) {
                assert(u == e.0);
                assert(urls_of(pages)[0] == u);
            }
            if urls_of(later).contains(u) {
                let m = choose|m: int| 0 <= m < urls_of(later).len() && urls_of(later)[m] == u;
                assert(urls_of(pages)[m + 1] == u);
            }
        } else {
            if !done.contains(u) {
                lemma_kept_or_current(c, u);
            }
        }
    }
}

/// Choosing the next page loses no admitted page of the queue.
proof fn lemma_kept_or_current(c: CrawlView, w: Seq<char>)
    requires
        urls_of(c.queue).contains(w),
        admitted(c.rules, w),
    ensures
        (crawl_next(c).current matches Some(e) && e.0 == w) || urls_of(crawl_next(c).queue).contains(
            w,
        ),
{
    let k = choose|k: int| 0 <= k < urls_of(c.queue).len() && urls_of(c.queue)[k] == w;
    assert(c.queue[k].0 == w);
    if c.results.len() < c.rules.limit {
        law_no_admitted_page_is_passed_over(c, k);
        let d = crawl_next(c);
        if d.queue.contains(c.queue[k]) {
            let m = choose|m: int| 0 <= m < d.queue.len() && d.queue[m] == c.queue[k];
            assert(urls_of(d.queue)[m] == w);
        }
    }
}

/// One step of a crawl loses no admitted page.
proof fn lemma_step_keeps(
    c: CrawlView,
    done: Seq<Seq<char>>,
    outcome: Option<ScrapeResultView>,
    w: Seq<char>,
    url: Seq<char>,
)
    requires
        crawl_next(c).current matches Some(e) && e.0 == url,
        forall|w: Seq<char>| #[trigger]
            c.visited.contains(w) && admitted(c.rules, w) ==> done.contains(w) || urls_of(
                c.queue,
            ).contains(w),
        crawl_scraped(crawl_next(c), outcome).visited.contains(w),
        admitted(c.rules, w),
    ensures
        done.push(url).contains(w) || urls_of(
            crawl_scraped(crawl_next(c), outcome).queue,
        ).contains(w),
{
    let chosen = crawl_next(c);
    let depth = (chosen.current->0).1;
    let after = crawl_scraped(chosen, outcome);
    let more = done.push(url);
    assert(more[done.len() as int] == url);
    if let Some(r) = outcome {
        let links = followed_links(c.rules, url, depth, r);
        law_every_link_is_enqueued(chosen.visited, chosen.queue, links, (depth + 1) as u32);
    }
    assert forall|m: int| 0 <= m < chosen.queue.len() implies #[trigger] urls_of(after.queue)[m]
        == chosen.queue[m].0 by {
        assert(after.queue[m] == chosen.queue[m]);
    }
    if c.visited.contains(w) {
        if done.contains(w) {
            let m = choose|m: int| 0 <= m < done.len() && done[m] == w;
            assert(more[m] == w);
        } else {
            lemma_kept_or_current(c, w);
            if urls_of(chosen.queue).contains(w) {
                let m = choose|m: int|
                    0 <= m < urls_of(chosen.queue).len() && urls_of(chosen.queue)[m] == w;
                assert(urls_of(after.queue)[m] == w);
            }
        }
    } else {
        let m = choose|m: int| 0 <= m < after.visited.len() && after.visited[m] == w;
        let n = m - chosen.visited.len();
        if n < 0 {
            assert(after.visited[m] == chosen.visited[m]);
        }
        assert(after.queue[chosen.queue.len() + n].0 == w);
        assert(urls_of(after.queue)[chosen.queue.len() + n] == w);
    }
}

/// A crawl leaves out no page: of all that it came to know, the root, the pages of the
/// sitemap and the links that it followed, each that is admitted was scraped or still
/// waits in the queue.
pub proof fn law_no_page_is_lost(
    rules: CrawlRules,
    root: Seq<char>,
    sitemap: Seq<Seq<char>>,
    outcomes: Seq<Option<ScrapeResultView>>,
    u: Seq<char>,
)
    requires
        admitted(rules, u),
        crawl_end(crawl_start(rules, root, sitemap), outcomes).visited.contains(u),
    ensures
        urls_of(scraped_pages(crawl_start(rules, root, sitemap), outcomes)).contains(u) || urls_of(
            crawl_end(crawl_start(rules, root, sitemap), outcomes).queue,
        ).contains(u),
{
    let start = crawl_start(rules, root, sitemap);
    let seeds = if rules.max_depth >= 1 {
        sitemap
    } else {
        Seq::empty()
    };
    law_every_link_is_enqueued(seq![root], seq![(root, 0u32)], seeds, 1);
    assert forall|w: Seq<char>| #[trigger] start.visited.contains(w) implies urls_of(
        start.queue,
    ).contains(w) by {
        let m = choose|m: int| 0 <= m < start.visited.len() && start.visited[m] == w;
        if m == 0 {
            assert(start.visited[0] == seq![root][0]);
            assert(start.queue[0] == seq![(root, 0u32)][0]);
        } else {
            assert(start.queue[1 + (m - 1)] == (start.visited[1 + (m - 1)], 1u32));
        }
        assert(urls_of(start.queue)[m] == w);
    }
    lemma_no_page_is_lost(start, Seq::empty(), outcomes, u);
}

/// A page is scraped in every format that was asked for, Markdown where none was, and
/// as it is where its links are to be followed; in no other format. All else that was
/// asked for goes into the job.
pub proof fn law_job_asks_for_what_was_asked(rules: CrawlRules, url: Seq<char>, depth: u32)
    ensures
        ({
            let job = crawl_job(rules, url, depth);
            &&& job.url == url
            &&& forall|f: OutputFormat| #[trigger]
                rules.options.formats.contains(f) ==> job.formats.contains(f)
            &&& rules.options.formats.len() == 0 ==> job.formats.contains(OutputFormat::Markdown)
            &&& depth < rules.max_depth ==> job.formats.contains(OutputFormat::RawHtml)
            &&& forall|f: OutputFormat| #[trigger]
                job.formats.contains(f) ==> rules.options.formats.contains(f) || f
                    == OutputFormat::Markdown && rules.options.formats.len() == 0 || f
                    == OutputFormat::RawHtml && depth < rules.max_depth
            &&& job.only_main_content == rules.options.only_main_content
            &&& job.include_tags == rules.options.include_tags
            &&& job.exclude_tags == rules.options.exclude_tags
            &&& job.headers == rules.options.headers
            &&& job.wait_for == rules.options.wait_for
            &&& job.mobile == rules.options.mobile
            &&& job.timeout == rules.options.timeout
            &&& job.actions == rules.options.actions
            &&& job.location == rules.options.location
            &&& job.extract is None
            &&& job.webhook is None
        }),
{
    let asked = rules.options.formats;
    let formats = formats_or_markdown(asked);
    let job = crawl_job(rules, url, depth);
    assert(seq![OutputFormat::Markdown][0] == OutputFormat::Markdown);
    assert forall|f: OutputFormat| formats.contains(f) implies #[trigger] job.formats.contains(
        f,
    ) by {
        let k = choose|k: int| 0 <= k < formats.len() && formats[k] == f;
        assert(job.formats[k] == f);
    }
    assert forall|f: OutputFormat| #[trigger] asked.contains(f) implies formats.contains(f) by {}
    if depth < rules.max_depth && !formats.contains(OutputFormat::RawHtml) {
        assert(job.formats[formats.len() as int] == OutputFormat::RawHtml);
    }
    assert forall|f: OutputFormat| #[trigger] job.formats.contains(f) implies asked.contains(f) || f
        == OutputFormat::Markdown && asked.len() == 0 || f == OutputFormat::RawHtml && depth
        < rules.max_depth by {
        let k = choose|k: int| 0 <= k < job.formats.len() && job.formats[k] == f;
        if k < formats.len() {
            assert(formats[k] == f);
        }
    }
}

/// Where a path to keep off stands in a URL, it is not admitted, whatever else holds
/// of it.
pub proof fn law_excluded_path_is_kept_off(
    rules: CrawlRules,
    before: Seq<char>,
    after: Seq<char>,
    k: int,
)
    requires
        0 <= k < rules.exclude_paths.len(),
    ensures
        !admitted(rules, before + rules.exclude_paths[k] + after),
{
    law_text_contains_its_middle(before, rules.exclude_paths[k], after);
}

/// Where a path to go to stands in a URL, and there is nothing to keep off, it is
/// admitted, on its own site or where other sites are allowed.
pub proof fn law_included_path_is_admitted(
    rules: CrawlRules,
    before: Seq<char>,
    after: Seq<char>,
    k: int,
)
    requires
        0 <= k < rules.include_paths.len(),
        rules.exclude_paths.len() == 0,
        rules.allow_external_links || (parsed_url(before + rules.include_paths[k] + after)
            matches Ok(u) ==> u.host_text() == rules.base_host),
    ensures
        admitted(rules, before + rules.include_paths[k] + after),
{
    law_text_contains_its_middle(before, rules.include_paths[k], after);
}

/// Without paths to go to or to keep off, a URL is admitted just where it is on the
/// site, other sites are allowed, or it is no URL.
pub proof fn law_site_is_admitted(rules: CrawlRules, url: Seq<char>)
    requires
        rules.include_paths.len() == 0,
        rules.exclude_paths.len() == 0,
    ensures
        admitted(rules, url) == (rules.allow_external_links || (parsed_url(url) matches Ok(u)
            ==> u.host_text() == rules.base_host)),
{
}

/// Where there are paths to go to, a URL in which none of them stands is not admitted.
pub proof fn law_other_paths_are_not_admitted(rules: CrawlRules, url: Seq<char>)
    requires
        rules.include_paths.len() > 0,
        forall|k: int|
            0 <= k < rules.include_paths.len() ==> !contains(url, #[trigger] rules.include_paths[k]),
    ensures
        !admitted(rules, url),
{
}

// ---------------------------------------------------------------------------
// Running a crawl
// ---------------------------------------------------------------------------

/// Whether some member of `paths` stands in `url`.
fn matches_some_of(url: &str, paths: &Vec<String>) -> (r: bool)
    ensures
        r == matches_some(url@, views(paths@)),
{
    let mut i: usize = 0;
    while i < paths.len()
        invariant
            i <= paths@.len(),
            forall|j: int| 0 <= j < i ==> !contains(url@, #[trigger] views(paths@)[j]),
        decreases paths@.len() - i,
    {
        assert(views(paths@)[i as int] == paths@[i as int]@);
        if text_contains(url, paths[i].as_str()) {
            return true;
        }
        i = i + 1;
    }
    false
}

/// Puts the links that were never in the queue at its end.
fn enqueue(
    visited: &mut Vec<String>,
    queue: &mut VecDeque<(String, u32)>,
    links: &Vec<String>,
    depth: u32,
)
    ensures
        (views(final(visited)@), queue_view(final(queue)@)) == enqueued(
            views(old(visited)@),
            queue_view(old(queue)@),
            views(links@),
            depth,
        ),
{
    let ghost all = views(links@);
    let mut i: usize = 0;
    assert(all.take(0).len() == 0);
    while i < links.len()
        invariant
            i <= links@.len(),
            all == views(links@),
            (views(visited@), queue_view(queue@)) == enqueued(
                views(old(visited)@),
                queue_view(old(queue)@),
                all.take(i as int),
                depth,
            ),
        decreases links@.len() - i,
    {
        let ghost v = visited@;
        let ghost q = queue@;
        assert(all.take(i + 1).drop_last() =~= all.take(i as int));
        assert(all.take(i + 1).last() == links@[i as int]@);
        if !holds_text(visited, links[i].as_str()) {
            visited.push(links[i].clone());
            queue.push_back((links[i].clone(), depth));
            assert(views(visited@) =~= views(v).push(links@[i as int]@));
            assert(queue_view(queue@) =~= queue_view(q).push((links@[i as int]@, depth)));
        }
        i = i + 1;
    }
    assert(all.take(all.len() as int) =~= all);
}

impl CrawlParams {
    /// The pages of the sitemap are crawled too.
    pub open spec fn seeded(self) -> bool {
        !self.ignore_sitemap && self.max_depth >= 1
    }

    /// Whether the sitemap of the site is to be looked at: where it is not to be ignored,
    /// and the crawl may go to its pages, which are one deep.
    pub fn reads_sitemap(&self) -> (r: bool)
        ensures
            r == self.seeded(),
            r <==> !self.ignore_sitemap && self.max_depth >= 1,
    {
        !self.ignore_sitemap && self.max_depth >= 1
    }
}

impl Crawl {
    /// Begins a crawl at its root, with the pages of the sitemap of the site behind it,
    /// where that is to be looked at. A root that is no URL is an error.
    pub fn start(params: CrawlParams, sitemap_urls: &Vec<String>) -> (r: Result<Crawl, AppError>)
        ensures
            match parsed_url(params.root_url@) {
                Ok(url) => {
                    &&& r matches Ok(c)
                    &&& c@ == crawl_start(
                        rules_of(params, url.host_text()),
                        params.root_url@,
                        if params.ignore_sitemap {
                            Seq::empty()
                        } else {
                            views(sitemap_urls@)
                        },
                    )
                    &&& c@.wf()
                    &&& c.params == params
                    &&& c.base_host@ == url.host_text()
                    &&& c@.rules.max_depth == params.max_depth
                    &&& c@.rules.limit == params.limit
                    &&& c@.rules.options == params.scrape_options@
                    &&& c@.rules.allow_external_links == params.allow_external_links
                    &&& c@.rules.include_paths == views(params.include_paths@)
                    &&& c@.rules.exclude_paths == views(params.exclude_paths@)
                    &&& c@.rules.base_host == url.host_text()
                },
                Err(e) => r matches Err(x) && x@ == AppErrorView::InvalidUrl(e),
            },
    {
        let base = match parse_url(params.root_url.as_str()) {
            Ok(u) => u,
            Err(e) => {
                return Err(AppError::InvalidUrl(e));
            },
        };
        let base_host = base.host_text();
        let mut visited: Vec<String> = vec![params.root_url.clone()];
        let mut queue: VecDeque<(String, u32)> = VecDeque::new();
        queue.push_back((params.root_url.clone(), 0));
        assert(views(visited@) =~= seq![params.root_url@]);
        assert(queue_view(queue@) =~= seq![(params.root_url@, 0u32)]);
        let ghost seeds: Seq<Seq<char>> = if params.ignore_sitemap {
            Seq::empty()
        } else {
            views(sitemap_urls@)
        };
        if params.reads_sitemap() {
            enqueue(&mut visited, &mut queue, sitemap_urls, 1);
        }
        proof {
            lemma_start_wf(rules_of(params, base_host@), params.root_url@, seeds);
        }
        let results: Vec<ScrapeResult> = Vec::new();
        assert(result_views(results@) =~= Seq::empty());
        Ok(Crawl { params, base_host, visited, queue, results, current: None })
    }

    /// Whether the crawl scrapes the URL.
    fn admits(&self, url: &str) -> (r: bool)
        ensures
            r == admitted(self@.rules, url@),
    {
        if self.params.include_paths.len() > 0 && !matches_some_of(
            url,
            &self.params.include_paths,
        ) {
            return false;
        }
        if matches_some_of(url, &self.params.exclude_paths) {
            return false;
        }
        if self.params.allow_external_links {
            return true;
        }
        match parse_url(url) {
            Ok(u) => {
                let host = u.host_text();
                same_text(host.as_str(), self.base_host.as_str())
            },
            Err(_) => true,
        }
    }

    /// Chooses the next page, and gives the job that scrapes it; `None` where the
    /// crawl is over.
    pub fn next_job(&mut self) -> (r: Option<ScrapeJobData>)
        requires
            old(self)@.wf(),
        ensures
            final(self)@ == crawl_next(old(self)@),
            final(self)@.wf(),
            final(self).params == old(self).params,
            final(self).base_host == old(self).base_host,
            final(self).results == old(self).results,
            match final(self)@.current {
                Some((url, depth)) => r matches Some(job) && job@ == crawl_job(
                    old(self)@.rules,
                    url,
                    depth,
                ),
                None => r is None,
            },
    {
        proof {
            lemma_next_wf(self@);
        }
        self.current = None;
        if self.results.len() >= self.params.limit as usize {
            return None;
        }
        while self.queue.len() > 0
            invariant
                self.params == old(self).params,
                self.base_host == old(self).base_host,
                self.visited == old(self).visited,
                self.results == old(self).results,
                self.current is None,
                old(self)@.results.len() < old(self)@.rules.limit,
                crawl_next(old(self)@).wf(),
                first_admitted(self@.rules, self@.queue) == first_admitted(
                    old(self)@.rules,
                    old(self)@.queue,
                ),
            decreases self.queue@.len(),
        {
            let ghost before = self@.queue;
            let (url, depth) = match self.queue.pop_front() {
                Some(e) => e,
                None => {
                    return None;
                },
            };
            assert(self@.queue =~= before.drop_first());
            assert(before[0] == (url@, depth));
            if self.admits(url.as_str()) {
                let mut formats = requested_formats(&self.params.scrape_options.formats);
                if depth < self.params.max_depth && !holds_format(&formats, OutputFormat::RawHtml) {
                    formats.push(OutputFormat::RawHtml);
                }
                let job = page_job_of(&url, formats, &self.params.scrape_options);
                self.current = Some((url, depth));
                return Some(job);
            }
        }
        assert(self@.queue.len() == 0);
        None
    }

    /// Takes the result of the current page; `None` where it could not be scraped,
    /// and is left out.
    pub fn page_scraped(&mut self, result: Option<ScrapeResult>)
        requires
            old(self)@.wf(),
        ensures
            final(self)@ == crawl_scraped(old(self)@, opt_result_view(result)),
            final(self)@.wf(),
            final(self).params == old(self).params,
            final(self).base_host == old(self).base_host,
            match (old(self).current, result) {
                (Some(_), Some(r)) => {
                    let page = final(self).results@.last();
                    &&& final(self).results@.drop_last() == old(self).results@
                    &&& page == (ScrapeResult { raw_html: page.raw_html, ..r })
                    &&& old(self).params.scrape_options.formats@.contains(OutputFormat::RawHtml)
                        ==> page == r
                },
                _ => final(self).results == old(self).results,
            },
            match (old(self).current, result) {
                (Some(_), Some(r)) => {
                    let kept = final(self)@.results.last();
                    &&& final(self)@.results.len() == old(self)@.results.len() + 1
                    &&& final(self)@.results.drop_last() == old(self)@.results
                    &&& kept == (ScrapeResultView { raw_html: kept.raw_html, ..r@ })
                    &&& kept.raw_html == (if old(
                        self,
                    ).params.scrape_options.formats@.contains(OutputFormat::RawHtml) {
                        r@.raw_html
                    } else {
                        None
                    })
                },
                _ => final(self)@.results == old(self)@.results,
            },
    {
        let ghost outcome = opt_result_view(result);
        proof {
            lemma_scraped_wf(self@, outcome);
        }
        let current = self.current.take();
        let (url, depth) = match current {
            Some(e) => e,
            None => {
                return;
            },
        };
        let mut result = match result {
            Some(r) => r,
            None => {
                return;
            },
        };
        let ghost links = followed_links(self@.rules, url@, depth, outcome->0);
        let ghost next = (depth + 1) as u32;
        let mut followed = false;
        if depth < self.params.max_depth {
            if let Some(raw) = &result.raw_html {
                if let Ok(parsed) = parse_url(url.as_str()) {
                    let found = extract_links(raw.as_str(), &parsed);
                    enqueue(&mut self.visited, &mut self.queue, &found, depth + 1);
                    followed = true;
                }
            }
        }
        assert(!followed ==> links.len() == 0);
        let formats = requested_formats(&self.params.scrape_options.formats);
        if !holds_format(&formats, OutputFormat::RawHtml) {
            result.raw_html = None;
        }
        let ghost before = self.results@;
        self.results.push(result);
        assert(result_views(self.results@) =~= result_views(before).push(result@));
        assert(result@ == kept_result(self@.rules, outcome->0));
    }

    /// The results of the crawl.
    pub fn into_results(self) -> (r: Vec<ScrapeResult>)
        ensures
            result_views(r@) == self@.results,
    {
        self.results
    }
}

} // verus!
