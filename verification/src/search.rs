//! Searching the web: what the search engine is asked, what is read of its answers,
//! and what is shown of the pages it found.

use crate::config::SearchConfig;
use crate::html::{attrs_seq_view, first_n, select_attrs, selected_attrs};
use crate::json::{json_views, lemma_array_view, parse_json, read_json, text_of, Json, JsonView};
use crate::llm::{law_ranking, matches_of, rank_by_relevance, ranked};
use crate::models::{
    formats_clone, AppError, AppErrorView, OutputFormat, ScrapeJobData, ScrapeJobView,
    ScrapeOptionsView, ScrapeResult, SearchRequest, SearchResponse, SearchResponseData,
    SearchWebResult, SearchWebView,
};
use crate::text::{
    chars_of, decimal, decimal_text, find, find_chars, first_nonblank_line, first_nonblank_line_of,
    law_text_contains_its_middle, lemma_filter_map_add, lemma_find_from, lemma_find_is, occurs_at,
    opt_view, prefix, prefix_text, starts_with, string_from, strings_clone, strip_prefix_text,
    text_starts_with, views,
};
use crate::weburl::{url_decode, url_decoded, url_encode, url_encoded};
use vstd::prelude::*;

verus! {

// ---------------------------------------------------------------------------
// SearXNG
// ---------------------------------------------------------------------------

/// A parameter of a URL, where there is a value for it.
pub open spec fn url_param(name: Seq<char>, value: Option<Seq<char>>) -> Seq<char> {
    match value {
        Some(v) => "&"@ + name + "="@ + url_encoded(v),
        None => Seq::empty(),
    }
}

/// The URL that asks SearXNG.
pub open spec fn searxng_url(
    endpoint: Seq<char>,
    query: Seq<char>,
    engines: Option<Seq<char>>,
    categories: Option<Seq<char>>,
    lang: Option<Seq<char>>,
    country: Option<Seq<char>>,
) -> Seq<char> {
    endpoint + "/search?q="@ + url_encoded(query) + "&format=json"@ + url_param(
        "engines"@,
        engines,
    ) + url_param("categories"@, categories) + url_param("language"@, lang) + url_param(
        "region"@,
        country,
    )
}

fn url_param_of(name: &str, value: &Option<String>) -> (r: String)
    ensures
        r@ == url_param(name@, opt_view(*value)),
{
    match value {
        Some(v) => {
            let encoded = url_encode(v.as_str());
            "&".to_owned().concat(name).concat("=").concat(encoded.as_str())
        },
        None => String::new(),
    }
}

/// The URL that asks SearXNG at `endpoint`.
pub fn searxng_url_of(
    endpoint: &str,
    query: &str,
    config: &SearchConfig,
    lang: &Option<String>,
    country: &Option<String>,
) -> (r: String)
    ensures
        r@ == searxng_url(
            endpoint@,
            query@,
            opt_view(config.searxng_engines),
            opt_view(config.searxng_categories),
            opt_view(*lang),
            opt_view(*country),
        ),
{
    let encoded = url_encode(query);
    let head = endpoint.to_owned().concat("/search?q=").concat(encoded.as_str()).concat(
        "&format=json",
    );
    let engines = url_param_of("engines", &config.searxng_engines);
    let categories = url_param_of("categories", &config.searxng_categories);
    let language = url_param_of("language", lang);
    let region = url_param_of("region", country);
    head.concat(engines.as_str()).concat(categories.as_str()).concat(language.as_str()).concat(
        region.as_str(),
    )
}

/// The URLs of the results of SearXNG; a result without one is passed over.
pub open spec fn result_urls(items: Seq<JsonView>) -> Seq<Seq<char>>
    decreases items.len(),
{
    if items.len() == 0 {
        Seq::empty()
    } else {
        let before = result_urls(items.drop_last());
        match items.last().get("url"@) {
            Some(JsonView::Text(u)) => before.push(u),
            _ => before,
        }
    }
}

/// The results in an answer of SearXNG.
pub open spec fn results_in(body: JsonView) -> Seq<JsonView> {
    match body.get("results"@) {
        Some(r) => r.items(),
        None => Seq::empty(),
    }
}

/// The first `limit` URLs in an answer of SearXNG.
pub fn searxng_urls(body: &Json, limit: u32) -> (r: Vec<String>)
    ensures
        views(r@) == first_n(result_urls(results_in(body@)), limit as nat),
        ({
            let found = results_in(body@).filter_map(|item: JsonView| url_of_result(item));
            &&& r@.len() == (if found.len() <= limit {
                found.len()
            } else {
                limit as nat
            })
            &&& forall|k: int| 0 <= k < r@.len() ==> (#[trigger] r@[k])@ == found[k]
        }),
{
    proof {
        law_result_urls(results_in(body@));
    }
    let mut urls: Vec<String> = Vec::new();
    assert(views(urls@) =~= result_urls(Seq::empty()));
    if let Some(Json::Array(items)) = body.get("results") {
        proof {
            lemma_array_view(*items);
        }
        let ghost all = json_views(items@);
        let mut i: usize = 0;
        assert(all.take(0) =~= Seq::empty());
        while i < items.len()
            invariant
                i <= items@.len(),
                all == json_views(items@),
                views(urls@) == result_urls(all.take(i as int)),
            decreases items@.len() - i,
        {
            let ghost before = urls@;
            assert(all.take(i + 1).drop_last() =~= all.take(i as int));
            assert(all.take(i + 1).last() == items@[i as int]@);
            if let Some(url) = text_of(items[i].get("url")) {
                urls.push(url);
                assert(views(urls@) =~= views(before).push(url@));
            }
            i = i + 1;
        }
        assert(all.take(all.len() as int) =~= all);
    }
    let ghost found = views(urls@);
    if urls.len() > limit as usize {
        urls.truncate(limit as usize);
    }
    assert(views(urls@) =~= first_n(found, limit as nat));
    assert forall|k: int| 0 <= k < urls@.len() implies (#[trigger] urls@[k])@ == found[k] by {
        assert(views(urls@)[k] == urls@[k]@);
    }
    urls
}

/// The first `limit` URLs in the text of an answer of SearXNG; a text that is no JSON is
/// an error.
pub fn searxng_search(body: &str, limit: u32) -> (r: Result<Vec<String>, AppError>)
    ensures
        match read_json(body@) {
            Ok(j) => r matches Ok(urls) && views(urls@) == first_n(
                result_urls(results_in(j)),
                limit as nat,
            ),
            Err(e) => r matches Err(x) && x@ == AppErrorView::Scraper(
                "SearXNG response parse failed: "@ + e,
            ),
        },
{
    match parse_json(body) {
        Ok(j) => Ok(searxng_urls(&j, limit)),
        Err(e) => Err(
            AppError::Scraper("SearXNG response parse failed: ".to_owned().concat(e.as_str())),
        ),
    }
}

// ---------------------------------------------------------------------------
// Google
// ---------------------------------------------------------------------------

/// The URL that asks Google for at most ten results.
pub open spec fn google_url(query: Seq<char>, limit: u32) -> Seq<char> {
    "https://www.google.com/search?q="@ + url_encoded(query) + "&num="@ + decimal(
        if limit <= 10 {
            limit as nat
        } else {
            10
        },
    )
}

/// The URL that asks Google for at most ten results.
pub fn google_url_of(query: &str, limit: u32) -> (r: String)
    ensures
        r@ == google_url(query@, limit),
{
    let encoded = url_encode(query);
    let n: u64 = if limit <= 10 {
        limit as u64
    } else {
        10
    };
    let num = decimal_text(n);
    "https://www.google.com/search?q=".to_owned().concat(encoded.as_str()).concat("&num=").concat(
        num.as_str(),
    )
}

/// The encoded URL that a link of a page of Google leads to: what stands between
/// `/url?q=` and the next ampersand.
pub open spec fn google_target(href: Option<Seq<char>>) -> Option<Seq<char>> {
    match href {
        Some(h) => if starts_with(h, "/url?q="@) {
            let rest = h.skip("/url?q="@.len() as int);
            match find(rest, seq!['&']) {
                Some(end) => Some(rest.take(end)),
                None => None,
            }
        } else {
            None
        },
        None => None,
    }
}

/// The encoded URL that a link of a page of Google leads to.
pub fn google_target_of(href: &Option<String>) -> (r: Option<String>)
    ensures
        opt_view(r) == google_target(opt_view(*href)),
{
    let h = match href {
        Some(h) => h,
        None => {
            return None;
        },
    };
    let rest = match strip_prefix_text(h.as_str(), "/url?q=") {
        Some(rest) => rest,
        None => {
            return None;
        },
    };
    let v = chars_of(rest.as_str());
    let mut pattern: Vec<char> = Vec::new();
    pattern.push('&');
    assert(pattern@ =~= seq!['&']);
    match find_chars(&v, &pattern, 0) {
        Some(end) => {
            assert(v@.subrange(0, end as int) =~= v@.take(end as int));
            Some(string_from(&v, 0, end))
        },
        None => None,
    }
}

/// A decoded text, if it begins like a URL of the web.
pub open spec fn web_target(decoded: Option<Seq<char>>) -> Option<Seq<char>> {
    match decoded {
        Some(d) => if starts_with(d, "http"@) {
            Some(d)
        } else {
            None
        },
        None => None,
    }
}

/// A decoded text, if it begins like a URL of the web.
pub fn web_target_of(decoded: Option<String>) -> (r: Option<String>)
    ensures
        opt_view(r) == web_target(opt_view(decoded)),
{
    match decoded {
        Some(d) => if text_starts_with(d.as_str(), "http") {
            Some(d)
        } else {
            None
        },
        None => None,
    }
}

/// The page of the web that a link of a page of Google leads to.
pub open spec fn google_link(href: Option<Seq<char>>) -> Option<Seq<char>> {
    match google_target(href) {
        Some(raw) => web_target(url_decoded(raw)),
        None => None,
    }
}

/// The pages that links of Google lead to, behind those of `found`, until there are
/// `limit` of them.
pub open spec fn google_links(
    hrefs: Seq<Option<Seq<char>>>,
    found: Seq<Seq<char>>,
    limit: nat,
) -> Seq<Seq<char>>
    decreases hrefs.len(),
{
    if hrefs.len() == 0 {
        found
    } else {
        match google_link(hrefs[0]) {
            Some(u) => if found.len() + 1 >= limit {
                found.push(u)
            } else {
                google_links(hrefs.drop_first(), found.push(u), limit)
            },
            None => google_links(hrefs.drop_first(), found, limit),
        }
    }
}

/// The pages that the links of a page of Google lead to.
pub fn google_links_of(hrefs: &Vec<Option<String>>, limit: u32) -> (r: Vec<String>)
    ensures
        views(r@) == google_links(attrs_seq_view(hrefs@), Seq::empty(), limit as nat),
{
    let ghost all = attrs_seq_view(hrefs@);
    let ghost target = google_links(all, Seq::empty(), limit as nat);
    let mut urls: Vec<String> = Vec::new();
    let mut i: usize = 0;
    assert(all.skip(0) =~= all);
    assert(views(urls@) =~= Seq::empty());
    while i < hrefs.len()
        invariant
            i <= hrefs@.len(),
            all == attrs_seq_view(hrefs@),
            target == google_links(all, Seq::empty(), limit as nat),
            google_links(all.skip(i as int), views(urls@), limit as nat) == target,
        decreases hrefs@.len() - i,
    {
        let ghost before = urls@;
        assert(all.skip(i as int)[0] == opt_view(hrefs@[i as int]));
        assert(all.skip(i as int).drop_first() =~= all.skip(i + 1));
        if let Some(raw) = google_target_of(&hrefs[i]) {
            let decoded = url_decode(raw.as_str());
            if let Some(u) = web_target_of(decoded) {
                urls.push(u);
                assert(views(urls@) =~= views(before).push(u@));
                if urls.len() >= limit as usize {
                    return urls;
                }
            }
        }
        i = i + 1;
    }
    urls
}

/// The pages that the links of a page of Google lead to; where its links cannot be
/// selected, that is an error.
pub fn google_search(html: &str, limit: u32) -> (r: Result<Vec<String>, AppError>)
    ensures
        match selected_attrs(html@, "a[href]"@, "href"@) {
            Some(hrefs) => r matches Ok(urls) && views(urls@) == google_links(
                hrefs,
                Seq::empty(),
                limit as nat,
            ),
            None => r matches Err(x) && x@ == AppErrorView::Scraper(
                "Failed to parse link selector"@,
            ),
        },
{
    match select_attrs(html, "a[href]", "href") {
        Some(hrefs) => Ok(google_links_of(&hrefs, limit)),
        None => Err(AppError::Scraper("Failed to parse link selector".to_owned())),
    }
}

// ---------------------------------------------------------------------------
// The pages that were found
// ---------------------------------------------------------------------------

/// The URLs that a search gives: the `limit` most relevant ones.
pub fn search_urls(urls: Vec<String>, query: &str, limit: u32) -> (r: Vec<String>)
    ensures
        views(r@) == first_n(ranked(views(urls@), query@), limit as nat),
{
    let mut r = rank_by_relevance(urls, query);
    let ghost all = views(r@);
    if r.len() > limit as usize {
        r.truncate(limit as usize);
    }
    assert(views(r@) =~= first_n(all, limit as nat));
    r
}

/// Where a search is asked, and under which URL.
#[derive(Debug)]
pub enum SearchSource {
    Searxng { url: String },
    Google { url: String },
}

impl SearchSource {
    /// The URL under which the search is asked.
    pub open spec fn asked(self) -> Seq<char> {
        match self {
            SearchSource::Searxng { url } => url@,
            SearchSource::Google { url } => url@,
        }
    }

    /// The URL under which the search is asked.
    pub fn url(&self) -> (r: String)
        ensures
            r@ == self.asked(),
    {
        match self {
            SearchSource::Searxng { url } => url.clone(),
            SearchSource::Google { url } => url.clone(),
        }
    }
}

/// Where a search is asked: SearXNG where it is configured, else Google.
pub fn search_source(config: &SearchConfig, req: &SearchRequest) -> (r: SearchSource)
    ensures
        match config.searxng_endpoint {
            Some(endpoint) => r matches SearchSource::Searxng { url } && url@ == searxng_url(
                endpoint@,
                req.query@,
                opt_view(config.searxng_engines),
                opt_view(config.searxng_categories),
                opt_view(req.lang),
                opt_view(req.country),
            ),
            None => r matches SearchSource::Google { url } && url@ == google_url(
                req.query@,
                req.limit,
            ),
        },
{
    match &config.searxng_endpoint {
        Some(endpoint) => SearchSource::Searxng {
            url: searxng_url_of(
                endpoint.as_str(),
                req.query.as_str(),
                config,
                &req.lang,
                &req.country,
            ),
        },
        None => SearchSource::Google { url: google_url_of(req.query.as_str(), req.limit) },
    }
}

/// The URLs in the answer `text` of a source, or the error that it cannot be read.
pub open spec fn found_in(source: SearchSource, text: Seq<char>, limit: nat) -> Result<
    Seq<Seq<char>>,
    AppErrorView,
> {
    match source {
        SearchSource::Searxng { .. } => match read_json(text) {
            Ok(j) => Ok(first_n(result_urls(results_in(j)), limit)),
            Err(e) => Err(AppErrorView::Scraper("SearXNG response parse failed: "@ + e)),
        },
        SearchSource::Google { .. } => match selected_attrs(text, "a[href]"@, "href"@) {
            Some(hrefs) => Ok(google_links(hrefs, Seq::empty(), limit)),
            None => Err(AppErrorView::Scraper("Failed to parse link selector"@)),
        },
    }
}

/// What a search gives, from what came back from its source: the most relevant URLs in
/// its answer. A source that fails, or whose answer cannot be read, fails the search; no
/// other source is asked.
pub fn searched(
    source: &SearchSource,
    fetched: Result<String, AppError>,
    query: &str,
    limit: u32,
) -> (r: Result<Vec<String>, AppError>)
    ensures
        match fetched {
            Ok(text) => match found_in(*source, text@, limit as nat) {
                Ok(urls) => r matches Ok(v) && views(v@) == first_n(
                    ranked(urls, query@),
                    limit as nat,
                ),
                Err(e) => r matches Err(x) && x@ == e,
            },
            Err(e) => r == Err::<Vec<String>, AppError>(e),
        },
        source is Searxng ==> (fetched matches Ok(text) ==> match read_json(text@) {
            Ok(j) => r matches Ok(v) && gives_first(
                views(v@),
                results_in(j).filter_map(|item: JsonView| url_of_result(item)),
                limit as nat,
            ),
            Err(_) => r is Err,
        }),
        source is Google && limit > 0 ==> (fetched matches Ok(text) ==> match selected_attrs(
            text@,
            "a[href]"@,
            "href"@,
        ) {
            Some(hrefs) => r matches Ok(v) && gives_first(
                views(v@),
                hrefs.filter_map(|h: Option<Seq<char>>| google_link(h)),
                limit as nat,
            ),
            None => r is Err,
        }),
{
    proof {
        if let Ok(text) = &fetched {
            law_found_is_given(*source, text@, query@, limit as nat);
        }
    }
    let text = match fetched {
        Ok(text) => text,
        Err(e) => {
            return Err(e);
        },
    };
    let found = match source {
        SearchSource::Searxng { .. } => searxng_search(text.as_str(), limit),
        SearchSource::Google { .. } => google_search(text.as_str(), limit),
    };
    match found {
        Ok(urls) => Ok(search_urls(urls, query, limit)),
        Err(e) => Err(e),
    }
}

/// A search gives at most as many URLs as asked for.
pub proof fn law_search_within_limit(urls: Seq<Seq<char>>, query: Seq<char>, limit: nat)
    ensures
        first_n(ranked(urls, query), limit).len() <= limit,
        first_n(ranked(urls, query), limit).len() <= urls.len(),
{
    crate::llm::law_ranked_is_permutation(urls, query);
    ranked(urls, query).to_multiset_ensures();
    urls.to_multiset_ensures();
}

/// The job that scrapes a page that was found.
pub open spec fn search_job(
    url: Seq<char>,
    options: Option<ScrapeOptionsView>,
    timeout: Option<u32>,
) -> ScrapeJobView {
    ScrapeJobView {
        url,
        formats: match options {
            Some(o) => o.formats,
            None => seq![OutputFormat::Markdown],
        },
        only_main_content: match options {
            Some(o) => o.only_main_content,
            None => true,
        },
        include_tags: match options {
            Some(o) => o.include_tags,
            None => Seq::empty(),
        },
        exclude_tags: match options {
            Some(o) => o.exclude_tags,
            None => Seq::empty(),
        },
        headers: None,
        wait_for: match options {
            Some(o) => o.wait_for,
            None => 0,
        },
        mobile: false,
        timeout,
        extract: None,
        actions: Seq::empty(),
        location: None,
        webhook: None,
    }
}

/// The job that scrapes a page that was found.
pub fn search_job_of(url: &String, req: &SearchRequest) -> (r: ScrapeJobData)
    ensures
        r@ == search_job(
            url@,
            match req.scrape_options {
                Some(o) => Some(o@),
                None => None,
            },
            req.timeout,
        ),
{
    let formats = match &req.scrape_options {
        Some(o) => formats_clone(&o.formats),
        None => vec![OutputFormat::Markdown],
    };
    let include_tags = match &req.scrape_options {
        Some(o) => strings_clone(&o.include_tags),
        None => Vec::new(),
    };
    let exclude_tags = match &req.scrape_options {
        Some(o) => strings_clone(&o.exclude_tags),
        None => Vec::new(),
    };
    let job = ScrapeJobData {
        url: url.clone(),
        formats,
        only_main_content: match &req.scrape_options {
            Some(o) => o.only_main_content,
            None => true,
        },
        include_tags,
        exclude_tags,
        headers: None,
        wait_for: match &req.scrape_options {
            Some(o) => o.wait_for,
            None => 0,
        },
        mobile: false,
        timeout: req.timeout,
        extract: None,
        actions: Vec::new(),
        location: None,
        webhook: None,
    };
    assert(req.scrape_options is None ==> job.formats@ =~= seq![OutputFormat::Markdown]);
    assert(req.scrape_options is None ==> views(job.include_tags@) =~= Seq::empty());
    assert(req.scrape_options is None ==> views(job.exclude_tags@) =~= Seq::empty());
    assert(job.actions@ =~= Seq::empty());
    job
}

/// What is said of a page: the beginning of its first line that is not blank.
pub open spec fn page_description(markdown: Option<Seq<char>>) -> Option<Seq<char>> {
    match markdown {
        Some(m) => match first_nonblank_line(m) {
            Some(line) => Some(prefix(line, 180)),
            None => None,
        },
        None => None,
    }
}

/// A page that was found, as it is shown.
pub fn search_result_of(result: ScrapeResult) -> (r: SearchWebResult)
    ensures
        r@ == (SearchWebView {
            url: result.url@,
            title: opt_view(result.title),
            description: page_description(opt_view(result.markdown)),
            category: None,
        }),
{
    let description = match &result.markdown {
        Some(m) => match first_nonblank_line_of(m.as_str()) {
            Some(line) => Some(prefix_text(line.as_str(), 180)),
            None => None,
        },
        None => None,
    };
    SearchWebResult { url: result.url, title: result.title, description, category: None }
}

/// The answer to a search.
pub fn search_response(results: Vec<SearchWebResult>) -> (r: SearchResponse)
    ensures
        r.success,
        r.data.web == Some(results),
        r.data.news is None,
        r.data.images is None,
{
    SearchResponse {
        success: true,
        data: SearchResponseData { web: Some(results), news: None, images: None },
    }
}

// ---------------------------------------------------------------------------
// Laws of the search
// ---------------------------------------------------------------------------

/// The URL that a result of SearXNG has, where it is a text.
pub open spec fn url_of_result(item: JsonView) -> Option<Seq<char>> {
    match item.get("url"@) {
        Some(JsonView::Text(u)) => Some(u),
        _ => None,
    }
}

/// The URLs of the results are exactly those that they have, in order.
pub proof fn law_result_urls(items: Seq<JsonView>)
    ensures
        result_urls(items) == items.filter_map(|item: JsonView| url_of_result(item)),
    decreases items.len(),
{
    reveal(Seq::filter_map);
    if items.len() > 0 {
        law_result_urls(items.drop_last());
        let before = result_urls(items.drop_last());
        if let Some(u) = url_of_result(items.last()) {
            assert(before.push(u) =~= before + seq![u]);
        }
    }
}

/// Every result with a text for a URL gives it, and no other text is given.
pub proof fn law_every_result_gives_its_url(items: Seq<JsonView>, u: Seq<char>)
    ensures
        result_urls(items).contains(u) <==> exists|i: int|
            0 <= i < items.len() && (#[trigger] items[i]).get("url"@) == Some(JsonView::Text(u)),
        forall|i: int|
            0 <= i < items.len() && (#[trigger] items[i]).get("url"@) == Some(JsonView::Text(u))
                ==> result_urls(items).contains(u),
    decreases items.len(),
{
    if items.len() > 0 {
        let rest = items.drop_last();
        let before = result_urls(rest);
        let all = result_urls(items);
        law_every_result_gives_its_url(rest, u);
        if all.contains(u) {
            let k = choose|k: int| 0 <= k < all.len() && all[k] == u;
            if k < before.len() {
                assert(before[k] == u);
                let i = choose|i: int|
                    0 <= i < rest.len() && (#[trigger] rest[i]).get("url"@) == Some(
                        JsonView::Text(u),
                    );
                assert(items[i] == rest[i]);
            } else {
                assert(items[items.len() - 1].get("url"@) == Some(JsonView::Text(u)));
            }
        }
        assert forall|i: int|
            0 <= i < items.len() && (#[trigger] items[i]).get("url"@) == Some(
                JsonView::Text(u),
            ) implies all.contains(u) by {
            if i < rest.len() {
                assert(rest[i] == items[i]);
                let k = choose|k: int| 0 <= k < before.len() && before[k] == u;
                assert(all[k] == u);
            } else {
                assert(all[before.len() as int] == u);
            }
        }
    }
}

/// The URLs of results that follow each other follow each other.
pub proof fn law_results_of_two_lists(a: Seq<JsonView>, b: Seq<JsonView>)
    ensures
        result_urls(a + b) == result_urls(a) + result_urls(b),
    decreases b.len(),
{
    if b.len() == 0 {
        assert(a + b =~= a);
        assert(result_urls(a) + result_urls(b) =~= result_urls(a));
    } else {
        law_results_of_two_lists(a, b.drop_last());
        assert((a + b).drop_last() =~= a + b.drop_last());
        assert(result_urls(a + b) =~= result_urls(a) + result_urls(b));
    }
}

/// A list that is cut is its beginning, as long as it may be.
pub proof fn law_first_n(v: Seq<Seq<char>>, n: nat)
    ensures
        first_n(v, n).len() == (if v.len() <= n {
            v.len()
        } else {
            n
        }),
        first_n(v, n).is_prefix_of(v),
{
}

/// Where the search engine found no more URLs than asked for, all of them are given;
/// else as many as asked for, and none that matches the query less than one left out.
pub proof fn law_search_gives_the_most_relevant(
    urls: Seq<Seq<char>>,
    query: Seq<char>,
    limit: nat,
)
    ensures
        ({
            let given = first_n(ranked(urls, query), limit);
            &&& urls.len() <= limit ==> given.to_multiset() == urls.to_multiset()
            &&& given.len() == (if urls.len() <= limit {
                urls.len()
            } else {
                limit
            })
            &&& forall|i: int, j: int|
                0 <= i < given.len() <= j < urls.len() ==> #[trigger] matches_of(given[i], query)
                    >= #[trigger] matches_of(ranked(urls, query)[j], query)
        }),
{
    law_ranking(urls, query);
    let all = ranked(urls, query);
    let given = first_n(all, limit);
    assert forall|i: int, j: int| 0 <= i < given.len() <= j < urls.len() implies #[trigger] matches_of(
        given[i],
        query,
    ) >= #[trigger] matches_of(all[j], query) by {
        assert(given[i] == all[i]);
        assert(matches_of(all[i], query) >= matches_of(all[j], query));
    }
}

/// A link of Google leads to the page whose address stands in it, encoded, up to the
/// next ampersand, where that is one of the web; any other link leads nowhere.
pub proof fn law_google_link(encoded: Seq<char>, rest: Seq<char>, other: Seq<char>)
    requires
        forall|i: int| 0 <= i < encoded.len() ==> (#[trigger] encoded[i]) != '&',
        !starts_with(other, "/url?q="@),
    ensures
        google_link(Some("/url?q="@ + encoded + seq!['&'] + rest)) == (match url_decoded(encoded) {
            Some(d) => if starts_with(d, "http"@) {
                Some(d)
            } else {
                None
            },
            None => None,
        }),
        google_link(Some("/url?q="@ + encoded)) is None,
        google_link(Some(other)) is None,
        google_link(None) is None,
{
    let head = "/url?q="@;
    let amp = seq!['&'];
    let h = head + encoded + amp + rest;
    law_text_contains_its_middle(Seq::empty(), head, encoded + amp + rest);
    assert(h =~= head + (encoded + amp + rest));
    let tail = h.skip(head.len() as int);
    assert(tail =~= encoded + amp + rest);
    let at = encoded.len() as int;
    assert(tail.subrange(at, at + 1) =~= amp);
    assert forall|j: int| 0 <= j < at implies !#[trigger] occurs_at(tail, amp, j) by {
        if occurs_at(tail, amp, j) {
            assert(tail.subrange(j, j + 1)[0] == encoded[j]);
        }
    }
    lemma_find_is(tail, amp, 0, at);
    assert(tail.take(at) =~= encoded);
    law_text_contains_its_middle(Seq::empty(), head, encoded);
    assert((head + encoded).skip(head.len() as int) =~= encoded);
    assert forall|j: int| 0 <= j implies !#[trigger] occurs_at(encoded, amp, j) by {
        if occurs_at(encoded, amp, j) {
            assert(encoded.subrange(j, j + 1)[0] == encoded[j]);
        }
    }
    lemma_find_from(encoded, amp, 0);
}

/// The pages that the links of Google lead to are given in order, none left out, until
/// there are as many as asked for.
pub proof fn law_google_links(hrefs: Seq<Option<Seq<char>>>, limit: nat)
    requires
        limit > 0,
    ensures
        google_links(hrefs, Seq::empty(), limit) == first_n(
            hrefs.filter_map(|h: Option<Seq<char>>| google_link(h)),
            limit,
        ),
{
    lemma_google_links(hrefs, Seq::empty(), limit);
    let all = hrefs.filter_map(|h: Option<Seq<char>>| google_link(h));
    assert(Seq::<Seq<char>>::empty() + all =~= all);
}

proof fn lemma_google_links(hrefs: Seq<Option<Seq<char>>>, found: Seq<Seq<char>>, limit: nat)
    requires
        found.len() < limit,
    ensures
        google_links(hrefs, found, limit) == first_n(
            found + hrefs.filter_map(|h: Option<Seq<char>>| google_link(h)),
            limit,
        ),
    decreases hrefs.len(),
{
    let f = |h: Option<Seq<char>>| google_link(h);
    reveal(Seq::filter_map);
    if hrefs.len() == 0 {
        assert(found + hrefs.filter_map(f) =~= found);
    } else {
        let rest = hrefs.drop_first();
        assert(hrefs =~= seq![hrefs[0]] + rest);
        Seq::<Option<Seq<char>>>::lemma_filter_map_singleton(hrefs[0], f);
        lemma_filter_map_add(seq![hrefs[0]], rest, f);
        match google_link(hrefs[0]) {
            Some(u) => {
                assert(found + (seq![u] + rest.filter_map(f)) =~= found.push(u)
                    + rest.filter_map(f));
                if found.len() + 1 < limit {
                    lemma_google_links(rest, found.push(u), limit);
                } else {
                    assert(first_n(found.push(u) + rest.filter_map(f), limit) =~= found.push(u));
                }
            },
            None => {
                lemma_google_links(rest, found, limit);
                assert(Seq::<Seq<char>>::empty() + rest.filter_map(f) =~= rest.filter_map(f));
            },
        }
    }
}

/// SearXNG is asked for the query, and for what else was given, each under its own name
/// and encoded, and for nothing that was not given.
pub proof fn law_searxng_url(
    endpoint: Seq<char>,
    query: Seq<char>,
    engines: Option<Seq<char>>,
    categories: Option<Seq<char>>,
    lang: Option<Seq<char>>,
    country: Option<Seq<char>>,
    v: Seq<char>,
)
    ensures
        searxng_url(endpoint, query, None, None, None, None) == endpoint + "/search?q="@
            + url_encoded(query) + "&format=json"@,
        searxng_url(endpoint, query, Some(v), None, None, None) == searxng_url(
            endpoint,
            query,
            None,
            None,
            None,
            None,
        ) + ("&engines="@ + url_encoded(v)),
        searxng_url(endpoint, query, engines, Some(v), None, None) == searxng_url(
            endpoint,
            query,
            engines,
            None,
            None,
            None,
        ) + ("&categories="@ + url_encoded(v)),
        searxng_url(endpoint, query, engines, categories, Some(v), None) == searxng_url(
            endpoint,
            query,
            engines,
            categories,
            None,
            None,
        ) + ("&language="@ + url_encoded(v)),
        searxng_url(endpoint, query, engines, categories, lang, Some(v)) == searxng_url(
            endpoint,
            query,
            engines,
            categories,
            lang,
            None,
        ) + ("&region="@ + url_encoded(v)),
{
    reveal_strlit("&");
    reveal_strlit("=");
    reveal_strlit("engines");
    reveal_strlit("categories");
    reveal_strlit("language");
    reveal_strlit("region");
    reveal_strlit("&engines=");
    reveal_strlit("&categories=");
    reveal_strlit("&language=");
    reveal_strlit("&region=");
    assert("&"@ + "engines"@ + "="@ =~= "&engines="@);
    assert("&"@ + "categories"@ + "="@ =~= "&categories="@);
    assert("&"@ + "language"@ + "="@ =~= "&language="@);
    assert("&"@ + "region"@ + "="@ =~= "&region="@);
    let none = Seq::<char>::empty();
    let start = endpoint + "/search?q="@ + url_encoded(query) + "&format=json"@;
    assert(start + none + none + none + none =~= start);
    let e = url_param("engines"@, engines);
    let c = url_param("categories"@, categories);
    let l = url_param("language"@, lang);
    let x = url_param("engines"@, Some(v));
    assert(start + x + none + none + none =~= start + x);
    let y = url_param("categories"@, Some(v));
    assert(start + e + y + none + none =~= (start + e + none + none + none) + y);
    let z = url_param("language"@, Some(v));
    assert(start + e + c + z + none =~= (start + e + c + none + none) + z);
    let w = url_param("region"@, Some(v));
    assert(start + e + c + l + w =~= (start + e + c + l + none) + w);
}

/// Google is asked for the query, and for as many results as are wanted, ten at most.
pub proof fn law_google_url(query: Seq<char>, limit: u32)
    ensures
        limit <= 10 ==> google_url(query, limit) == "https://www.google.com/search?q="@
            + url_encoded(query) + "&num="@ + decimal(limit as nat),
        limit > 10 ==> google_url(query, limit) == google_url(query, 10),
{
}

/// A page that was found is scraped as was asked for; in Markdown, and its main content
/// alone, where nothing was.
pub proof fn law_search_job(url: Seq<char>, o: ScrapeOptionsView, timeout: Option<u32>)
    ensures
        ({
            let job = search_job(url, Some(o), timeout);
            &&& job.url == url
            &&& job.formats == o.formats
            &&& job.only_main_content == o.only_main_content
            &&& job.include_tags == o.include_tags
            &&& job.exclude_tags == o.exclude_tags
            &&& job.wait_for == o.wait_for
            &&& job.timeout == timeout
        }),
        ({
            let job = search_job(url, None, timeout);
            &&& job.url == url
            &&& job.formats == seq![OutputFormat::Markdown]
            &&& job.only_main_content
            &&& job.include_tags.len() == 0
            &&& job.exclude_tags.len() == 0
            &&& job.wait_for == 0
            &&& job.timeout == timeout
        }),
{
}

/// What is said of a page is the first line of its Markdown that is not blank, at most
/// a hundred and eighty characters of it.
pub proof fn law_page_description(markdown: Seq<char>)
    ensures
        first_nonblank_line(markdown) is None ==> page_description(Some(markdown)) is None,
        first_nonblank_line(markdown) matches Some(line) ==> (line.len() <= 180
            ==> page_description(Some(markdown)) == Some(line)),
        first_nonblank_line(markdown) matches Some(line) ==> (line.len() > 180
            ==> page_description(Some(markdown)) == Some(line.take(180))),
        page_description(None) is None,
{
}

/// The results in an answer of SearXNG are the items of its list of results; where that
/// is no list, or not there, there are none.
pub proof fn law_results_in(body: JsonView, items: Seq<JsonView>)
    ensures
        body.get("results"@) == Some(JsonView::Array(items)) ==> results_in(body) == items,
        body.get("results"@) is None ==> results_in(body).len() == 0,
        body.get("results"@) matches Some(r) ==> (!(r is Array) ==> results_in(body).len() == 0),
{
}

/// The URLs are the first `limit` ones of those that were found, in some order.
pub open spec fn gives_first(given: Seq<Seq<char>>, found: Seq<Seq<char>>, limit: nat) -> bool {
    given.to_multiset() == (if found.len() <= limit {
        found
    } else {
        found.take(limit as int)
    }).to_multiset()
}

/// Of the URLs that the search engine names, the first ones, as many as asked for, are
/// given, and all of them where they are no more.
pub proof fn law_found_is_given(
    source: SearchSource,
    text: Seq<char>,
    query: Seq<char>,
    limit: nat,
)
    ensures
        source is Searxng ==> (read_json(text) matches Ok(j) ==> (found_in(source, text, limit)
            matches Ok(urls) && gives_first(
            first_n(ranked(urls, query), limit),
            results_in(j).filter_map(|item: JsonView| url_of_result(item)),
            limit,
        ))),
        source is Searxng && read_json(text) is Err ==> found_in(source, text, limit) is Err,
        source is Google && limit > 0 ==> (selected_attrs(text, "a[href]"@, "href"@) matches Some(
            hrefs,
        ) ==> (found_in(source, text, limit) matches Ok(urls) && gives_first(
            first_n(ranked(urls, query), limit),
            hrefs.filter_map(|h: Option<Seq<char>>| google_link(h)),
            limit,
        ))),
        source is Google && selected_attrs(text, "a[href]"@, "href"@) is None ==> found_in(
            source,
            text,
            limit,
        ) is Err,
{
    if source is Searxng {
        if let Ok(j) = read_json(text) {
            law_result_urls(results_in(j));
            let urls = first_n(result_urls(results_in(j)), limit);
            law_search_gives_the_most_relevant(urls, query, limit);
        }
    } else if limit > 0 {
        if let Some(hrefs) = selected_attrs(text, "a[href]"@, "href"@) {
            law_google_links(hrefs, limit);
            let urls = google_links(hrefs, Seq::empty(), limit);
            law_search_gives_the_most_relevant(urls, query, limit);
        }
    }
}
/// Where no page is asked for, the first one that a link of Google leads to is looked
/// for all the same, and no other.
pub proof fn law_google_links_for_none(hrefs: Seq<Option<Seq<char>>>)
    ensures
        google_links(hrefs, Seq::empty(), 0) == google_links(hrefs, Seq::empty(), 1),
    decreases hrefs.len(),
{
    if hrefs.len() > 0 {
        law_google_links_for_none(hrefs.drop_first());
    }
}

} // verus!
