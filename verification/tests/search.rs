use fire_ctrl::config::SearchConfig;
use fire_ctrl::models::{
    AppError, OutputFormat, ScrapeMetadata, ScrapeOptions, ScrapeResult, SearchRequest,
};
use fire_ctrl::search::{
    google_search, google_url_of, search_job_of, search_response, search_result_of, search_urls,
    search_source, searched, searxng_search, searxng_url_of, SearchSource,
};

fn config() -> SearchConfig {
    SearchConfig {
        searxng_endpoint: Some("http://searx".to_string()),
        searxng_engines: Some("duckduckgo,bing".to_string()),
        searxng_categories: None,
    }
}

fn request(options: Option<ScrapeOptions>) -> SearchRequest {
    SearchRequest {
        query: "q".to_string(),
        limit: 5,
        lang: None,
        country: None,
        scrape_options: options,
        timeout: Some(4),
    }
}

fn found(markdown: Option<&str>) -> ScrapeResult {
    ScrapeResult {
        url: "https://e.com/".to_string(),
        title: Some("T".to_string()),
        markdown: markdown.map(String::from),
        html: None,
        raw_html: None,
        screenshot: None,
        links: None,
        extract: None,
        json: None,
        warning: None,
        metadata: ScrapeMetadata {
            status_code: 200,
            content_type: None,
            source_url: "https://e.com/".to_string(),
            scrape_id: None,
            error: None,
        },
    }
}

#[test]
fn searxng_is_asked() {
    assert_eq!(
        searxng_url_of(
            "http://searx",
            "a b&\u{e4}",
            &config(),
            &Some("de".to_string()),
            &None
        ),
        "http://searx/search?q=a%20b%26%C3%A4&format=json&engines=duckduckgo%2Cbing&language=de"
    );
}

#[test]
fn searxng_results_are_read() {
    let body = "{\"results\":[{\"url\":\"https://a/\"},{\"title\":\"x\"},{\"url\":5},\
        {\"url\":\"https://b/\"},{\"url\":\"https://c/\"}]}";
    assert_eq!(searxng_search(body, 2).unwrap(), ["https://a/", "https://b/"]);
    assert_eq!(searxng_search(body, 9).unwrap().len(), 3);
    assert!(searxng_search("{\"results\":7}", 9).unwrap().is_empty());
    assert!(searxng_search("[]", 9).unwrap().is_empty());
    match searxng_search("<html>", 9) {
        Err(AppError::Scraper(m)) => {
            assert!(m.starts_with("SearXNG response parse failed: expected value"), "{m}")
        }
        other => panic!("{other:?}"),
    }
}

#[test]
fn google_is_asked_for_ten_at_most() {
    assert_eq!(google_url_of("a b", 3), "https://www.google.com/search?q=a%20b&num=3");
    assert_eq!(google_url_of("a", 50), "https://www.google.com/search?q=a&num=10");
}

#[test]
fn google_results_are_read() {
    let html = "<a href='/url?q=https://a.example/%3Fx%3D1&sa=U'>1</a><a href='/search'>2</a>\
        <a href='/url?q=ftp://f/&x'>3</a><a href='/url?q=https://noamp'>4</a>\
        <a href='/url?q=%FF&x'>5</a><a href='/url?q=http://b.example/&x'>6</a>\
        <a href='/url?q=http://c.example/&x'>7</a>";
    assert_eq!(
        google_search(html, 2).unwrap(),
        ["https://a.example/?x=1", "http://b.example/"]
    );
    assert_eq!(google_search(html, 10).unwrap().len(), 3);
}

#[test]
fn search_ranks_and_cuts() {
    let urls = vec!["https://x/".to_string(), "https://rust/".to_string()];
    assert_eq!(search_urls(urls.clone(), "Rust", 1), ["https://rust/"]);
    assert!(search_urls(urls, "Rust", 0).is_empty());
}

#[test]
fn searxng_goes_before_google() {
    let req = request(None);
    let source = search_source(&config(), &req);
    assert!(matches!(source, SearchSource::Searxng { .. }));
    assert_eq!(
        source.url(),
        "http://searx/search?q=q&format=json&engines=duckduckgo%2Cbing"
    );
    let bare = SearchConfig {
        searxng_endpoint: None,
        searxng_engines: None,
        searxng_categories: None,
    };
    let source = search_source(&bare, &req);
    assert!(matches!(source, SearchSource::Google { .. }));
    assert_eq!(source.url(), "https://www.google.com/search?q=q&num=5");
}

#[test]
fn a_source_that_fails_fails_the_search() {
    let searxng = search_source(&config(), &request(None));
    let google = SearchSource::Google { url: String::new() };
    for source in [&searxng, &google] {
        let r = searched(source, Err(AppError::Scraper("down".to_string())), "q", 5);
        assert!(matches!(r, Err(AppError::Scraper(m)) if m == "down"));
    }
    let unread = searched(&searxng, Ok("<html>".to_string()), "q", 5);
    assert!(unread.unwrap_err().message().contains("SearXNG response parse failed"));
    let body = "{\"results\":[{\"url\":\"https://x/\"},{\"url\":\"https://rust/\"}]}";
    let found = searched(&searxng, Ok(body.to_string()), "Rust", 2).unwrap();
    assert_eq!(found, ["https://rust/", "https://x/"]);
    let html = "<a href='/url?q=https://x/&s'>1</a><a href='/url?q=https://rust/&s'>2</a>";
    assert_eq!(searched(&google, Ok(html.to_string()), "Rust", 2).unwrap(), found);
    assert_eq!(searched(&google, Ok(html.to_string()), "Rust", 1).unwrap(), ["https://x/"]);
}

#[test]
fn found_pages_are_scraped() {
    let job = search_job_of(&"https://e.com/".to_string(), &request(None));
    assert_eq!(job.formats, vec![OutputFormat::Markdown]);
    assert!(job.only_main_content);
    assert_eq!(job.timeout, Some(4));
    let mut options = ScrapeOptions::default();
    options.include_tags = vec!["p".to_string()];
    options.wait_for = 2;
    let job = search_job_of(&"u".to_string(), &request(Some(options)));
    assert!(job.formats.is_empty() && !job.only_main_content);
    assert_eq!((job.wait_for, job.include_tags), (2, vec!["p".to_string()]));
}

#[test]
fn found_pages_are_described() {
    let r = search_result_of(found(Some("\n  \r\n # Head\r\nmore")));
    assert_eq!(r.description.as_deref(), Some(" # Head"));
    assert_eq!((r.url.as_str(), r.title.as_deref()), ("https://e.com/", Some("T")));
    let long = "y".repeat(300);
    assert_eq!(search_result_of(found(Some(&long))).description.unwrap().len(), 180);
    assert_eq!(search_result_of(found(Some(" \n\n"))).description, None);
    assert_eq!(search_result_of(found(None)).description, None);
    let response = search_response(vec![search_result_of(found(None))]);
    assert!(response.success);
    assert_eq!(response.data.web.unwrap().len(), 1);
}
