use fire_ctrl::config::CrawlerConfig;
use fire_ctrl::models::{AppError, OutputFormat, PageAction, ScrapeJobData};
use fire_ctrl::robots::{is_readable_text, RobotsCache, RobotsStep};
use fire_ctrl::scraper::{
    extract_links, extract_main_content, extract_title, html_to_markdown, html_to_structured_json,
    html_to_text, media_type_of, FetchedPage, PageSource, Scraper,
};
use fire_ctrl::sitemaps::{SitemapEntry, SitemapWalk};
use fire_ctrl::weburl::PageUrl;

const PAGE: &str = "<!doctype html><html><head><title> A  page </title>\
    <meta name='description' content='  '><meta property='og:description' content=' About '>\
    </head><body><nav>menu</nav><main><h1>Head <b>line</b></h1><p>First\n  text</p><p> </p>\
    <a href='/x'>x</a><a href='https://other.example/y'>y</a><a href='mailto:a@b.c'>m</a></main>\
    </body></html>";

fn config(robots: bool) -> CrawlerConfig {
    CrawlerConfig {
        max_depth: 1,
        max_pages: 1,
        concurrent_requests: 3,
        request_timeout_seconds: 5,
        user_agent: "bot".to_string(),
        respect_robots_txt: robots,
        playwright_url: None,
        browser_pool_size: 1,
    }
}

fn job(formats: Vec<OutputFormat>) -> ScrapeJobData {
    ScrapeJobData {
        url: "https://example.com/dir/page".to_string(),
        formats,
        only_main_content: false,
        include_tags: vec![],
        exclude_tags: vec![],
        headers: None,
        wait_for: 0,
        mobile: false,
        timeout: None,
        extract: None,
        actions: vec![],
        location: None,
        webhook: None,
    }
}

fn base() -> PageUrl {
    PageUrl::parse("https://example.com/dir/page").unwrap()
}

#[test]
fn page_texts() {
    assert_eq!(extract_title(PAGE).as_deref(), Some("A  page"));
    assert_eq!(extract_title("<p>no title</p>"), None);
    assert_eq!(html_to_text(PAGE), "menu Head line First text x y m");
    assert_eq!(extract_main_content(PAGE), "Head line First text x y m");
    assert_eq!(
        extract_main_content("<article> </article><div role='main'>role</div>"),
        "role"
    );
    assert_eq!(extract_main_content(""), "");
    assert_eq!(html_to_markdown("<h1>Title</h1><p>a <b>b</b></p>"), "# Title\n\na **b**");
}

#[test]
fn page_links_are_resolved() {
    assert_eq!(
        extract_links(PAGE, &base()),
        ["https://example.com/x", "https://other.example/y"]
    );
}

#[test]
fn page_summary() {
    assert_eq!(
        html_to_structured_json(PAGE, &base()).to_text(),
        "{\"title\":\"A page\",\"description\":\"About\",\"headings\":{\"h1\":[\"Head line\"],\
         \"h2\":[],\"h3\":[]},\"paragraphs\":[\"First text\"],\"links\":[\"https://example.com/x\",\
         \"https://other.example/y\"],\"text\":\"Head line First text x y m\"}"
    );
    assert!(html_to_structured_json("", &base()).to_text().starts_with("{\"title\":null,\"description\":null"));
}

#[test]
fn media_types() {
    assert_eq!(media_type_of("text/html; charset=utf-8"), "text/html");
    assert_eq!(media_type_of(" application/json "), "application/json");
    assert_eq!(media_type_of(";"), "");
}

#[test]
fn scraping_begins_with_a_url() {
    let scraper = Scraper::new(&config(true));
    assert_eq!(scraper.concurrent_requests(), 3);
    let mut j = job(vec![]);
    assert_eq!(scraper.scrape(&j).unwrap().text, "https://example.com/dir/page");
    j.url = "no url".to_string();
    match scraper.scrape(&j) {
        Err(AppError::InvalidUrl(e)) => assert_eq!(e, "relative URL without a base"),
        other => panic!("{other:?}"),
    }
}

#[test]
fn source_depends_on_actions_and_waiting() {
    let mut scraper = Scraper::new(&config(true));
    let mut j = job(vec![]);
    assert_eq!(scraper.after_robots(&j, true).unwrap(), PageSource::Http);
    match scraper.after_robots(&j, false) {
        Err(AppError::Scraper(m)) => {
            assert_eq!(m, "URL blocked by robots.txt: https://example.com/dir/page")
        }
        other => panic!("{other:?}"),
    }
    j.wait_for = 20;
    assert_eq!(
        scraper.after_robots(&j, true).unwrap(),
        PageSource::Browser { wait_for: 20, timeout_seconds: 5 }
    );
    j.wait_for = 0;
    j.actions = vec![PageAction::Screenshot];
    j.timeout = Some(9);
    assert_eq!(
        scraper.after_robots(&j, true).unwrap(),
        PageSource::Browser { wait_for: 0, timeout_seconds: 9 }
    );
    scraper.http.config.playwright_url = Some("http://playwright".to_string());
    assert_eq!(scraper.after_robots(&j, true).unwrap(), PageSource::Http);
}

#[test]
fn result_holds_the_formats_asked_for() {
    let scraper = Scraper::new(&config(false));
    let page = || FetchedPage::from_http(201, Some("text/html".to_string()), PAGE.to_string());
    let r = scraper.scraped(&job(vec![]), &base(), page());
    assert_eq!(r.title.as_deref(), Some("A  page"));
    assert!(r.markdown.is_some());
    assert!(r.html.is_none() && r.raw_html.is_none() && r.links.is_none() && r.json.is_none());
    assert_eq!(r.metadata.status_code, 201);
    assert_eq!(r.metadata.source_url, "https://example.com/dir/page");
    let all = vec![
        OutputFormat::Html,
        OutputFormat::RawHtml,
        OutputFormat::Links,
        OutputFormat::Json,
        OutputFormat::Extract,
        OutputFormat::Screenshot,
    ];
    let r = scraper.scraped(&job(all.clone()), &base(), page());
    assert!(r.markdown.is_none() && r.screenshot.is_none() && r.extract.is_none());
    assert_eq!(r.html.as_deref(), Some("menu Head line First text x y m"));
    assert_eq!(r.raw_html.as_deref(), Some(PAGE));
    assert_eq!(r.links.unwrap().len(), 2);
    assert!(r.json.is_some());
    let mut main = job(all);
    main.only_main_content = true;
    let r = scraper.scraped(&main, &base(), page());
    assert_eq!(r.html.as_deref(), Some("Head line First text x y m"));
}

#[test]
fn browser_title_goes_first() {
    let page = FetchedPage::from_browser(PAGE.to_string(), Some("Shown".to_string()));
    assert_eq!(page.title.as_deref(), Some("Shown"));
    assert_eq!((page.status_code, page.content_type.as_deref()), (200, Some("text/html")));
    let page = FetchedPage::from_browser(PAGE.to_string(), None);
    assert_eq!(page.title.as_deref(), Some("A  page"));
}

#[test]
fn robots_rules_are_fetched_once() {
    let mut scraper = Scraper::new(&config(true));
    let private = PageUrl::parse("https://example.com:8443/private/a").unwrap();
    let public = PageUrl::parse("https://example.com/public").unwrap();
    match scraper.http.is_allowed_by_robots(&private) {
        RobotsStep::Fetch { url } => assert_eq!(url, "https://example.com/robots.txt"),
        other => panic!("{other:?}"),
    }
    let rules = "User-agent: *\nDisallow: /private\n".to_string();
    assert!(!scraper.http.robots_fetched(&private, Some(rules)));
    assert!(matches!(scraper.http.is_allowed_by_robots(&private), RobotsStep::Decided(false)));
    assert!(matches!(scraper.http.is_allowed_by_robots(&public), RobotsStep::Decided(true)));
    let other = PageUrl::parse("https://other.example/private").unwrap();
    assert!(scraper.http.robots_fetched(&other, None));
    assert!(matches!(scraper.http.is_allowed_by_robots(&other), RobotsStep::Fetch { .. }));
    let free = Scraper::new(&config(false));
    assert!(matches!(free.http.is_allowed_by_robots(&private), RobotsStep::Decided(true)));
}

#[test]
fn robots_cache_keeps_a_thousand_sites() {
    let mut cache = RobotsCache::new();
    for i in 0..1_001 {
        cache.insert(format!("h{i}"), format!("t{i}"));
    }
    assert_eq!(cache.entries.len(), 1_000);
    assert_eq!(cache.get("h0"), None);
    assert_eq!(cache.get("h1000").as_deref(), Some("t1000"));
    cache.insert("h5".to_string(), "new".to_string());
    assert_eq!(cache.get("h5").as_deref(), Some("new"));
    assert_eq!(cache.get("h1"), None);
    assert_eq!(cache.entries.len(), 999);
}

#[test]
fn readable_rules() {
    assert!(is_readable_text(""));
    assert!(is_readable_text("User-agent: *\nDisallow: /\u{fc}\n"));
    let long = "a".repeat(16_663);
    let rules = "User-agent: *\nDisallow: /x\n";
    // Nothing is cut behind a last line that does not end.
    assert!(is_readable_text(&format!("{rules}{long}\u{20ac}")));
    assert!(is_readable_text(&format!("{long}aaaa\r\n{rules}")));
    // The last kept character begins below the bound.
    assert!(is_readable_text(&format!("{}\u{20ac}\n{rules}", &long[1..])));
    // One byte too few is skipped: the cut is before the end of the line.
    assert!(is_readable_text(&format!("{long}\u{fc}\n{rules}")));
    // Two bytes too few: the cut is inside of the character.
    assert!(!is_readable_text(&format!("{long}\u{20ac}\n{rules}")));
    assert!(!is_readable_text(&format!("\u{ef}\u{bb}\u{bf}{long}\u{20ac}\n")));
    assert!(is_readable_text(&format!("\u{ef}\u{bb}\u{bf}{}\u{20ac}\n", &long[1..])));
}

#[test]
fn long_rules_are_followed() {
    let mut scraper = Scraper::new(&config(true));
    let url = PageUrl::parse("https://example.com/x").unwrap();
    let long = "a".repeat(16_663);
    let rules = "User-agent: *\nDisallow: /x\n";
    for text in [
        format!("{rules}{long}\u{20ac}"),
        format!("{long}aaaa\r\n{rules}"),
        format!("\u{ef}\u{bb}\u{bf}{}\u{20ac}\n{rules}", &long[1..]),
    ] {
        assert!(is_readable_text(&text));
        assert!(!scraper.http.robots_fetched(&url, Some(text)));
    }
    // The lines behind a cut that is off are misread.
    assert!(scraper.http.robots_fetched(&url, Some(format!("{long}\u{fc}\n{rules}"))));
}

#[test]
fn sitemaps_are_walked_depth_first() {
    let mut walk: SitemapWalk =
        Scraper::new(&config(false)).http.fetch_sitemap_urls(&base(), 3);
    assert_eq!(walk.next().as_deref(), Some("https://example.com/sitemap.xml"));
    walk.add_entries(&vec![
        SitemapEntry::Child(Some("c1".to_string())),
        SitemapEntry::Page(Some("p1".to_string())),
        SitemapEntry::Broken,
        SitemapEntry::Page(None),
        SitemapEntry::Child(Some("c2".to_string())),
    ]);
    assert_eq!(walk.next().as_deref(), Some("c1"));
    walk.add_entries(&vec![
        SitemapEntry::Child(Some("c1".to_string())),
        SitemapEntry::Child(Some("c3".to_string())),
    ]);
    assert_eq!(walk.next().as_deref(), Some("c3"));
    walk.fetched(None);
    assert_eq!(walk.next().as_deref(), Some("c2"));
    walk.add_entries(&vec![
        SitemapEntry::Page(Some("p2".to_string())),
        SitemapEntry::Page(Some("p3".to_string())),
        SitemapEntry::Page(Some("p4".to_string())),
        SitemapEntry::Child(Some("c4".to_string())),
    ]);
    assert_eq!(walk.collected, ["p1", "p2", "p3"]);
    assert_eq!(walk.next(), None);
    assert_eq!(walk.visited, ["https://example.com/sitemap.xml", "c1", "c3", "c2"]);
}

#[test]
fn sitemap_texts_are_read() {
    let mut walk = SitemapWalk::fetch_sitemap_urls(&base(), 10);
    walk.next();
    walk.fetched(Some(
        "<?xml version=\"1.0\"?><sitemapindex xmlns=\"http://www.sitemaps.org/schemas/sitemap/0.9\">\
         <sitemap><loc>https://example.com/s2.xml</loc></sitemap></sitemapindex>",
    ));
    assert_eq!(walk.next().as_deref(), Some("https://example.com/s2.xml"));
    walk.fetched(Some(
        "<?xml version=\"1.0\"?><urlset xmlns=\"http://www.sitemaps.org/schemas/sitemap/0.9\">\
         <url><loc>https://example.com/a</loc></url><url><loc>https://example.com/b</loc></url>\
         </urlset>",
    ));
    assert_eq!(walk.collected, ["https://example.com/a", "https://example.com/b"]);
    assert_eq!(walk.next(), None);
}

#[test]
fn site_urls_are_listed() {
    let scraper = Scraper::new(&config(false));
    let body = "<a href='/one'>1</a><a href='https://sub.example.com/two'>2</a>\
        <a href='https://elsewhere.org/'>3</a><a href='/ONE'>4</a><a href='/one'>5</a>";
    let map = |search: Option<&str>, sub: bool, limit: u32, sitemap: &[&str]| {
        let sitemap: Vec<String> = sitemap.iter().map(|s| s.to_string()).collect();
        scraper
            .map_urls("https://example.com", search, sub, limit, &sitemap, Some(body))
            .unwrap()
    };
    assert_eq!(
        map(None, false, 10, &["https://s/1", "https://s/1"]),
        ["https://s/1", "https://example.com/one", "https://example.com/ONE"]
    );
    assert_eq!(map(None, true, 2, &[]), ["https://example.com/one", "https://sub.example.com/two"]);
    assert_eq!(map(Some("TWO"), true, 10, &[]), ["https://sub.example.com/two"]);
    assert_eq!(map(Some("one"), false, 1, &["https://s/1"]), ["https://example.com/one"]);
    assert!(map(None, false, 0, &["https://s/1"]).is_empty());
    let none = scraper.map_urls("https://example.com", None, false, 5, &vec![], None).unwrap();
    assert!(none.is_empty());
    assert!(matches!(
        scraper.map_urls("::", None, false, 5, &vec![], None),
        Err(AppError::InvalidUrl(_))
    ));
}
