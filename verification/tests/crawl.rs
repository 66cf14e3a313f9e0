use fire_ctrl::models::{
    AppError, OutputFormat, ScrapeMetadata, ScrapeOptions, ScrapeResult,
};
use fire_ctrl::scraper::{Crawl, CrawlParams};

fn params(max_depth: u32, limit: u32) -> CrawlParams {
    CrawlParams {
        root_url: "https://example.com/page/0".to_string(),
        max_depth,
        limit,
        scrape_options: ScrapeOptions::default(),
        allow_external_links: false,
        ignore_sitemap: false,
        include_paths: vec![],
        exclude_paths: vec![],
    }
}

fn page(url: &str, links: &[&str]) -> ScrapeResult {
    let raw: String = links.iter().map(|l| format!("<a href='{l}'>l</a>")).collect();
    ScrapeResult {
        url: url.to_string(),
        title: None,
        markdown: Some("m".to_string()),
        html: None,
        raw_html: Some(raw),
        screenshot: None,
        links: None,
        extract: None,
        json: None,
        warning: None,
        metadata: ScrapeMetadata {
            status_code: 200,
            content_type: None,
            source_url: url.to_string(),
            scrape_id: None,
            error: None,
        },
    }
}

/// Crawls a site in which page `n` links to the next two pages and to the root.
fn crawl_site(params: CrawlParams, pages: usize, sitemap: &[&str]) -> (Vec<String>, Vec<ScrapeResult>) {
    let sitemap: Vec<String> = sitemap.iter().map(|s| s.to_string()).collect();
    let mut crawl = Crawl::start(params, &sitemap).unwrap();
    let mut asked = Vec::new();
    while let Some(job) = crawl.next_job() {
        let n: usize = job.url.rsplit('/').next().unwrap().parse().unwrap();
        let mut links: Vec<String> = Vec::new();
        for m in [n + 1, n + 2] {
            if m < pages {
                links.push(format!("/page/{m}"));
            }
        }
        links.push("/page/0".to_string());
        let links: Vec<&str> = links.iter().map(|s| s.as_str()).collect();
        crawl.page_scraped(Some(page(&job.url, &links)));
        asked.push(job.url);
    }
    (asked, crawl.into_results())
}

#[test]
fn crawl_is_breadth_first_and_bounded() {
    let (asked, results) = crawl_site(params(2, 100), 100, &[]);
    let expected: Vec<String> = [0, 1, 2, 3, 4].iter().map(|n| format!("https://example.com/page/{n}")).collect();
    assert_eq!(asked, expected);
    assert_eq!(results.len(), 5);
    assert!(results.iter().all(|r| r.raw_html.is_none()));
    let (asked, results) = crawl_site(params(50, 3), 100, &[]);
    assert_eq!((asked.len(), results.len()), (3, 3));
    let (asked, _) = crawl_site(params(100, 1_000), 20, &[]);
    let mut distinct = asked.clone();
    distinct.sort();
    distinct.dedup();
    assert_eq!(distinct.len(), asked.len());
    assert_eq!(asked.len(), 20);
    let (asked, _) = crawl_site(params(0, 10), 20, &[]);
    assert_eq!(asked, ["https://example.com/page/0"]);
    assert!(crawl_site(params(3, 0), 20, &[]).0.is_empty());
}

#[test]
fn sitemap_pages_are_seeds() {
    let seeds = ["https://example.com/page/7", "https://other.example/page/8", "https://example.com/page/7"];
    let (asked, _) = crawl_site(params(1, 10), 20, &seeds);
    assert_eq!(
        asked,
        [
            "https://example.com/page/0",
            "https://example.com/page/7",
            "https://example.com/page/1",
            "https://example.com/page/2"
        ]
    );
    let mut p = params(1, 10);
    p.ignore_sitemap = true;
    assert!(!crawl_site(p, 20, &seeds).0.contains(&"https://example.com/page/7".to_string()));
    // Pages of the sitemap are one deep.
    let mut p = params(0, 10);
    p.allow_external_links = true;
    assert!(!p.reads_sitemap());
    assert_eq!(crawl_site(p, 20, &seeds).0, ["https://example.com/page/0"]);
    // The root comes first wherever the sitemap lists it.
    let listed = ["https://example.com/page/9", "https://example.com/page/0"];
    assert_eq!(crawl_site(params(1, 1), 20, &listed).0, ["https://example.com/page/0"]);
    let (asked, _) = crawl_site(params(1, 10), 20, &listed);
    assert_eq!(
        asked,
        [
            "https://example.com/page/0",
            "https://example.com/page/9",
            "https://example.com/page/1",
            "https://example.com/page/2"
        ]
    );
}

#[test]
fn paths_are_filtered() {
    let mut p = params(5, 100);
    p.include_paths = vec!["page/1".to_string(), "page/0".to_string()];
    p.exclude_paths = vec!["/11".to_string()];
    let (asked, _) = crawl_site(p, 30, &["https://example.com/page/11", "https://example.com/page/12"]);
    assert_eq!(
        asked,
        [
            "https://example.com/page/0",
            "https://example.com/page/12",
            "https://example.com/page/1",
            "https://example.com/page/13",
            "https://example.com/page/14",
            "https://example.com/page/15",
            "https://example.com/page/16",
            "https://example.com/page/17",
            "https://example.com/page/18",
            "https://example.com/page/19"
        ]
    );
}

#[test]
fn jobs_fetch_the_page_itself_to_follow_links() {
    let mut crawl = Crawl::start(params(1, 10), &vec![]).unwrap();
    let job = crawl.next_job().unwrap();
    assert_eq!(job.formats, vec![OutputFormat::Markdown, OutputFormat::RawHtml]);
    crawl.page_scraped(Some(page(&job.url, &["/page/1"])));
    let job = crawl.next_job().unwrap();
    assert_eq!(job.formats, vec![OutputFormat::Markdown]);
    crawl.page_scraped(None);
    assert!(crawl.next_job().is_none());
    assert_eq!(crawl.into_results().len(), 1);

    let mut p = params(1, 10);
    p.scrape_options.formats = vec![OutputFormat::RawHtml];
    let mut crawl = Crawl::start(p, &vec![]).unwrap();
    let job = crawl.next_job().unwrap();
    assert_eq!(job.formats, vec![OutputFormat::RawHtml]);
    crawl.page_scraped(Some(page(&job.url, &[])));
    assert!(crawl.into_results()[0].raw_html.is_some());
}

#[test]
fn root_has_to_be_a_url() {
    let mut p = params(1, 1);
    p.root_url = "example".to_string();
    assert!(matches!(Crawl::start(p, &vec![]), Err(AppError::InvalidUrl(_))));
}
