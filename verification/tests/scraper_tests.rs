use cybersnatcher::scraper::types::{CrawlRule, ExportFormat, FieldRule, ScrapedItem, SpiderConfig};
use cybersnatcher::scraper::pipeline::{clean_whitespace, deduplicate, drop_empty, run_pipeline};
use cybersnatcher::scraper::selector::{extract_items, extract_links, resolve_url};
use cybersnatcher::scraper::spider::validate_config;
use cybersnatcher::scraper::middleware::{default_user_agent, robots_allows, robots_location};
use cybersnatcher::scraper::exporter::{ensure_extension, export_items, csv_table, ExportPlan};
use cybersnatcher::scraper::engine::{start_crawl, client_failed, Crawl, CrawlStart};

fn item(fields: &[(&str, &str)]) -> ScrapedItem {
    let mut it = ScrapedItem::new();
    for (k, v) in fields {
        it.insert(k.to_string(), v.to_string());
    }
    it
}

fn fields(it: &ScrapedItem) -> Vec<(String, String)> {
    it.fields.clone()
}

fn rule(name: &str, css: &str, extract: &str, regex: Option<&str>) -> FieldRule {
    FieldRule {
        name: name.to_string(),
        css_selector: css.to_string(),
        extract: extract.to_string(),
        regex_filter: regex.map(|r| r.to_string()),
    }
}

fn config(urls: &[&str], rules: Vec<FieldRule>) -> SpiderConfig {
    let mut c = SpiderConfig::default();
    c.start_urls = urls.iter().map(|u| u.to_string()).collect();
    c.field_rules = rules;
    c
}

#[test]
fn insert_replaces_existing_field() {
    let mut it = item(&[("a", "1"), ("b", "2")]);
    it.insert("a".to_string(), "3".to_string());
    assert_eq!(fields(&it), vec![("a".to_string(), "3".to_string()), ("b".to_string(), "2".to_string())]);
    assert_eq!(it.get("b"), Some("2".to_string()));
    assert_eq!(it.get("c"), None);
}

#[test]
fn clean_whitespace_collapses_runs() {
    let mut items = vec![item(&[("a", "  hello \n\t world  "), ("b", "x")])];
    clean_whitespace(&mut items);
    assert_eq!(fields(&items[0]), vec![("a".to_string(), "hello world".to_string()), ("b".to_string(), "x".to_string())]);
}

#[test]
fn drop_empty_removes_blank_items() {
    let mut items = vec![item(&[("a", "  "), ("b", "\n")]), item(&[("a", " x ")]), item(&[])];
    drop_empty(&mut items);
    assert_eq!(items.len(), 1);
    assert_eq!(fields(&items[0]), vec![("a".to_string(), " x ".to_string())]);
}

#[test]
fn deduplicate_ignores_field_order() {
    let mut items = vec![
        item(&[("a", "1"), ("b", "2")]),
        item(&[("b", "2"), ("a", "1")]),
        item(&[("a", "1"), ("b", "3")]),
    ];
    deduplicate(&mut items);
    assert_eq!(items.len(), 2);
    assert_eq!(fields(&items[1]), vec![("a".to_string(), "1".to_string()), ("b".to_string(), "3".to_string())]);
}

#[test]
fn deduplicate_compares_fields_not_joined_text() {
    let mut items = vec![
        item(&[("a", "1|b=2")]),
        item(&[("a", "1"), ("b", "2")]),
        item(&[("a", "1"), ("b", "2")]),
    ];
    deduplicate(&mut items);
    assert_eq!(items.len(), 2);
    assert_eq!(fields(&items[0]), vec![("a".to_string(), "1|b=2".to_string())]);
    assert_eq!(fields(&items[1]), vec![("a".to_string(), "1".to_string()), ("b".to_string(), "2".to_string())]);
}

#[test]
fn pipeline_cleans_then_drops_then_dedups() {
    let mut items = vec![
        item(&[("t", " A  B ")]),
        item(&[("t", "   ")]),
        item(&[("t", "A B")]),
        item(&[("t", "C")]),
    ];
    run_pipeline(&mut items);
    let got: Vec<Vec<(String, String)>> = items.iter().map(fields).collect();
    assert_eq!(got, vec![
        vec![("t".to_string(), "A B".to_string())],
        vec![("t".to_string(), "C".to_string())],
    ]);
}

#[test]
fn extract_items_whole_page() {
    let html = "<html><body><h1> My  Title </h1><a class='l' href='/x'>go</a><p>Price 42 USD</p></body></html>";
    let rules = vec![
        rule("title", "h1", "text", None),
        rule("link", "a.l", "href", None),
        rule("price", "p", "text", Some(r"(\d+)")),
        rule("missing", "table", "text", None),
        rule("bad", "[[[", "text", None),
    ];
    let items = extract_items(html, &rules, None);
    assert_eq!(items.len(), 1);
    assert_eq!(fields(&items[0]), vec![
        ("title".to_string(), "My  Title".to_string()),
        ("link".to_string(), "/x".to_string()),
        ("price".to_string(), "42".to_string()),
        ("missing".to_string(), "".to_string()),
    ]);
}

#[test]
fn extract_items_per_item_selector() {
    let html = "<ul><li class='it'><b>one</b></li><li class='it'><b>two</b></li></ul>";
    let rules = vec![rule("name", "b", "text", None), rule("raw", "b", "outer_html", None)];
    let items = extract_items(html, &rules, Some("li.it"));
    assert_eq!(items.len(), 2);
    assert_eq!(items[0].get("name"), Some("one".to_string()));
    assert_eq!(items[1].get("name"), Some("two".to_string()));
    assert_eq!(items[1].get("raw"), Some("<b>two</b>".to_string()));
}

#[test]
fn extract_items_invalid_regex_keeps_raw_value() {
    let html = "<p>abc</p>";
    let items = extract_items(html, &vec![rule("p", "p", "text", Some("("))], None);
    assert_eq!(items[0].get("p"), Some("abc".to_string()));
}

#[test]
fn extract_items_no_rules_gives_nothing() {
    let items = extract_items("<p>abc</p>", &vec![], None);
    assert!(items.is_empty());
}

#[test]
fn extract_links_resolves_against_page() {
    let html = "<a href='a.html'>1</a><a href='//cdn.example.org/x'>2</a><a href='http://abs.example.net/'>3</a><a>none</a>";
    let links = extract_links(html, "a", "https://example.com/dir/page.html");
    assert_eq!(links, vec![
        "https://example.com/dir/a.html".to_string(),
        "https://cdn.example.org/x".to_string(),
        "http://abs.example.net/".to_string(),
    ]);
    assert!(extract_links(html, "[[", "https://example.com/").is_empty());
}

#[test]
fn resolve_url_falls_back_to_joining() {
    assert_eq!(resolve_url("/x", "not a url/"), "not a url/x");
    assert_eq!(resolve_url("b", "https://example.com/a/"), "https://example.com/a/b");
}

#[test]
fn validate_config_reports_each_problem() {
    assert_eq!(validate_config(&config(&[], vec![rule("a", "p", "text", None)])),
        Err("At least one start URL is required".to_string()));
    assert_eq!(validate_config(&config(&["nope"], vec![rule("a", "p", "text", None)])),
        Err("Invalid start URL: nope".to_string()));
    assert_eq!(validate_config(&config(&["https://example.com"], vec![])),
        Err("At least one field extraction rule is required".to_string()));
    assert_eq!(validate_config(&config(&["https://example.com"], vec![rule("", "p", "text", None)])),
        Err("Field rule name cannot be empty".to_string()));
    assert_eq!(validate_config(&config(&["https://example.com"], vec![rule("a", "", "text", None)])),
        Err("CSS selector for field 'a' cannot be empty".to_string()));
    let bad = validate_config(&config(&["https://example.com"], vec![rule("a", "p", "text", Some("("))]));
    assert!(bad.unwrap_err().starts_with("Invalid regex for field 'a': "));
    let mut c = config(&["https://example.com"], vec![rule("a", "p", "text", None)]);
    c.crawl_rules = vec![CrawlRule { link_selector: String::new(), url_pattern: None }];
    assert_eq!(validate_config(&c), Err("Crawl rule link selector cannot be empty".to_string()));
    c.crawl_rules = vec![CrawlRule { link_selector: "a".to_string(), url_pattern: Some("[".to_string()) }];
    assert!(validate_config(&c).unwrap_err().starts_with("Invalid URL pattern in crawl rule: "));
    c.crawl_rules = vec![];
    c.concurrency = 0;
    assert_eq!(validate_config(&c), Err("Concurrency must be at least 1".to_string()));
    c.concurrency = 2;
    assert_eq!(validate_config(&c), Ok(()));
}

#[test]
fn spider_config_defaults() {
    let c = SpiderConfig::default();
    assert_eq!(c.name, "default");
    assert_eq!(c.max_pages, 50);
    assert_eq!(c.concurrency, 4);
    assert_eq!(c.request_delay_ms, 1000);
    assert!(c.respect_robots);
    assert!(c.user_agent.is_none());
}

#[test]
fn robots_rules_apply_to_all_agents() {
    let text = "# comment\nUser-agent: *\nDisallow: /private\nAllow: /private/ok\n";
    assert!(!robots_allows(text, "/private/x"));
    assert!(robots_allows(text, "/private/ok/1"));
    assert!(robots_allows(text, "/public"));
}

#[test]
fn robots_rules_for_other_agents_ignored() {
    let text = "User-agent: Googlebot\r\nDisallow: /\r\nUser-agent: CyberSnatcher\r\ndisallow: /tmp\r\n";
    assert!(robots_allows(text, "/home"));
    assert!(!robots_allows(text, "/tmp/file"));
    assert!(robots_allows("", "/anything"));
}

#[test]
fn robots_location_from_url() {
    assert_eq!(robots_location("https://example.com/a/b?q=1"),
        Some(("https://example.com/robots.txt".to_string(), "/a/b".to_string())));
    assert_eq!(robots_location("not a url"), None);
    assert!(default_user_agent().starts_with("CyberSnatcher/1.0"));
}

#[test]
fn ensure_extension_adds_only_when_missing() {
    assert_eq!(ensure_extension("out", "json"), "out.json");
    assert_eq!(ensure_extension("out.csv", "json"), "out.csv");
    assert_eq!(ensure_extension(".hidden", "json"), ".hidden.json");
    assert_eq!(ensure_extension("dir.v1/file", "jsonl"), "dir.v1/file.jsonl");
}

#[test]
fn export_plans_per_format() {
    let items = vec![item(&[("b", "2"), ("a", "1")]), item(&[("c", "3")])];
    match export_items(&items, "/tmp/data", &ExportFormat::Json) {
        ExportPlan::Json { path } => assert_eq!(path, "/tmp/data.json"),
        _ => panic!("wrong plan"),
    }
    match export_items(&items, "/tmp/data", &ExportFormat::JsonLines) {
        ExportPlan::JsonLines { path } => assert_eq!(path, "/tmp/data.jsonl"),
        _ => panic!("wrong plan"),
    }
    match export_items(&items, "/tmp/data.txt", &ExportFormat::Csv) {
        ExportPlan::Csv { path, headers, rows } => {
            assert_eq!(path, "/tmp/data.txt");
            assert_eq!(headers, vec!["a".to_string(), "b".to_string(), "c".to_string()]);
            assert_eq!(rows, vec![
                vec!["1".to_string(), "2".to_string(), "".to_string()],
                vec!["".to_string(), "".to_string(), "3".to_string()],
            ]);
        },
        _ => panic!("wrong plan"),
    }
}

#[test]
fn csv_table_of_no_items_is_empty() {
    let (headers, rows) = csv_table(&[]);
    assert!(headers.is_empty());
    assert!(rows.is_empty());
}

#[test]
fn crawl_rejects_bad_config() {
    match start_crawl("job".to_string(), config(&[], vec![])) {
        CrawlStart::Rejected { progress, result } => {
            assert_eq!(progress.status, "error");
            assert_eq!(progress.log_line, "Config error: At least one start URL is required");
            assert_eq!(result.errors, vec!["At least one start URL is required".to_string()]);
            assert!(result.items.is_empty());
        },
        CrawlStart::Ready(_) => panic!("should be rejected"),
    }
    let r = client_failed("j".to_string(), "boom".to_string());
    assert_eq!(r.errors, vec!["boom".to_string()]);
}

fn ready(c: SpiderConfig) -> Crawl {
    match start_crawl("job".to_string(), c) {
        CrawlStart::Ready(c) => c,
        CrawlStart::Rejected { .. } => panic!("should start"),
    }
}

#[test]
fn crawl_takes_urls_from_the_end_once() {
    let mut c = ready(config(&["https://a.example/", "https://b.example/", "https://a.example/"], vec![rule("t", "h1", "text", None)]));
    assert_eq!(c.next_url(), Some("https://a.example/".to_string()));
    assert_eq!(c.next_url(), Some("https://b.example/".to_string()));
    assert_eq!(c.next_url(), None);
}

#[test]
fn crawl_respects_page_limit() {
    let mut cfg = config(&["https://a.example/", "https://b.example/"], vec![rule("t", "h1", "text", None)]);
    cfg.max_pages = 1;
    let mut c = ready(cfg);
    let url = c.next_url().unwrap();
    let p = c.page(&url, "<h1>Hi</h1>");
    assert_eq!(p.status, "scraped");
    assert_eq!(p.pages_crawled, 1);
    assert_eq!(p.log_line, format!("Scraped {} (total items: 1)", url));
    assert_eq!(c.next_url(), None);
}

#[test]
fn crawl_follows_matching_links_and_finishes() {
    let mut cfg = config(&["https://site.example/list"], vec![rule("t", "h1", "text", None)]);
    cfg.crawl_rules = vec![CrawlRule { link_selector: "a".to_string(), url_pattern: Some("page".to_string()) }];
    let mut c = ready(cfg);
    let url = c.next_url().unwrap();
    let f = c.fetching(&url);
    assert_eq!(f.status, "crawling");
    assert_eq!(f.log_line, "Fetching: https://site.example/list");
    assert_eq!(f.pages_total, 1);
    c.page(&url, "<h1> A </h1><a href='/page2'>n</a><a href='/other'>o</a><a href='/list'>self</a>");
    assert_eq!(c.queue, vec!["https://site.example/page2".to_string()]);
    assert!(c.should_pause());
    let next = c.next_url().unwrap();
    let e = c.http_error(&next, "404 Not Found");
    assert_eq!(e.log_line, "HTTP 404 Not Found for https://site.example/page2");
    c.body_error("u", "eof");
    let r = c.request_error("v", "timeout");
    assert_eq!(r.log_line, "Request failed for v: timeout");
    let b = c.blocked("w");
    assert_eq!(b.log_line, "Blocked by robots.txt: w");
    assert_eq!(c.next_url(), None);
    let (done, result) = c.finish();
    assert_eq!(done.status, "complete");
    assert_eq!(done.log_line, "Done! Crawled 1 pages, scraped 1 items, 3 errors");
    assert_eq!(result.items.len(), 1);
    assert_eq!(result.items[0].get("t"), Some("A".to_string()));
    assert_eq!(result.errors[1], "Failed to read body from u: eof");
}

#[test]
fn csv_headers_in_character_order() {
    let items = vec![item(&[("title", "x"), ("Price", "1")]), item(&[("_id", "7"), ("title", "y")])];
    let (headers, rows) = csv_table(&items);
    assert_eq!(headers, vec!["Price".to_string(), "_id".to_string(), "title".to_string()]);
    assert_eq!(rows[1], vec!["".to_string(), "7".to_string(), "y".to_string()]);
}

#[test]
fn regex_filter_takes_group_one_else_whole_match() {
    let html = "<html><body><p>Price 42 USD</p><h2>abc</h2></body></html>";
    let rules = vec![
        rule("price", "p", "text", Some(r"(x)?\d+")),
        rule("unit", "p", "text", Some(r"\d+ (USD)")),
        rule("none", "h2", "text", Some(r"\d+")),
        rule("bad", "h2", "text", Some(r"(")),
    ];
    let items = extract_items(html, &rules, None);
    assert_eq!(fields(&items[0]), vec![
        ("price".to_string(), "42".to_string()),
        ("unit".to_string(), "USD".to_string()),
        ("none".to_string(), "abc".to_string()),
        ("bad".to_string(), "abc".to_string()),
    ]);
}
