use rust_crawler::crawler::Crawler;
use rust_crawler::extract::extract_links;
use rust_crawler::urls::CrawlUrl;

/// Drive a whole crawl over a fake site: `pages` maps a canonical URL text to
/// its body, a missing entry standing for a failed fetch. Returns the visited
/// URL texts in processing order and the URLs handed out for fetching.
fn run_crawl(seed: &str, pages: &[(&str, &str)]) -> (Vec<String>, Vec<String>) {
    let seed_url = CrawlUrl::parse(seed).expect("seed must parse");
    let mut crawler = Crawler::new(seed_url);
    let mut fetched: Vec<String> = Vec::new();
    while let Some(u) = crawler.take_next() {
        fetched.push(u.text.clone());
        let mut body: Option<&str> = None;
        for (page, b) in pages {
            if *page == u.text.as_str() {
                body = Some(*b);
            }
        }
        crawler.process(&u, body);
    }
    let visited = crawler
        .visited_pages()
        .iter()
        .map(|u| u.text.clone())
        .collect();
    (visited, fetched)
}

#[test]
fn parse_seed_url() {
    let u = CrawlUrl::parse("http://example.com/a/b").expect("must parse");
    assert_eq!(u.text, "http://example.com/a/b");
    assert_eq!(u.host, "example.com");
}

#[test]
fn parse_rejects_relative_and_hostless() {
    assert!(CrawlUrl::parse("not a url").is_none());
    assert!(CrawlUrl::parse("/just/a/path").is_none());
    assert!(CrawlUrl::parse("mailto:someone@example.com").is_none());
}

#[test]
fn parse_normalizes_fragment_and_host_case() {
    let u = CrawlUrl::parse("http://EXAMPLE.com/page#section").expect("must parse");
    assert_eq!(u.text, "http://example.com/page");
    assert_eq!(u.host, "example.com");
}

#[test]
fn resolve_parent_relative_href() {
    let base = CrawlUrl::parse("http://example.com/a/b").expect("must parse");
    let r = base.resolve("../c").expect("must resolve");
    assert_eq!(r.text, "http://example.com/c");
    assert_eq!(r.host, "example.com");
}

#[test]
fn resolve_root_relative_href() {
    let base = CrawlUrl::parse("http://example.com/a/b").expect("must parse");
    let r = base.resolve("/d").expect("must resolve");
    assert_eq!(r.text, "http://example.com/d");
}

#[test]
fn resolve_absolute_href_leaves_scope() {
    let base = CrawlUrl::parse("http://example.com/a/b").expect("must parse");
    let r = base.resolve("https://other.com/x").expect("must resolve");
    assert_eq!(r.text, "https://other.com/x");
    assert_eq!(r.host, "other.com");
    assert!(!r.on_host(&String::from("example.com")));
}

#[test]
fn resolve_drops_mailto_and_garbage() {
    let base = CrawlUrl::parse("http://example.com/").expect("must parse");
    assert!(base.resolve("mailto:someone@example.com").is_none());
    assert!(base.resolve("http://").is_none());
}

#[test]
fn resolve_fragment_only_href_is_page_itself() {
    let base = CrawlUrl::parse("http://example.com/page").expect("must parse");
    let r = base.resolve("#top").expect("must resolve");
    assert_eq!(r.text, "http://example.com/page");
}

#[test]
fn same_as_goes_by_canonical_form() {
    let a = CrawlUrl::parse("http://example.com/p#one").expect("must parse");
    let b = CrawlUrl::parse("http://example.com/p#two").expect("must parse");
    let c = CrawlUrl::parse("http://example.com/q").expect("must parse");
    assert!(a.same_as(&b));
    assert!(!a.same_as(&c));
}

#[test]
fn extract_links_resolves_against_base() {
    let base = CrawlUrl::parse("http://example.com/a/b").expect("must parse");
    let body = r#"<html><body>
        <a href="../c">up</a>
        <a href="/d">root</a>
        <a href="e">sibling</a>
    </body></html>"#;
    let links = extract_links(&base, body);
    let texts: Vec<&str> = links.iter().map(|u| u.text.as_str()).collect();
    assert_eq!(
        texts,
        vec![
            "http://example.com/c",
            "http://example.com/d",
            "http://example.com/a/e",
        ]
    );
}

#[test]
fn extract_links_drops_unresolvable_and_duplicates() {
    let base = CrawlUrl::parse("http://example.com/").expect("must parse");
    let body = r#"<html><body>
        <a href="/p">one</a>
        <a href="mailto:someone@example.com">mail</a>
        <a href="/p">again</a>
        <a href="/p#part">fragment variant</a>
        <a name="anchor-without-href">nothing</a>
        <a href="/q">two</a>
    </body></html>"#;
    let links = extract_links(&base, body);
    let texts: Vec<&str> = links.iter().map(|u| u.text.as_str()).collect();
    assert_eq!(texts, vec!["http://example.com/p", "http://example.com/q"]);
}

#[test]
fn extract_links_twice_yields_same_links() {
    let base = CrawlUrl::parse("http://example.com/dir/").expect("must parse");
    let body = r#"<a href="x">x</a><a href="../y">y</a><a href="https://other.com/">o</a>"#;
    let first = extract_links(&base, body);
    let second = extract_links(&base, body);
    assert_eq!(first.len(), second.len());
    for (a, b) in first.iter().zip(second.iter()) {
        assert!(a.same_as(b));
    }
}

#[test]
fn extract_links_of_plain_text_is_empty() {
    let base = CrawlUrl::parse("http://example.com/").expect("must parse");
    let links = extract_links(&base, "just some text, no anchors");
    assert!(links.is_empty());
}

#[test]
fn end_to_end_crawl_stays_on_host() {
    let (mut visited, fetched) = run_crawl(
        "http://example.com/",
        &[
            (
                "http://example.com/",
                r#"<a href="/about">about</a><a href="https://external.com/">ext</a>"#,
            ),
            ("http://example.com/about", r#"<a href="/">home</a>"#),
        ],
    );
    visited.sort();
    assert_eq!(visited, vec!["http://example.com/", "http://example.com/about"]);
    assert!(!fetched.iter().any(|u| u.contains("external.com")));
}

#[test]
fn each_url_fetched_at_most_once() {
    // A cycle: every page links to every page, itself included.
    let everything = r#"<a href="/">a</a><a href="/b">b</a><a href="/c">c</a>"#;
    let (visited, fetched) = run_crawl(
        "http://example.com/",
        &[
            ("http://example.com/", everything),
            ("http://example.com/b", everything),
            ("http://example.com/c", everything),
        ],
    );
    assert_eq!(visited.len(), 3);
    assert_eq!(fetched.len(), 3);
    for u in &fetched {
        assert_eq!(fetched.iter().filter(|v| *v == u).count(), 1);
    }
}

#[test]
fn failed_fetch_is_isolated() {
    let (mut visited, _) = run_crawl(
        "http://example.com/",
        &[
            (
                "http://example.com/",
                r#"<a href="/broken">broken</a><a href="/fine">fine</a>"#,
            ),
            // no body for /broken: its fetch fails
            ("http://example.com/fine", r#"<a href="/last">last</a>"#),
        ],
    );
    visited.sort();
    assert_eq!(
        visited,
        vec![
            "http://example.com/",
            "http://example.com/broken",
            "http://example.com/fine",
            "http://example.com/last",
        ]
    );
}

#[test]
fn unreachable_seed_is_still_visited() {
    let (visited, fetched) = run_crawl("http://example.com/nowhere", &[]);
    assert_eq!(visited, vec!["http://example.com/nowhere"]);
    assert_eq!(fetched, vec!["http://example.com/nowhere"]);
}

#[test]
fn subdomain_is_a_foreign_host() {
    let (mut visited, _) = run_crawl(
        "http://example.com/",
        &[
            (
                "http://example.com/",
                r#"<a href="http://sub.example.com/">sub</a><a href="/here">here</a>"#,
            ),
            ("http://sub.example.com/", r#"<a href="/elsewhere">x</a>"#),
        ],
    );
    visited.sort();
    assert_eq!(visited, vec!["http://example.com/", "http://example.com/here"]);
}

#[test]
fn https_variant_of_same_host_is_in_scope() {
    let (mut visited, _) = run_crawl(
        "http://example.com/",
        &[(
            "http://example.com/",
            r#"<a href="https://example.com/secure">s</a>"#,
        )],
    );
    visited.sort();
    assert_eq!(
        visited,
        vec!["http://example.com/", "https://example.com/secure"]
    );
}

#[test]
fn traversal_is_breadth_first() {
    let (_, fetched) = run_crawl(
        "http://example.com/",
        &[
            (
                "http://example.com/",
                r#"<a href="/a">a</a><a href="/b">b</a>"#,
            ),
            ("http://example.com/a", r#"<a href="/a1">a1</a>"#),
            ("http://example.com/b", r#"<a href="/b1">b1</a>"#),
        ],
    );
    assert_eq!(
        fetched,
        vec![
            "http://example.com/",
            "http://example.com/a",
            "http://example.com/b",
            "http://example.com/a1",
            "http://example.com/b1",
        ]
    );
}

#[test]
fn visited_record_keeps_processing_order() {
    let (visited, fetched) = run_crawl(
        "http://example.com/",
        &[
            (
                "http://example.com/",
                r#"<a href="/b">b</a><a href="/a">a</a>"#,
            ),
            ("http://example.com/a", ""),
            ("http://example.com/b", ""),
        ],
    );
    assert_eq!(visited, fetched);
    assert_eq!(
        visited,
        vec![
            "http://example.com/",
            "http://example.com/b",
            "http://example.com/a",
        ]
    );
}

#[test]
fn duplicate_queue_entries_processed_once() {
    // Both pages link to /shared: it is enqueued twice, processed once.
    let mut crawler = Crawler::new(CrawlUrl::parse("http://example.com/").expect("must parse"));
    let root = crawler.take_next().expect("seed is queued");
    crawler.process(
        &root,
        Some(r#"<a href="/a">a</a><a href="/b">b</a>"#),
    );
    let a = crawler.take_next().expect("a is queued");
    crawler.process(&a, Some(r#"<a href="/shared">s</a>"#));
    let b = crawler.take_next().expect("b is queued");
    crawler.process(&b, Some(r#"<a href="/shared">s</a>"#));
    let shared = crawler.take_next().expect("shared is queued");
    assert_eq!(shared.text, "http://example.com/shared");
    crawler.process(&shared, None);
    assert!(crawler.take_next().is_none());
    assert_eq!(crawler.visited_pages().len(), 4);
}

#[test]
fn is_visited_tracks_processing() {
    let seed = CrawlUrl::parse("http://example.com/").expect("must parse");
    let mut crawler = Crawler::new(seed.clone());
    assert!(!crawler.is_visited(&seed));
    let u = crawler.take_next().expect("seed is queued");
    crawler.process(&u, None);
    assert!(crawler.is_visited(&seed));
}
