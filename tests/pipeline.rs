use html2rss::dom::parse_html;
use html2rss::extract::{
    build_candidate_list, extract_article_elements, filter_items, find_linked_feed, is_error_page,
    item_from_doc, looks_like_single_article,
};
use html2rss::extract::ld_blocks;
use html2rss::jsonld::extract_from_json_ld;
use html2rss::feed::{format_pub_date, render_rss, sanitize_text};
use html2rss::item::Item;
use html2rss::pipeline::{
    backoff_ms, finish_crawl, local_stages, next_listing_anchor, plan_candidate, start_step, structured_items,
    CandidateAction, RunError, StartStep,
};
use html2rss::text::fix_mojibake;
use html2rss::urls::{
    allowed_domain, canonicalize_url_str, extract_inner_query_url, is_blacklisted_url, is_entry_url_exec, is_listing_page,
    normalize_maybe_url, parse_url, WebUrl,
};

fn url(s: &str) -> WebUrl {
    parse_url(s).expect("test URL parses")
}

fn item(title: &str, link: &str) -> Item {
    Item { title: title.to_string(), link: link.to_string(), description: None, pub_date: None, image: None }
}

#[test]
fn canonicalize_drops_fragment_and_tracking() {
    assert_eq!(canonicalize_url_str("https://ex.com/a?utm_source=x&id=3&fbclid=z#top"), "https://ex.com/a?id=3");
    assert_eq!(canonicalize_url_str("https://ex.com/a?UTM_medium=y"), "https://ex.com/a");
}

#[test]
fn canonicalize_keeps_text_that_is_no_url() {
    assert_eq!(canonicalize_url_str("not a url"), "not a url");
    assert_eq!(canonicalize_url_str(""), "");
}

#[test]
fn canonicalize_twice_is_canonicalize_once() {
    for s in ["https://ex.com/a?utm_source=x&b=1#f", "https://EX.com/x/../y?gclid=1", "junk", "https://ex.com/?a=%20b"] {
        let once = canonicalize_url_str(s);
        assert_eq!(canonicalize_url_str(&once), once);
    }
}

#[test]
fn normalize_repairs_mojibake() {
    assert_eq!(fix_mojibake("CafÃ©"), "Café");
    assert_eq!(fix_mojibake("Ã¼ber alles"), "über alles");
    assert_eq!(fix_mojibake("plain text"), "plain text");
}

#[test]
fn normalize_collapses_white_space_and_applies_nfkc() {
    assert_eq!(fix_mojibake("  a \n\t b\u{00A0}c  "), "a b c");
    assert_eq!(fix_mojibake("\u{FB01}ne"), "fine");
    assert_eq!(fix_mojibake(""), "");
}

#[test]
fn normalize_twice_is_normalize_once() {
    for s in ["  Hello   World ", "CafÃ©  au lait", "plain", "\u{FB01} x\u{3000}y"] {
        let once = fix_mojibake(s);
        assert_eq!(fix_mojibake(&once), once);
    }
}

#[test]
fn dedup_keeps_first_seen_order() {
    let base = url("https://ex.com/");
    let a = "https://ex.com/2024/05/01/alpha";
    let b = "https://ex.com/2024/05/01/beta";
    let c = "https://ex.com/2024/05/01/gamma";
    let mut items = vec![item("A", a), item("B", b), item("A again", &format!("{}?utm_source=x#frag", a)), item("C", c)];
    filter_items(&base, &mut items);
    let links: Vec<&str> = items.iter().map(|i| i.link.as_str()).collect();
    assert_eq!(links, vec![a, b, c]);
    let titles: Vec<&str> = items.iter().map(|i| i.title.as_str()).collect();
    assert_eq!(titles, vec!["A", "B", "C"]);
}

#[test]
fn filter_drops_promotions_and_shops() {
    let base = url("https://ex.com/");
    let mut items = vec![
        item("Subscribe now", "https://ex.com/2024/05/01/x"),
        item("Shop", "https://ex.com/store/2024/05/01/y"),
        item("Fine story", "https://ex.com/2024/05/01/z"),
    ];
    filter_items(&base, &mut items);
    assert_eq!(items.len(), 1);
    assert_eq!(items[0].title, "Fine story");
}

#[test]
fn listing_page_boundaries() {
    let base = url("https://ex.com/");
    assert!(is_listing_page(&url("https://ex.com/"), &base));
    assert!(!is_listing_page(&url("https://ex.com/2024/05/01/story-title"), &base));
    assert!(is_listing_page(&url("https://ex.com/news"), &base));
    assert!(is_listing_page(&url("https://ex.com/world/news/today/more/than/two"), &base));
    assert!(is_listing_page(&url("https://ex.com/politics"), &base));
    assert!(!is_listing_page(&url("https://ex.com/article/x"), &base));
    assert!(!is_listing_page(&url("https://ex.com/a/2024-05-01"), &base));
    assert!(!is_listing_page(&url("https://other.com/"), &base));
}

#[test]
fn newsletter_links_are_rejected() {
    let base = url("https://ex.com/");
    assert!(is_blacklisted_url(&url("https://ex.com/newsletter")));
    assert!(is_blacklisted_url(&url("https://ex.com/2024/05/01/Newsletter-signup")));
    assert!(is_blacklisted_url(&url("https://ex.com/x?ref=subscribe")));
    assert!(is_blacklisted_url(&url("https://ex.com/x?jobs")));
    assert!(is_blacklisted_url(&url("https://ex.com/company/about-us")));
    assert!(!is_blacklisted_url(&url("https://ex.com/2024/05/01/story")));
    let mut items = vec![item("Weekly digest", "https://ex.com/2024/05/01/newsletter/issue-3")];
    filter_items(&base, &mut items);
    assert!(items.is_empty());
}

#[test]
fn linked_feed_is_found() {
    let base = url("https://ex.com/page");
    let nodes = parse_html(r#"<html><head><link rel="alternate" type="application/rss+xml" href="/feed"></head><body></body></html>"#);
    let feed = find_linked_feed(&nodes, &base).expect("a feed link");
    assert_eq!(feed.href, "https://ex.com/feed");
    let none = parse_html(r#"<html><head><link rel="stylesheet" href="/s.css"></head></html>"#);
    assert!(find_linked_feed(&none, &base).is_none());
}

#[test]
fn structured_data_graph_gives_one_item() {
    let base = url("https://ex.com/");
    let html = r#"<html><head><script type="application/ld+json">{"@graph":[{"@type":"NewsArticle","headline":"Test","url":"/a"},{"@type":"WebSite","name":"Site"}]}</script></head><body></body></html>"#;
    let nodes = parse_html(html);
    let found = extract_from_json_ld(&ld_blocks(&nodes), &base).expect("JSON-LD items");
    assert_eq!(found.len(), 1);
    assert_eq!(found[0].title, "Test");
    assert_eq!(found[0].link, "https://ex.com/a");
    // a one-segment path is a listing page of the site, so the start-page check drops it
    assert!(structured_items(&nodes, &base).is_empty());
    let dated = parse_html(r#"<script type="application/ld+json">{"@graph":[{"@type":"NewsArticle","headline":"Test","url":"/2024/05/01/a"}]}</script>"#);
    let items = structured_items(&dated, &base);
    assert_eq!(items.len(), 1);
    let doc = render_rss(&base, &items);
    let expected = "<?xml version=\"1.0\" encoding=\"utf-8\"?>\n<rss version=\"2.0\">\n  <channel>\n    <title>Feed for ex.com</title>\n    <link>https://ex.com/</link>\n    <description>Generated by html2rss</description>\n    <item>\n      <title>Test</title>\n      <link>https://ex.com/2024/05/01/a</link>\n    </item>\n  </channel>\n</rss>";
    assert_eq!(doc, expected);
}

#[test]
fn structured_data_fields_and_image_shapes() {
    let base = url("https://ex.com/");
    let html = r#"<script type="application/ld+json">{"@type":["Thing","Report"],"name":" CafÃ© ","url":"/2024/05/01/r","description":"d","datePublished":"2024-05-01","image":{"url":"/i.png"}}</script>"#;
    let nodes = parse_html(html);
    let items = structured_items(&nodes, &base);
    assert_eq!(items.len(), 1);
    assert_eq!(items[0].title, "Café");
    assert_eq!(items[0].link, "https://ex.com/2024/05/01/r");
    assert_eq!(items[0].description.as_deref(), Some("d"));
    assert_eq!(items[0].pub_date.as_deref(), Some("2024-05-01"));
    assert_eq!(items[0].image.as_deref(), Some("https://ex.com/i.png"));
}

#[test]
fn empty_page_yields_nothing() {
    let base = url("https://ex.com/");
    let nodes = parse_html("<html><head><title>Home</title></head><body><p>Nothing here.</p></body></html>");
    assert!(structured_items(&nodes, &base).is_empty());
    let local = local_stages(&nodes, &base, 20);
    assert!(local.items.is_empty());
    assert!(local.candidates.is_empty());
    assert!(!local.done);
}

#[test]
fn mojibake_title_is_repaired_in_the_feed() {
    let base = url("https://ex.com/");
    let nodes = parse_html(r#"<body><article><h2>CafÃ© opens</h2><a href="/2024/05/01/cafe">more</a><p>Good   news</p></article></body>"#);
    let mut items = Vec::new();
    extract_article_elements(&nodes, &base, 20, &mut items);
    assert_eq!(items.len(), 1);
    assert_eq!(items[0].title, "Café opens");
    assert_eq!(items[0].link, "https://ex.com/2024/05/01/cafe");
    assert_eq!(items[0].description.as_deref(), Some("Good news"));
    let doc = render_rss(&base, &items);
    assert!(doc.contains("<title>Café opens</title>"));
}

#[test]
fn article_elements_stop_at_the_cap() {
    let base = url("https://ex.com/");
    let nodes = parse_html(r#"<article><h1>One</h1><a href="/2024/05/01/a">a</a></article><article><h1>Two</h1><a href="/2024/05/01/b">b</a></article>"#);
    let mut items = Vec::new();
    extract_article_elements(&nodes, &base, 1, &mut items);
    assert_eq!(items.len(), 1);
    let local = local_stages(&nodes, &base, 1);
    assert!(local.done);
    assert_eq!(local.items.len(), 1);
}

#[test]
fn error_pages_are_detected() {
    let nodes = parse_html("<body><p>Hello</p></body>");
    assert!(is_error_page(&nodes, "404 Not Found", &None));
    assert!(is_error_page(&nodes, "Please Sign In", &None));
    assert!(is_error_page(&nodes, "Fine", &Some("Page not found".to_string())));
    assert!(is_error_page(&nodes, "Fine", &Some("Please log in first".to_string())));
    assert!(is_error_page(&nodes, "Fine", &Some("Sorry!".to_string())));
    let ascii = parse_html("<body><div>We're sorry, that failed</div></body>");
    assert!(is_error_page(&ascii, "Fine", &None));
    assert!(!is_error_page(&nodes, "Fine", &None));
    let sorry = parse_html("<body><div>We are sorry, the page is gone</div></body>");
    assert!(is_error_page(&sorry, "Fine", &None));
}

#[test]
fn single_article_metadata() {
    assert!(looks_like_single_article(&parse_html(r#"<head><meta property="og:type" content="Article"></head>"#)));
    assert!(looks_like_single_article(&parse_html(r#"<head><meta name="pubdate" content="x"></head>"#)));
    assert!(!looks_like_single_article(&parse_html(r#"<head><meta property="og:type" content="website"></head>"#)));
}

#[test]
fn candidates_are_scored_and_capped() {
    let base = url("https://ex.com/");
    let html = r#"<body>
        <a href="/about">About</a>
        <a href="/2024/05/01/dated">x</a>
        <a href="/2024/05/01/dated">x again</a>
        <a href="/plain">A headline that is clearly longer than twenty-five characters</a>
        <div class="story-card"><a href="/short">s</a></div>
        <a href="https://other.com/2024/05/01/x">elsewhere</a>
        <a href="/newsletter/2024/05/01/x">junk</a>
    </body>"#;
    let nodes = parse_html(html);
    let c = build_candidate_list(&nodes, &base, 20);
    let hrefs: Vec<&str> = c.iter().map(|u| u.href.as_str()).collect();
    assert_eq!(hrefs, vec!["https://ex.com/2024/05/01/dated", "https://ex.com/plain", "https://ex.com/short"]);
    let capped = build_candidate_list(&nodes, &base, 2);
    assert_eq!(capped.len(), 2);
    assert!(build_candidate_list(&nodes, &base, 0).is_empty());
}

#[test]
fn publisher_entry_shape() {
    let v: Vec<char> = "https://www.huffpost.com/entry/some-story_n_12345".chars().collect();
    assert!(is_entry_url_exec(&v));
    let w: Vec<char> = "https://www.huffpost.com/entry/some-story".chars().collect();
    assert!(!is_entry_url_exec(&w));
    let x: Vec<char> = "https://www.huffpost.com/entry/_12".chars().collect();
    assert!(!is_entry_url_exec(&x));
}

#[test]
fn page_item_from_metadata() {
    let base = url("https://ex.com/");
    let cand = url("https://ex.com/2024/05/01/story");
    let html = r#"<html><head><meta property="og:title" content="Big  Story"><meta name="description" content="About it"><meta property="article:published_time" content="2024-05-01T10:00:00Z"><meta property="og:image" content="/img.jpg"></head><body><h1>Other</h1></body></html>"#;
    let it = item_from_doc(&parse_html(html), &cand, &base).expect("an item");
    assert_eq!(it.title, "Big Story");
    assert_eq!(it.link, "https://ex.com/2024/05/01/story");
    assert_eq!(it.description.as_deref(), Some("About it"));
    assert_eq!(it.pub_date.as_deref(), Some("2024-05-01T10:00:00Z"));
    assert_eq!(it.image.as_deref(), Some("https://ex.com/img.jpg"));
    let fallback = item_from_doc(&parse_html("<html><head><title>Only title</title></head></html>"), &cand, &base).expect("an item");
    assert_eq!(fallback.title, "Only title");
    assert!(item_from_doc(&parse_html("<html><body><p>x</p></body></html>"), &cand, &base).is_none());
    let empty_title = r#"<html><head><meta property="og:title" content="   "></head><body><h1>Heading</h1></body></html>"#;
    assert!(item_from_doc(&parse_html(empty_title), &cand, &base).is_none());
    let blank_heading = "<html><body><h1> \n </h1></body></html>";
    assert!(item_from_doc(&parse_html(blank_heading), &cand, &base).is_none());
    let junk_ld = r#"<script type="application/ld+json">{"@type":"NewsArticle","headline":"Join us","url":"/newsletter/2024/05/01/x"}</script><title>Page title</title>"#;
    let it2 = item_from_doc(&parse_html(junk_ld), &cand, &base).expect("the metadata item");
    assert_eq!(it2.title, "Page title");
    assert_eq!(it2.link, "https://ex.com/2024/05/01/story");
}

#[test]
fn publish_dates_are_rendered_in_rfc2822() {
    assert_eq!(format_pub_date("2024-05-01T10:00:00Z"), "Wed, 1 May 2024 10:00:00 +0000");
    assert_eq!(format_pub_date("Wed, 01 May 2024 10:00:00 +0200"), "Wed, 1 May 2024 10:00:00 +0200");
    assert_eq!(format_pub_date("yesterday"), "yesterday");
    assert_eq!(format_pub_date("Wed, 01 May 12345 10:00:00 +0200"), "Wed, 01 May 12345 10:00:00 +0200");
}

#[test]
fn text_is_sanitized_and_cut() {
    let s: String = sanitize_text("a &amp; b\u{1}c\u{7F}\u{85}\td").into_iter().collect();
    assert_eq!(s, "a & bc\td");
    let once: String = sanitize_text("&amp;amp;").into_iter().collect();
    assert_eq!(once, "&amp;");
    let long = "x".repeat(5000);
    let cut: String = sanitize_text(&long).into_iter().collect();
    assert_eq!(cut, format!("{}\u{2026} (truncated)", "x".repeat(4096)));
    let exact = "y".repeat(4096);
    let kept: String = sanitize_text(&exact).into_iter().collect();
    assert_eq!(kept, exact);
}

#[test]
fn feed_escapes_text_and_writes_enclosures() {
    let base = url("https://ex.com/");
    let mut it = item("Fish & Chips <b>", "https://ex.com/2024/05/01/f");
    it.image = Some("https://ex.com/i.png?a=1&b=2".to_string());
    it.pub_date = Some("2024-05-01T10:00:00Z".to_string());
    let doc = render_rss(&base, &vec![it]);
    assert!(doc.contains("<title>Fish &amp; Chips &lt;b&gt;</title>"));
    assert!(doc.contains("<pubDate>Wed, 1 May 2024 10:00:00 +0000</pubDate>"));
    assert!(doc.contains("<enclosure url=\"https://ex.com/i.png?a=1&amp;b=2\"/>"));
}

#[test]
fn wrapped_links_are_unwrapped() {
    let base = url("https://ex.com/");
    let wrapped = url("https://r.example/go?u=https%3A%2F%2Fex.com%2Fx");
    assert_eq!(extract_inner_query_url(&wrapped).as_deref(), Some("https://ex.com/x"));
    assert_eq!(normalize_maybe_url(&base, "  /img.png ").as_deref(), Some("https://ex.com/img.png"));
    assert_eq!(normalize_maybe_url(&base, "https://t.example/?url=https%3A%2F%2Fex.com%2Fy").as_deref(), Some("https://ex.com/y"));
    assert_eq!(normalize_maybe_url(&base, "   ").as_deref(), None);
    let search = url("https://ex.com/search?u=john");
    assert_eq!(extract_inner_query_url(&search), None);
    assert_eq!(normalize_maybe_url(&base, "https://ex.com/search?u=john").as_deref(), Some("https://ex.com/search?u=john"));
}

#[test]
fn retry_backoff_doubles_and_caps() {
    assert_eq!(backoff_ms(0), 0);
    assert_eq!(backoff_ms(1), 1000);
    assert_eq!(backoff_ms(2), 2000);
    assert_eq!(backoff_ms(4), 8000);
    assert_eq!(backoff_ms(5), 10000);
    assert_eq!(backoff_ms(40), 10000);
}

#[test]
fn candidate_plans_and_listing_links() {
    let base = url("https://ex.com/");
    assert!(matches!(plan_candidate(3, 3, &url("https://ex.com/2024/05/01/a"), &base), CandidateAction::Stop));
    assert!(matches!(plan_candidate(0, 3, &url("https://ex.com/news"), &base), CandidateAction::FetchListing));
    assert!(matches!(plan_candidate(0, 3, &url("https://ex.com/2024/05/01/a"), &base), CandidateAction::FetchArticle));
    let page = url("https://ex.com/news");
    let nodes = parse_html(r#"<a href="/x">x</a><a href="/2024/05/01/a">a</a><a href="https://o.com/2024/05/01/b">b</a><a href="/p"><img src="/i.png"></a>"#);
    let items = vec![item("A", "https://ex.com/2024/05/01/a")];
    let (k, u) = next_listing_anchor(&nodes, &page, &base, &Vec::new(), 0, 5).expect("a link");
    assert_eq!((k, u.href.as_str()), (1, "https://ex.com/2024/05/01/a"));
    let (k2, u2) = next_listing_anchor(&nodes, &page, &base, &items, 0, 5).expect("a link");
    assert_eq!((k2, u2.href.as_str()), (3, "https://ex.com/p"));
    assert!(next_listing_anchor(&nodes, &page, &base, &items, 4, 5).is_none());
    assert!(next_listing_anchor(&nodes, &page, &base, &items, 0, 1).is_none());
}

#[test]
fn allowlist_matches_hosts_and_subdomains() {
    let list = " Example.com , ,other.org";
    assert!(allowed_domain(&url("https://news.example.com/x"), list));
    assert!(allowed_domain(&url("https://EXAMPLE.com/"), list));
    assert!(allowed_domain(&url("https://other.org/"), list));
    assert!(!allowed_domain(&url("https://badexample.com/"), list));
    assert!(!allowed_domain(&url("https://example.com/"), ""));
    assert!(!allowed_domain(&url("mailto:someone@example.com"), list));
}

#[test]
fn repair_falls_back_to_windows_1252_and_stops_after_three_passes() {
    assert_eq!(fix_mojibake("Ã\u{20AC}"), "Ã\u{E2}\u{E2}\u{E2}\u{201A}\u{AC}\u{C5}\u{A1}\u{AC}");
    assert_eq!(fix_mojibake("Ã©Ã"), "Ã©Ã");
}

#[test]
fn start_step_follows_the_stage_order() {
    let base = url("https://ex.com/");
    let both = parse_html(r#"<link rel="alternate" type="application/atom+xml" href="/atom"><script type="application/ld+json">{"@type":"Article","headline":"T","url":"/2024/05/01/t"}</script>"#);
    match start_step(&both, &base, 20, false) {
        StartStep::FetchFeed(u) => assert_eq!(u.href, "https://ex.com/atom"),
        _ => panic!("the feed comes first"),
    }
    match start_step(&both, &base, 20, true) {
        StartStep::Emit(items) => assert_eq!(items[0].title, "T"),
        _ => panic!("structured data comes next"),
    }
    match start_step(&parse_html("<p>nothing</p>"), &base, 20, false) {
        StartStep::Crawl(local) => assert!(local.items.is_empty() && local.candidates.is_empty()),
        _ => panic!("an empty page is crawled"),
    }
}

#[test]
fn finishing_filters_and_reports_no_articles() {
    let base = url("https://ex.com/");
    assert!(matches!(finish_crawl(&base, false, Vec::new()), Err(RunError::NoArticles)));
    let dup = vec![item("A", "https://ex.com/2024/05/01/a"), item("B", "https://ex.com/2024/05/01/a#x")];
    match finish_crawl(&base, false, dup) {
        Ok(v) => assert_eq!(v.len(), 1),
        Err(_) => panic!("one entry is left"),
    }
    let kept = vec![item("A", "https://ex.com/2024/05/01/a"), item("B", "https://ex.com/2024/05/01/a#x")];
    match finish_crawl(&base, true, kept) {
        Ok(v) => assert_eq!(v.len(), 2),
        Err(_) => panic!("a full article stage is kept as it is"),
    }
    let promo = vec![item("Donate today", "https://ex.com/2024/05/01/d")];
    assert!(matches!(finish_crawl(&base, false, promo), Err(RunError::NoArticles)));
}

#[test]
fn structured_nodes_with_blank_titles_are_dropped() {
    let base = url("https://ex.com/");
    let nodes = parse_html(r#"<script type="application/ld+json">[{"@type":"Article","headline":"  ","url":"/2024/05/01/x"},{"@type":"Article","name":"Real","url":"/2024/05/01/y"}]</script>"#);
    let items = structured_items(&nodes, &base);
    assert_eq!(items.len(), 1);
    assert_eq!(items[0].title, "Real");
}
