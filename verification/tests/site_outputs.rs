use squid::rss::{rss_xml, FeedConfig, PostDate, PostMetadata};
use squid::sitemap::{sitemap_xml, xml_escape};

const BUILD_DATE: &str = "Sat, 01 Jun 2024 12:00:00 +0000";

fn make_config() -> FeedConfig {
    FeedConfig {
        title: "My Blog".to_string(),
        description: "A test blog".to_string(),
        website_url: "https://example.com".to_string(),
        language: "en-us".to_string(),
    }
}

/// Midnight UTC of the given day, as seconds since the epoch.
fn midnight(year: i64, month: i64, day: i64) -> i64 {
    // days from civil, proleptic Gregorian calendar
    let y = if month <= 2 { year - 1 } else { year };
    let era = if y >= 0 { y } else { y - 399 } / 400;
    let yoe = y - era * 400;
    let mp = (month + 9) % 12;
    let doy = (153 * mp + 2) / 5 + day - 1;
    let doe = yoe * 365 + yoe / 4 - yoe / 100 + doy;
    (era * 146097 + doe - 719468) * 86400
}

fn make_post(title: &str, year: i64, month: i64, day: i64) -> PostMetadata {
    PostMetadata {
        title: title.to_string(),
        file_name: format!("/posts/{}", title.to_lowercase().replace(' ', "-")),
        date: PostDate { secs: midnight(year, month, day), nanos: 0 },
        excerpt: "excerpt".to_string(),
        html_content: "<p>content</p>".to_string(),
        author: "Author".to_string(),
        tags: vec![],
    }
}

#[test]
fn midnight_matches_known_timestamps() {
    assert_eq!(midnight(1970, 1, 1), 0);
    assert_eq!(midnight(2024, 1, 10), 1704844800);
    assert_eq!(midnight(2024, 6, 1), 1717200000);
}

#[test]
fn test_generate_rss_creates_file_with_content() {
    let posts = vec![make_post("Test Post", 2024, 1, 10)];
    let content = rss_xml(&make_config(), &posts, BUILD_DATE);
    assert!(content.contains("My Blog"));
    assert!(content.contains("Test Post"));
    assert!(content.contains("https://example.com"));
}

#[test]
fn test_generate_rss_sorts_newest_first() {
    let posts = vec![
        make_post("Older Post", 2024, 1, 1),
        make_post("Newer Post", 2024, 6, 1),
    ];
    let content = rss_xml(&make_config(), &posts, BUILD_DATE);
    let newer_pos = content.find("Newer Post").unwrap();
    let older_pos = content.find("Older Post").unwrap();
    assert!(
        newer_pos < older_pos,
        "newer post should appear before older post"
    );
}

#[test]
fn test_generate_rss_empty_posts() {
    let content = rss_xml(&make_config(), &[], BUILD_DATE);
    assert!(content.contains("<channel>"));
    assert!(!content.contains("<item>"));
}

#[test]
fn rss_items_carry_link_guid_and_publication_date() {
    let posts = vec![make_post("Test Post", 2024, 1, 10)];
    let content = rss_xml(&make_config(), &posts, BUILD_DATE);
    assert!(content.contains("<link>https://example.com/posts/test-post</link>"), "{content}");
    assert!(content.contains("<pubDate>Wed, 10 Jan 2024 00:00:00 +0000</pubDate>"), "{content}");
    assert!(content.contains("https://example.com/posts/test-post</guid>"), "{content}");
    assert!(content.contains("<lastBuildDate>Sat, 01 Jun 2024 12:00:00 +0000</lastBuildDate>"), "{content}");
    assert!(content.contains("<generator>Squid</generator>"), "{content}");
    assert!(content.contains("<language>en-us</language>"), "{content}");
}

#[test]
fn rss_posts_of_the_same_instant_keep_their_order() {
    let posts = vec![
        make_post("First Twin", 2024, 3, 3),
        make_post("Oldest", 2023, 3, 3),
        make_post("Second Twin", 2024, 3, 3),
        make_post("Newest", 2025, 3, 3),
    ];
    let content = rss_xml(&make_config(), &posts, BUILD_DATE);
    let newest = content.find("Newest").unwrap();
    let first = content.find("First Twin").unwrap();
    let second = content.find("Second Twin").unwrap();
    let oldest = content.find("Oldest").unwrap();
    assert!(newest < first && first < second && second < oldest, "{content}");
}

#[test]
fn test_generate_sitemap_lists_pages() {
    let content = sitemap_xml(
        "https://example.com",
        vec!["index.html".into(), "posts/hello.html".into()],
    );
    assert!(content.contains("<loc>https://example.com/index.html</loc>"));
    assert!(content.contains("<loc>https://example.com/posts/hello.html</loc>"));
}

#[test]
fn test_generate_sitemap_sorted_and_escaped() {
    let content = sitemap_xml(
        "https://example.com/",
        vec!["b.html".into(), "a&b.html".into()],
    );
    let a = content.find("a&amp;b.html").unwrap();
    let b = content.find("/b.html").unwrap();
    assert!(a < b, "pages should be sorted");
    // no double slash after the base url
    assert!(content.contains("https://example.com/b.html"));
}

#[test]
fn test_generate_sitemap_empty() {
    let content = sitemap_xml("https://example.com", vec![]);
    assert!(content.contains("<urlset"));
}

#[test]
fn sitemap_text_is_exact() {
    let content = sitemap_xml("https://example.com//", vec!["/z.html".into(), "a.html".into()]);
    assert_eq!(
        content,
        "<?xml version=\"1.0\" encoding=\"UTF-8\"?>\n\
         <urlset xmlns=\"http://www.sitemaps.org/schemas/sitemap/0.9\">\n\
         \x20 <url><loc>https://example.com/z.html</loc></url>\n\
         \x20 <url><loc>https://example.com/a.html</loc></url>\n\
         </urlset>\n"
    );
}

#[test]
fn sitemap_is_the_same_whatever_the_build_order() {
    let one = sitemap_xml("https://example.com", vec!["b.html".into(), "a.html".into(), "c.html".into()]);
    let two = sitemap_xml("https://example.com", vec!["c.html".into(), "b.html".into(), "a.html".into()]);
    assert_eq!(one, two);
}

#[test]
fn xml_escape_replaces_the_five_special_characters() {
    assert_eq!(xml_escape("a&b<c>d'e\"f"), "a&amp;b&lt;c&gt;d&apos;e&quot;f");
    assert_eq!(xml_escape("&amp;"), "&amp;amp;");
    assert_eq!(xml_escape("plain"), "plain");
    assert_eq!(xml_escape(""), "");
}
