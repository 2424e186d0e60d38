use squid::md::{MarkdownCollection, MarkdownDocument};
use squid::tags::{collect_tags, slugify, tags_state};
use squid::value::TinyLangType;
use std::collections::HashMap;
use std::path::PathBuf;

fn make_doc(name: &str, tags: &str) -> MarkdownDocument {
    let content = format!("---\ntitle: {name}\ntags: {tags}\n---\nBody");
    MarkdownDocument::new(
        &content,
        format!("{name}.md"),
        format!("/posts/{name}.html"),
    )
    .unwrap()
}

fn make_collections(docs: Vec<MarkdownDocument>) -> HashMap<String, MarkdownCollection> {
    let mut coll = MarkdownCollection::new(PathBuf::from("posts"));
    coll.collection = docs;
    let mut collections = HashMap::new();
    collections.insert("posts".to_string(), coll);
    collections
}

#[test]
fn test_slugify() {
    assert_eq!(slugify("Rust & WebAssembly!"), "rust-webassembly");
    assert_eq!(slugify("simple"), "simple");
    assert_eq!(slugify("  spaced  out  "), "spaced-out");
    assert_eq!(slugify("CamelCase"), "camelcase");
}

#[test]
fn test_collect_tags_groups_documents() {
    let collections = make_collections(vec![make_doc("a", "rust, web"), make_doc("b", "rust")]);
    let tags = collect_tags(&collections, false);

    assert_eq!(tags.len(), 2);
    // ordered by name: rust before web
    assert_eq!(tags[0].name, "rust");
    assert_eq!(tags[0].documents.len(), 2);
    assert_eq!(tags[1].name, "web");
    assert_eq!(tags[1].documents.len(), 1);
}

#[test]
fn test_collect_tags_empty_when_no_tags() {
    let content = "---\ntitle: untagged\n---\nBody";
    let doc = MarkdownDocument::new(content, "u.md".into(), "/posts/u.html".into()).unwrap();
    let tags = collect_tags(&make_collections(vec![doc]), false);
    assert!(tags.is_empty());
}

#[test]
fn test_tag_state_shape() {
    let collections = make_collections(vec![make_doc("a", "rust")]);
    let tags = collect_tags(&collections, false);
    let state = tags[0].as_tinylang_state();

    assert!(matches!(state.get("name"), Some(TinyLangType::String(s)) if s == "rust"));
    assert!(
        matches!(state.get("uri"), Some(TinyLangType::String(s)) if s == "/tags/rust.html")
    );
    assert!(matches!(state.get("size"), Some(TinyLangType::Numeric(n)) if *n == 1));
    assert!(matches!(state.get("items"), Some(TinyLangType::Vec(v)) if v.len() == 1));
}

#[test]
fn test_tag_pretty_urls() {
    let collections = make_collections(vec![make_doc("a", "rust")]);
    let tags = collect_tags(&collections, true);
    assert_eq!(tags[0].uri, "/tags/rust/");
    assert_eq!(tags[0].output_name, "rust/index.html");
}

// ---------------------------------------------------------------------------
// Further cases
// ---------------------------------------------------------------------------

#[test]
fn slugify_handles_digits_unicode_and_empty_text() {
    assert_eq!(slugify(""), "");
    assert_eq!(slugify("!!!"), "");
    assert_eq!(slugify("Top 10 Tips"), "top-10-tips");
    assert_eq!(slugify("Ünïcödé Straße"), "ünïcödé-straße");
    // slugging twice changes nothing for ascii text
    let once = slugify("--Hello,   World--");
    assert_eq!(once, "hello-world");
    assert_eq!(slugify(&once), once);
}

#[test]
fn documents_read_their_frontmatter() {
    let doc = MarkdownDocument::new(
        "---\ntitle:  Hello World \ntags: [rust, web]\nno colon here\n---\nline one\nline two",
        "hello.md".into(),
        "/posts/hello.html".into(),
    )
    .unwrap();
    assert_eq!(doc.meta("title").map(|s| s.as_str()), Some("Hello World"));
    assert_eq!(doc.tags(), vec!["rust".to_string(), "web".to_string()]);
    assert_eq!(doc.content, "line one\nline two");
    let state = doc.as_tinylang_state();
    assert!(matches!(state.get("title"), Some(TinyLangType::String(s)) if s == "Hello World"));
    assert!(matches!(state.get("uri"), Some(TinyLangType::String(s)) if s == "/posts/hello.html"));
    assert!(matches!(state.get("content"), Some(TinyLangType::String(s)) if s == "line one\nline two"));
    assert!(state.get("missing").is_none());
}

#[test]
fn documents_without_frontmatter_or_with_an_open_one() {
    let doc = MarkdownDocument::new("just text", "t.md".into(), "/t.html".into()).unwrap();
    assert!(doc.metadata.is_empty());
    assert_eq!(doc.content, "just text");
    assert!(doc.tags().is_empty());
    assert!(MarkdownDocument::new("---\ntitle: x\nno end", "x.md".into(), "/x.html".into()).is_none());
    let empty_header = MarkdownDocument::new("---\n---\nbody", "e.md".into(), "/e.html".into()).unwrap();
    assert!(empty_header.metadata.is_empty());
    assert_eq!(empty_header.content, "body");
}

#[test]
fn later_frontmatter_entries_win_and_empty_tags_are_dropped() {
    let doc = MarkdownDocument::new(
        "---\ntags: old\ntags: a,, b ,\n---\n",
        "d.md".into(),
        "/d.html".into(),
    )
    .unwrap();
    assert_eq!(doc.tags(), vec!["a".to_string(), "b".to_string()]);
    assert_eq!(doc.content, "");
}

#[test]
fn tags_keep_document_order_and_repeat_declarations() {
    let collections = make_collections(vec![
        make_doc("first", "Zed, alpha"),
        make_doc("second", "alpha, alpha"),
    ]);
    let tags = collect_tags(&collections, false);
    assert_eq!(tags.len(), 2);
    assert_eq!(tags[0].name, "Zed");
    assert_eq!(tags[0].slug, "zed");
    assert_eq!(tags[1].name, "alpha");
    let uris: Vec<&str> = tags[1].documents.iter().map(|d| d.uri.as_str()).collect();
    assert_eq!(uris, vec!["/posts/first.html", "/posts/second.html", "/posts/second.html"]);
    let TinyLangType::Vec(all) = tags_state(&tags) else {
        panic!("expected vec");
    };
    assert_eq!(all.len(), 2);
    assert!(matches!(&all[1], TinyLangType::Object(o)
        if matches!(o.get("size"), Some(TinyLangType::Numeric(3)))));
    assert!(matches!(&all[0], TinyLangType::Object(o)
        if matches!(o.get("slug"), Some(TinyLangType::String(s)) if s == "zed")));
}

#[test]
fn slug_is_empty_only_without_alphanumerics() {
    assert_eq!(slugify("!!! ---"), "");
    assert_eq!(slugify(""), "");
    assert_eq!(slugify("Élan vital"), "élan-vital");
    assert!(!slugify("İ").is_empty());
}
