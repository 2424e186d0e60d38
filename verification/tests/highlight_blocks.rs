use squid::highlight::unknown_theme_warning;
use squid::sitemap::xml_escape;
use squid::highlight::{highlight_code_blocks, unescape, DEFAULT_THEME};

const RUST_BLOCK: &str =
    "<pre><code class=\"language-rust\">let x = &quot;hi&quot;;\n</code></pre>";

#[test]
fn test_highlights_known_language() {
    let result = highlight_code_blocks(RUST_BLOCK, DEFAULT_THEME);
    assert!(result.contains("style="), "{result}");
    assert!(!result.contains("language-rust"), "{result}");
}

#[test]
fn test_theme_none_disables_highlighting() {
    let result = highlight_code_blocks(RUST_BLOCK, "none");
    assert_eq!(result, RUST_BLOCK);
}

#[test]
fn test_unknown_theme_keeps_html() {
    let result = highlight_code_blocks(RUST_BLOCK, "definitely-not-a-theme");
    assert_eq!(result, RUST_BLOCK);
}

#[test]
fn test_unknown_language_falls_back_to_plain() {
    let html = "<pre><code class=\"language-nosuchlang\">plain text</code></pre>";
    let result = highlight_code_blocks(html, DEFAULT_THEME);
    assert!(result.contains("plain text"), "{result}");
}

#[test]
fn test_blocks_without_language_untouched() {
    let html = "<pre><code>no language</code></pre>";
    let result = highlight_code_blocks(html, DEFAULT_THEME);
    assert_eq!(result, html);
}

#[test]
fn test_unescape_restores_entities() {
    assert_eq!(
        unescape("&lt;T&gt; &amp;&amp; &quot;s&quot;"),
        "<T> && \"s\""
    );
}

// ---------------------------------------------------------------------------
// Further cases
// ---------------------------------------------------------------------------

#[test]
fn unescape_undoes_ampersands_last() {
    assert_eq!(unescape("&amp;lt; &#39;a&#x27;"), "&lt; 'a'");
    assert_eq!(unescape("no entities"), "no entities");
}

#[test]
fn surrounding_text_is_kept_and_each_block_is_replaced() {
    let html = format!("<p>before</p>{RUST_BLOCK}<p>middle</p>{RUST_BLOCK}<p>after</p>");
    let result = highlight_code_blocks(&html, DEFAULT_THEME);
    assert!(result.starts_with("<p>before</p>"), "{result}");
    assert!(result.ends_with("<p>after</p>"), "{result}");
    assert!(result.contains("<p>middle</p>"), "{result}");
    assert!(!result.contains("language-rust"), "{result}");
    assert_eq!(result.matches("<pre").count(), 2, "{result}");
}

#[test]
fn unclosed_or_empty_language_blocks_are_untouched() {
    let unclosed = "<pre><code class=\"language-rust\">fn main() {}";
    assert_eq!(highlight_code_blocks(unclosed, DEFAULT_THEME), unclosed);
    let no_lang = "<pre><code class=\"language-\">x</code></pre>";
    assert_eq!(highlight_code_blocks(no_lang, DEFAULT_THEME), no_lang);
}

#[test]
fn unescape_undoes_the_xml_escape() {
    for s in ["a<b>&\"c", "&lt;", "&amp;amp;", "plain", "", "<pre>&#39;</pre>"] {
        assert_eq!(unescape(&xml_escape(s)), s);
    }
    // a single quote is escaped as &apos;, which unescaping leaves alone
    assert_eq!(unescape(&xml_escape("'")), "&apos;");
}

#[test]
fn unknown_theme_warning_names_the_themes() {
    assert_eq!(unknown_theme_warning("none"), None);
    assert_eq!(unknown_theme_warning(DEFAULT_THEME), None);
    let w = unknown_theme_warning("definitely-not-a-theme").unwrap();
    assert!(w.starts_with("unknown code_theme 'definitely-not-a-theme', skipping highlighting (available: "), "{w}");
    assert!(w.contains("InspiredGitHub"), "{w}");
    assert!(w.ends_with(", or 'none')"), "{w}");
}
