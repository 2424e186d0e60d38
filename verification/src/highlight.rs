//! Syntax highlighting for fenced code blocks.
//!
//! The markdown renderer emits `<pre><code class="language-X">escaped</code></pre>`
//! for fenced blocks; this module replaces those with syntect-highlighted HTML
//! using inline styles, so no extra CSS is required on the site.
use vstd::prelude::*;
use crate::text::{chars_equal, chars_of, occurs_at, occurs_at_exec, push_all, push_str, replace_all, replaced, string_from_chars, text_lt};

verus! {

/// The theme highlighting uses unless the site configures another.
pub const DEFAULT_THEME: &'static str = "InspiredGitHub";

// ---------------------------------------------------------------------------
// Entities
// ---------------------------------------------------------------------------

/// `code` with the entities the markdown renderer writes in code undone:
/// `&lt;`, `&gt;`, `&quot;`, `&#x27;` and `&#39;` first, `&amp;` last.
pub open spec fn unescaped(code: Seq<char>) -> Seq<char> {
    replaced(
        replaced(
            replaced(replaced(replaced(replaced(code, "&lt;"@, "<"@), "&gt;"@, ">"@), "&quot;"@, "\""@), "&#x27;"@, "'"@),
            "&#39;"@,
            "'"@,
        ),
        "&amp;"@,
        "&"@,
    )
}

fn replace_step(s: &Vec<char>, pat: &str, rep: &str) -> (res: Vec<char>)
    requires
        pat@.len() > 0,
    ensures
        res@ == replaced(s@, pat@, rep@),
{
    let p = chars_of(pat);
    let r = chars_of(rep);
    replace_all(s, &p, &r)
}

fn unescape_chars(code: &Vec<char>) -> (res: Vec<char>)
    ensures
        res@ == unescaped(code@),
{
    proof {
        reveal_strlit("&lt;");
        reveal_strlit("&gt;");
        reveal_strlit("&quot;");
        reveal_strlit("&#x27;");
        reveal_strlit("&#39;");
        reveal_strlit("&amp;");
    }
    let a = replace_step(code, "&lt;", "<");
    let b = replace_step(&a, "&gt;", ">");
    let c = replace_step(&b, "&quot;", "\"");
    let d = replace_step(&c, "&#x27;", "'");
    let e = replace_step(&d, "&#39;", "'");
    replace_step(&e, "&amp;", "&")
}

/// Undoes the entity escaping the markdown renderer applied to code contents.
pub fn unescape(code: &str) -> (res: String)
    ensures
        res@ == unescaped(code@),
{
    let cs = chars_of(code);
    let out = unescape_chars(&cs);
    string_from_chars(out.as_slice())
}

/// Text without `&` is left as it is.
pub proof fn lemma_unescape_plain(code: Seq<char>)
    requires
        forall|i: int| 0 <= i < code.len() ==> code[i] != '&',
    ensures
        unescaped(code) == code,
{
    reveal_strlit("&lt;");
    reveal_strlit("&gt;");
    reveal_strlit("&quot;");
    reveal_strlit("&#x27;");
    reveal_strlit("&#39;");
    reveal_strlit("&amp;");
    lemma_replaced_absent(code, "&lt;"@, "<"@);
    lemma_replaced_absent(code, "&gt;"@, ">"@);
    lemma_replaced_absent(code, "&quot;"@, "\""@);
    lemma_replaced_absent(code, "&#x27;"@, "'"@);
    lemma_replaced_absent(code, "&#39;"@, "'"@);
    lemma_replaced_absent(code, "&amp;"@, "&"@);
}

/// Replacing a pattern that starts with a character the text lacks leaves
/// the text unchanged.
proof fn lemma_replaced_absent(s: Seq<char>, pat: Seq<char>, rep: Seq<char>)
    requires
        pat.len() > 0,
        forall|i: int| 0 <= i < s.len() ==> s[i] != pat[0],
    ensures
        replaced(s, pat, rep) == s,
    decreases s.len(),
{
    if s.len() > 0 {
        assert(!occurs_at(s, 0, pat)) by {
            if occurs_at(s, 0, pat) {
                assert(s.subrange(0, pat.len() as int)[0] == s[0]);
            }
        }
        let rest = s.skip(1);
        assert forall|i: int| 0 <= i < rest.len() implies rest[i] != pat[0] by {
            assert(rest[i] == s[i + 1]);
        }
        lemma_replaced_absent(rest, pat, rep);
        assert(seq![s[0]] + rest =~= s);
    }
}

// ---------------------------------------------------------------------------
// Finding fenced code blocks
// ---------------------------------------------------------------------------

/// The opening of a fenced block with a language.
pub open spec fn block_open() -> Seq<char> {
    "<pre><code class=\"language-"@
}

/// The closing of a fenced block.
pub open spec fn block_close() -> Seq<char> {
    "</code></pre>"@
}

/// The first `"` at or after `i`.
pub open spec fn quote_from(s: Seq<char>, i: int) -> Option<int>
    decreases s.len() - i,
{
    if i < 0 || i >= s.len() {
        None
    } else if s[i] == '"' {
        Some(i)
    } else {
        quote_from(s, i + 1)
    }
}

/// The first closing of a block at or after `i`.
pub open spec fn close_from(s: Seq<char>, i: int) -> Option<int>
    decreases s.len() - i,
{
    if i < 0 || i >= s.len() {
        None
    } else if occurs_at(s, i, block_close()) {
        Some(i)
    } else {
        close_from(s, i + 1)
    }
}

/// The fenced block starting at `p`, if one does: the position of the quote
/// ending its language name and of its closing. This is where the pattern
/// `<pre><code class="language-([^"]+)">(.*?)</code></pre>` matches at `p`:
/// the language runs up to the first quote and must not be empty, and the
/// code runs up to the first closing.
pub open spec fn block_at(s: Seq<char>, p: int) -> Option<(int, int)> {
    if occurs_at(s, p, block_open()) {
        let ls = p + block_open().len();
        match quote_from(s, ls) {
            Some(q) => if q > ls && occurs_at(s, q, "\">"@) {
                match close_from(s, q + 2) {
                    Some(e) => Some((q, e)),
                    None => None,
                }
            } else {
                None
            },
            None => None,
        }
    } else {
        None
    }
}

/// What syntect's `highlighted_html_for_string` gives for `code` in the
/// syntax of the default newline syntax set that `find_syntax_by_token`
/// finds for `lang` (its plain-text syntax for `None`) and the default theme
/// named `theme`: the highlighted HTML, or nothing when highlighting fails.
pub uninterp spec fn highlighted(code: Seq<char>, lang: Option<Seq<char>>, theme: Seq<char>) -> Option<Seq<char>>;

/// Whether syntect's default newline syntax set finds a syntax for the
/// token `lang` with `find_syntax_by_token`.
pub uninterp spec fn syntax_known(lang: Seq<char>) -> bool;

/// Whether syntect's default theme set has a theme named `theme`.
pub uninterp spec fn default_theme_known(theme: Seq<char>) -> bool;

/// The syntax a block is highlighted in: the one its language names when
/// syntect knows it, plain text otherwise.
pub open spec fn syntax_choice(lang: Seq<char>) -> Option<Seq<char>> {
    if syntax_known(lang) {
        Some(lang)
    } else {
        None
    }
}

/// What a fenced block from `p` to `e` becomes: its code, unescaped and
/// highlighted; the block unchanged when highlighting fails.
pub open spec fn block_replacement(s: Seq<char>, p: int, q: int, e: int, theme: Seq<char>) -> Seq<char> {
    let lang = s.subrange(p + block_open().len(), q);
    let code = unescaped(s.subrange(q + 2, e));
    match highlighted(code, syntax_choice(lang), theme) {
        Some(h) => h,
        None => s.subrange(p, e + block_close().len()),
    }
}

/// `s` from position `i` on, with every fenced block highlighted, leftmost
/// first.
pub open spec fn highlight_from(s: Seq<char>, i: int, theme: Seq<char>) -> Seq<char>
    decreases s.len() - i,
{
    if i < 0 || i >= s.len() {
        Seq::empty()
    } else {
        match block_at(s, i) {
            Some((q, e)) => if i < e + block_close().len() <= s.len() {
                block_replacement(s, i, q, e, theme) + highlight_from(s, e + block_close().len(), theme)
            } else {
                Seq::empty()
            },
            None => seq![s[i]] + highlight_from(s, i + 1, theme),
        }
    }
}

/// The names of syntect's default themes: the keys of
/// `ThemeSet::load_defaults().themes`, a `BTreeMap`, which lists each name
/// once in increasing order.
#[verifier::external_body]
fn default_theme_names() -> (res: Vec<String>)
    ensures
        forall|a: int, b: int| 0 <= a < b < res@.len() ==> text_lt(#[trigger] res@[a]@, #[trigger] res@[b]@),
        forall|t: Seq<char>| #[trigger] default_theme_known(t) <==> exists|i: int| 0 <= i < res@.len() && #[trigger] res@[i]@ == t,
{
    syntect::highlighting::ThemeSet::load_defaults().themes.into_keys().collect()
}

/// Whether syntect's default newline syntax set has a syntax for the token
/// `lang`: `find_syntax_by_token(lang).is_some()`. The result is named.
#[verifier::external_body]
fn has_syntax(lang: &str) -> (res: bool)
    ensures
        res == syntax_known(lang@),
{
    syntect::parsing::SyntaxSet::load_defaults_newlines().find_syntax_by_token(lang).is_some()
}

/// syntect's `highlighted_html_for_string` for `code`, with the default
/// newline syntax set, the syntax `find_syntax_by_token` finds for `lang`
/// (`find_syntax_plain_text` for `None`) and the default theme named
/// `theme`. The result is named; a highlighting error gives `None`.
#[verifier::external_body]
fn highlight_snippet(code: &str, lang: Option<&str>, theme: &str) -> (res: Option<String>)
    requires
        default_theme_known(theme@),
        lang matches Some(l) ==> syntax_known(l@),
    ensures
        match res {
            Some(h) => highlighted(code@, opt_chars(lang), theme@) == Some(h@),
            None => highlighted(code@, opt_chars(lang), theme@) is None,
        },
{
    let themes = syntect::highlighting::ThemeSet::load_defaults();
    let syntaxes = syntect::parsing::SyntaxSet::load_defaults_newlines();
    let syntax = match lang {
        Some(l) => syntaxes.find_syntax_by_token(l).expect("syntax_known"),
        None => syntaxes.find_syntax_plain_text(),
    };
    syntect::html::highlighted_html_for_string(code, &syntaxes, syntax, &themes.themes[theme]).ok()
}

/// The text of an optional string slice.
pub open spec fn opt_chars(s: Option<&str>) -> Option<Seq<char>> {
    match s {
        Some(t) => Some(t@),
        None => None,
    }
}

/// Whether `theme` names one of syntect's default themes.
fn theme_known(theme: &str) -> (res: bool)
    ensures
        res == default_theme_known(theme@),
{
    let names = default_theme_names();
    let wanted = chars_of(theme);
    let mut i: usize = 0;
    while i < names.len()
        invariant
            i <= names@.len(),
            wanted@ == theme@,
            forall|t: Seq<char>| #[trigger] default_theme_known(t) <==> exists|k: int| 0 <= k < names@.len() && #[trigger] names@[k]@ == t,
            forall|k: int| 0 <= k < i ==> names@[k]@ != theme@,
        decreases names@.len() - i,
    {
        let name = chars_of(names[i].as_str());
        if chars_equal(&name, &wanted) {
            assert(names@[i as int]@ == theme@);
            assert(default_theme_known(theme@));
            return true;
        }
        i = i + 1;
    }
    false
}

fn find_quote(s: &Vec<char>, from: usize) -> (res: Option<usize>)
    requires
        from <= s@.len(),
    ensures
        match res {
            Some(q) => quote_from(s@, from as int) == Some(q as int) && from <= q < s@.len(),
            None => quote_from(s@, from as int) is None,
        },
{
    let mut i = from;
    while i < s.len()
        invariant
            from <= i <= s@.len(),
            quote_from(s@, from as int) == quote_from(s@, i as int),
        decreases s@.len() - i,
    {
        if s[i] == '"' {
            return Some(i);
        }
        i = i + 1;
    }
    None
}

fn find_close(s: &Vec<char>, from: usize, close: &Vec<char>) -> (res: Option<usize>)
    requires
        from <= s@.len(),
        close@ == block_close(),
    ensures
        match res {
            Some(e) => close_from(s@, from as int) == Some(e as int) && from <= e && occurs_at(s@, e as int, block_close()),
            None => close_from(s@, from as int) is None,
        },
{
    let mut i = from;
    while i < s.len()
        invariant
            from <= i <= s@.len(),
            close@ == block_close(),
            close_from(s@, from as int) == close_from(s@, i as int),
        decreases s@.len() - i,
    {
        if occurs_at_exec(s, i, close) {
            return Some(i);
        }
        i = i + 1;
    }
    None
}

fn find_block(s: &Vec<char>, p: usize, open: &Vec<char>, close: &Vec<char>) -> (res: Option<(usize, usize)>)
    requires
        p < s@.len(),
        open@ == block_open(),
        close@ == block_close(),
    ensures
        match res {
            Some((q, e)) => block_at(s@, p as int) == Some((q as int, e as int)) && p < q && q + 2 <= e
                && e + block_close().len() <= s@.len(),
            None => block_at(s@, p as int) is None,
        },
{
    proof {
        reveal_strlit("<pre><code class=\"language-");
        reveal_strlit("</code></pre>");
        reveal_strlit("\">");
    }
    let n = s.len();
    if !occurs_at_exec(s, p, open) {
        return None;
    }
    assert(p + open@.len() <= n);
    let ls = p + open.len();
    let q = match find_quote(s, ls) {
        Some(q) => q,
        None => return None,
    };
    let tail = chars_of("\">");
    if !(q > ls && occurs_at_exec(s, q, &tail)) {
        return None;
    }
    assert(q + 2 <= n);
    match find_close(s, q + 2, close) {
        Some(e) => Some((q, e)),
        None => None,
    }
}

fn copy_range(s: &Vec<char>, from: usize, to: usize) -> (res: Vec<char>)
    requires
        from <= to <= s@.len(),
    ensures
        res@ == s@.subrange(from as int, to as int),
{
    let mut out: Vec<char> = Vec::new();
    let mut i = from;
    while i < to
        invariant
            from <= i <= to <= s@.len(),
            out@ == s@.subrange(from as int, i as int),
        decreases to - i,
    {
        out.push(s[i]);
        i = i + 1;
        assert(out@ =~= s@.subrange(from as int, i as int));
    }
    out
}

/// What `highlight_code_blocks` makes of `html` with theme `theme`.
pub open spec fn highlighted_page(html: Seq<char>, theme: Seq<char>) -> Seq<char> {
    if theme == "none"@ || !default_theme_known(theme) {
        html
    } else {
        highlight_from(html, 0, theme)
    }
}

/// Replaces fenced code blocks in `html` with syntect-highlighted markup.
/// `theme` is a syntect theme name; "none" disables highlighting and unknown
/// themes leave the document untouched, so a typo in the config never
/// breaks a build.
pub fn highlight_code_blocks(html: &str, theme: &str) -> (res: String)
    ensures
        res@ == highlighted_page(html@, theme@),
{
    let theme_chars = chars_of(theme);
    let none = chars_of("none");
    if chars_equal(&theme_chars, &none) || !theme_known(theme) {
        return crate::text::string_of(html);
    }
    let s = chars_of(html);
    let open = chars_of("<pre><code class=\"language-");
    let close = chars_of("</code></pre>");
    proof {
        reveal_strlit("</code></pre>");
    }
    let mut out: Vec<char> = Vec::new();
    let mut i: usize = 0;
    while i < s.len()
        invariant
            s@ == html@,
            open@ == block_open(),
            close@ == block_close(),
            close@.len() == 13,
            default_theme_known(theme@),
            i <= s@.len(),
            out@ + highlight_from(s@, i as int, theme@) == highlight_from(s@, 0, theme@),
        decreases s@.len() - i,
    {
        match find_block(&s, i, &open, &close) {
            Some((q, e)) => {
                let lang = copy_range(&s, i + open.len(), q);
                let code = copy_range(&s, q + 2, e);
                let plain = unescape_chars(&code);
                let code_text = string_from_chars(plain.as_slice());
                let lang_text = string_from_chars(lang.as_slice());
                let ghost before = out@;
                let syntax = if has_syntax(lang_text.as_str()) {
                    Some(lang_text.as_str())
                } else {
                    None
                };
                assert(opt_chars(syntax) == syntax_choice(lang@));
                match highlight_snippet(code_text.as_str(), syntax, theme) {
                    Some(h) => {
                        let hs = chars_of(h.as_str());
                        push_all(&mut out, &hs);
                    },
                    None => {
                        let original = copy_range(&s, i, e + close.len());
                        push_all(&mut out, &original);
                    },
                }
                assert(out@ == before + block_replacement(s@, i as int, q as int, e as int, theme@));
                i = e + close.len();
            },
            None => {
                out.push(s[i]);
                i = i + 1;
            },
        }
    }
    string_from_chars(out.as_slice())
}

// ---------------------------------------------------------------------------
// What each block becomes
// ---------------------------------------------------------------------------

proof fn lemma_close_from_occurs(s: Seq<char>, i: int)
    requires
        close_from(s, i) is Some,
    ensures
        i <= close_from(s, i)->0,
        occurs_at(s, close_from(s, i)->0, block_close()),
    decreases s.len() - i,
{
    if !(i < 0 || i >= s.len()) && !occurs_at(s, i, block_close()) {
        lemma_close_from_occurs(s, i + 1);
    }
}

/// A fenced block at `i` is replaced by syntect's highlighting of its code
/// with the markdown renderer's entities undone, in the syntax its language
/// names when syntect knows it and in plain text otherwise; when
/// highlighting fails the block stays as it was. The text after the block
/// is then highlighted in turn.
pub proof fn lemma_block_highlighted(s: Seq<char>, i: int, theme: Seq<char>)
    requires
        block_at(s, i) is Some,
    ensures
        ({
            let q = block_at(s, i).unwrap().0;
            let e = block_at(s, i).unwrap().1;
            let lang = s.subrange(i + block_open().len(), q);
            let code = s.subrange(q + 2, e);
            let end = e + block_close().len();
            let syntax = if syntax_known(lang) { Some(lang) } else { None };
            &&& i < q < e < end <= s.len()
            &&& highlight_from(s, i, theme) == match highlighted(unescaped(code), syntax, theme) {
                Some(h) => h,
                None => s.subrange(i, end),
            } + highlight_from(s, end, theme)
        }),
{
    reveal_strlit("<pre><code class=\"language-");
    reveal_strlit("</code></pre>");
    reveal_strlit("\">");
    let ls = i + block_open().len();
    let q = quote_from(s, ls)->0;
    lemma_close_from_occurs(s, q + 2);
}

/// A block that holds the XML escape of a text `t` without single quotes is
/// highlighted as `t` itself: `&quot;` in the block is highlighted as `"`.
pub proof fn lemma_escaped_block_highlighted(s: Seq<char>, i: int, theme: Seq<char>, t: Seq<char>)
    requires
        block_at(s, i) is Some,
        s.subrange(block_at(s, i).unwrap().0 + 2, block_at(s, i).unwrap().1) == crate::sitemap::xml_escaped(t),
        forall|k: int| 0 <= k < t.len() ==> t[k] != '\'',
    ensures
        ({
            let q = block_at(s, i).unwrap().0;
            let e = block_at(s, i).unwrap().1;
            let lang = s.subrange(i + block_open().len(), q);
            let end = e + block_close().len();
            let syntax = if syntax_known(lang) { Some(lang) } else { None };
            highlight_from(s, i, theme) == match highlighted(t, syntax, theme) {
                Some(h) => h,
                None => s.subrange(i, end),
            } + highlight_from(s, end, theme)
        }),
{
    lemma_block_highlighted(s, i, theme);
    crate::entities::lemma_unescape_undoes_xml_escape(t);
}

/// With highlighting on, the page is highlighted from its start; with the
/// theme `none` or an unknown theme it is left exactly as it is.
pub proof fn lemma_highlighted_page(html: Seq<char>, theme: Seq<char>)
    ensures
        theme == "none"@ || !default_theme_known(theme) ==> highlighted_page(html, theme) == html,
        theme != "none"@ && default_theme_known(theme) ==> highlighted_page(html, theme) == highlight_from(html, 0, theme),
{
}

// ---------------------------------------------------------------------------
// The warning for an unknown theme
// ---------------------------------------------------------------------------

/// `names` joined with `", "`.
pub open spec fn joined(names: Seq<Seq<char>>) -> Seq<char>
    decreases names.len(),
{
    if names.len() == 0 {
        Seq::empty()
    } else if names.len() == 1 {
        names[0]
    } else {
        joined(names.drop_last()) + ", "@ + names.last()
    }
}

/// `names` are syntect's default theme names, each once, in increasing
/// order.
pub open spec fn lists_default_themes(names: Seq<Seq<char>>) -> bool {
    &&& forall|a: int, b: int| 0 <= a < b < names.len() ==> text_lt(#[trigger] names[a], #[trigger] names[b])
    &&& forall|t: Seq<char>| #[trigger] default_theme_known(t) <==> names.contains(t)
}

/// The warning for the unknown theme `theme`, naming the themes there are.
pub open spec fn theme_warning(theme: Seq<char>, names: Seq<Seq<char>>) -> Seq<char> {
    "unknown code_theme '"@ + theme + "', skipping highlighting (available: "@ + joined(names)
        + ", or 'none')"@
}

/// What to warn about when `theme` is neither `none` nor a known theme, in
/// which case highlighting leaves the page as it is: the theme and the
/// themes there are.
pub fn unknown_theme_warning(theme: &str) -> (res: Option<String>)
    ensures
        res is None <==> (theme@ == "none"@ || default_theme_known(theme@)),
        res matches Some(w) ==> exists|names: Seq<Seq<char>>| #[trigger] lists_default_themes(names)
            && w@ == theme_warning(theme@, names),
{
    let theme_chars = chars_of(theme);
    let none = chars_of("none");
    if chars_equal(&theme_chars, &none) || theme_known(theme) {
        return None;
    }
    let names = default_theme_names();
    let ghost texts = names@.map_values(|n: String| n@);
    assert forall|t: Seq<char>| #[trigger] default_theme_known(t) <==> texts.contains(t) by {
        if default_theme_known(t) {
            let i = choose|i: int| 0 <= i < names@.len() && #[trigger] names@[i]@ == t;
            assert(texts[i] == t);
        }
        if texts.contains(t) {
            let i = choose|i: int| 0 <= i < texts.len() && texts[i] == t;
            assert(names@[i]@ == t);
        }
    }
    let mut list: Vec<char> = Vec::new();
    let mut i: usize = 0;
    while i < names.len()
        invariant
            i <= names@.len(),
            texts == names@.map_values(|n: String| n@),
            list@ == joined(texts.take(i as int)),
        decreases names@.len() - i,
    {
        if i > 0 {
            push_str(&mut list, ", ");
        }
        push_str(&mut list, names[i].as_str());
        proof {
            reveal_strlit(", ");
            assert(texts.take(i + 1).drop_last() =~= texts.take(i as int));
            if i == 0 {
                assert(list@ =~= texts.take(1)[0]);
            }
        }
        i = i + 1;
    }
    assert(texts.take(names@.len() as int) =~= texts);
    let mut out: Vec<char> = Vec::new();
    push_str(&mut out, "unknown code_theme '");
    push_str(&mut out, theme);
    push_str(&mut out, "', skipping highlighting (available: ");
    push_all(&mut out, &list);
    push_str(&mut out, ", or 'none')");
    let w = string_from_chars(out.as_slice());
    assert(lists_default_themes(texts));
    Some(w)
}

} // verus!
