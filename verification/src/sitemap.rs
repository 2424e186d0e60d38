//! Generates the sitemap.xml text from the set of pages the build produced.
use vstd::prelude::*;
use crate::order::{apply_order, is_stable_order, lemma_stable_order_distinct, stable_order_by_text, texts};
use crate::sorted::{lemma_stable_order_same_texts, picked};
use crate::text::{chars_of, push_all, push_str, string_from_chars};

verus! {

/// The XML escape of one character.
pub open spec fn escape_char(c: char) -> Seq<char> {
    if c == '&' {
        "&amp;"@
    } else if c == '<' {
        "&lt;"@
    } else if c == '>' {
        "&gt;"@
    } else if c == '\'' {
        "&apos;"@
    } else if c == '"' {
        "&quot;"@
    } else {
        seq![c]
    }
}

/// `s` with `&`, `<`, `>`, `'` and `"` replaced by their XML entities.
pub open spec fn xml_escaped(s: Seq<char>) -> Seq<char>
    decreases s.len(),
{
    if s.len() == 0 {
        Seq::empty()
    } else {
        xml_escaped(s.drop_last()) + escape_char(s.last())
    }
}

/// Escapes the characters XML reserves.
pub fn xml_escape(value: &str) -> (res: String)
    ensures
        res@ == xml_escaped(value@),
{
    let cs = chars_of(value);
    let mut out: Vec<char> = Vec::new();
    let mut i: usize = 0;
    assert(cs@.take(0) =~= Seq::<char>::empty());
    while i < cs.len()
        invariant
            i <= cs@.len(),
            cs@ == value@,
            out@ == xml_escaped(cs@.take(i as int)),
        decreases cs@.len() - i,
    {
        assert(cs@.take(i + 1).drop_last() =~= cs@.take(i as int));
        let c = cs[i];
        if c == '&' {
            push_str(&mut out, "&amp;");
        } else if c == '<' {
            push_str(&mut out, "&lt;");
        } else if c == '>' {
            push_str(&mut out, "&gt;");
        } else if c == '\'' {
            push_str(&mut out, "&apos;");
        } else if c == '"' {
            push_str(&mut out, "&quot;");
        } else {
            out.push(c);
        }
        i = i + 1;
    }
    assert(cs@.take(cs@.len() as int) =~= cs@);
    string_from_chars(out.as_slice())
}

/// No character of the escaped text is one that XML reserves in text and
/// attribute values, except the `&` that starts an entity.
pub proof fn lemma_xml_escaped_safe(s: Seq<char>)
    ensures
        forall|i: int| 0 <= i < xml_escaped(s).len() ==> {
            let c = #[trigger] xml_escaped(s)[i];
            c != '<' && c != '>' && c != '"' && c != '\''
        },
    decreases s.len(),
{
    reveal_strlit("&amp;");
    reveal_strlit("&lt;");
    reveal_strlit("&gt;");
    reveal_strlit("&apos;");
    reveal_strlit("&quot;");
    if s.len() > 0 {
        lemma_xml_escaped_safe(s.drop_last());
        let a = xml_escaped(s.drop_last());
        let b = escape_char(s.last());
        assert forall|i: int| 0 <= i < (a + b).len() implies {
            let c = #[trigger] (a + b)[i];
            c != '<' && c != '>' && c != '"' && c != '\''
        } by {
            if i < a.len() {
                assert((a + b)[i] == a[i]);
            } else {
                assert((a + b)[i] == b[i - a.len()]);
            }
        }
    }
}

/// `s` without its trailing `/` characters.
pub open spec fn trim_end_slashes(s: Seq<char>) -> Seq<char>
    decreases s.len(),
{
    if s.len() > 0 && s.last() == '/' {
        trim_end_slashes(s.drop_last())
    } else {
        s
    }
}

/// `s` without its leading `/` characters.
pub open spec fn trim_start_slashes(s: Seq<char>) -> Seq<char>
    decreases s.len(),
{
    if s.len() > 0 && s[0] == '/' {
        trim_start_slashes(s.drop_first())
    } else {
        s
    }
}

/// The address of `page` under `base_url`: the base without trailing
/// slashes, one slash, and the page without leading slashes.
pub open spec fn page_url(base_url: Seq<char>, page: Seq<char>) -> Seq<char> {
    trim_end_slashes(base_url) + seq!['/'] + trim_start_slashes(page)
}

proof fn lemma_trim_end_slashes(s: Seq<char>)
    ensures
        trim_end_slashes(s).len() <= s.len(),
        s.take(trim_end_slashes(s).len() as int) == trim_end_slashes(s),
        forall|i: int| trim_end_slashes(s).len() <= i < s.len() ==> s[i] == '/',
        trim_end_slashes(s).len() > 0 ==> trim_end_slashes(s).last() != '/',
    decreases s.len(),
{
    if s.len() > 0 && s.last() == '/' {
        lemma_trim_end_slashes(s.drop_last());
        assert(s.drop_last().take(trim_end_slashes(s).len() as int) =~= s.take(trim_end_slashes(s).len() as int));
        assert forall|i: int| trim_end_slashes(s).len() <= i < s.len() implies s[i] == '/' by {
            if i < s.len() - 1 {
                assert(s[i] == s.drop_last()[i]);
            }
        }
    } else {
        assert(s.take(s.len() as int) =~= s);
    }
}

proof fn lemma_trim_start_slashes(s: Seq<char>)
    ensures
        trim_start_slashes(s).len() <= s.len(),
        s.skip(s.len() - trim_start_slashes(s).len()) == trim_start_slashes(s),
        forall|i: int| 0 <= i < s.len() - trim_start_slashes(s).len() ==> s[i] == '/',
        trim_start_slashes(s).len() > 0 ==> trim_start_slashes(s)[0] != '/',
    decreases s.len(),
{
    if s.len() > 0 && s[0] == '/' {
        lemma_trim_start_slashes(s.drop_first());
        let n = s.len() - trim_start_slashes(s).len();
        assert(s.drop_first().skip(n - 1) =~= s.skip(n));
        assert forall|i: int| 0 <= i < n implies s[i] == '/' by {
            if i > 0 {
                assert(s[i] == s.drop_first()[i - 1]);
            }
        }
    } else {
        assert(s.skip(0) =~= s);
    }
}

/// A page's address is the base address without the slashes it ends with,
/// one slash, and the page without the slashes it starts with: where they
/// meet there is exactly one slash, and nothing but those slashes is
/// dropped.
pub proof fn lemma_page_url(base_url: Seq<char>, page: Seq<char>)
    ensures
        exists|b: Seq<char>, p: Seq<char>| {
            &&& #[trigger] page_url(base_url, page) == b + seq!['/'] + p
            &&& base_url.take(b.len() as int) == b
            &&& (forall|i: int| b.len() <= i < base_url.len() ==> base_url[i] == '/')
            &&& (b.len() > 0 ==> b.last() != '/')
            &&& b.len() <= base_url.len()
            &&& p.len() <= page.len()
            &&& page.skip(page.len() - p.len()) == p
            &&& (forall|i: int| 0 <= i < page.len() - p.len() ==> page[i] == '/')
            &&& (p.len() > 0 ==> p[0] != '/')
        },
{
    lemma_trim_end_slashes(base_url);
    lemma_trim_start_slashes(page);
    let b = trim_end_slashes(base_url);
    let p = trim_start_slashes(page);
    assert(page_url(base_url, page) == b + seq!['/'] + p);
}

/// The `<url>` entries for `pages`, in order.
pub open spec fn url_entries(base_url: Seq<char>, pages: Seq<Seq<char>>) -> Seq<char>
    decreases pages.len(),
{
    if pages.len() == 0 {
        Seq::empty()
    } else {
        url_entries(base_url, pages.drop_last()) + "  <url><loc>"@ + xml_escaped(page_url(base_url, pages.last()))
            + "</loc></url>\n"@
    }
}

/// The head of the sitemap document.
pub open spec fn sitemap_head() -> Seq<char> {
    "<?xml version=\"1.0\" encoding=\"UTF-8\"?>\n<urlset xmlns=\"http://www.sitemaps.org/schemas/sitemap/0.9\">\n"@
}

/// The sitemap listing `pages` (already in their final order) under
/// `base_url`.
pub open spec fn sitemap_text(base_url: Seq<char>, pages: Seq<Seq<char>>) -> Seq<char> {
    sitemap_head() + url_entries(base_url, pages) + "</urlset>\n"@
}

fn trimmed_base(base: &Vec<char>) -> (res: Vec<char>)
    ensures
        res@ == trim_end_slashes(base@),
{
    let mut end: usize = base.len();
    assert(base@.take(end as int) =~= base@);
    while end > 0 && base[end - 1] == '/'
        invariant
            end <= base@.len(),
            trim_end_slashes(base@) == trim_end_slashes(base@.take(end as int)),
        decreases end,
    {
        assert(base@.take(end as int).drop_last() =~= base@.take(end - 1));
        end = end - 1;
    }
    let mut out: Vec<char> = Vec::new();
    let mut i: usize = 0;
    while i < end
        invariant
            i <= end <= base@.len(),
            out@ == base@.take(i as int),
        decreases end - i,
    {
        out.push(base[i]);
        i = i + 1;
        assert(out@ =~= base@.take(i as int));
    }
    out
}

fn trimmed_page(page: &Vec<char>) -> (res: Vec<char>)
    ensures
        res@ == trim_start_slashes(page@),
{
    let mut start: usize = 0;
    assert(page@.skip(0) =~= page@);
    while start < page.len() && page[start] == '/'
        invariant
            start <= page@.len(),
            trim_start_slashes(page@) == trim_start_slashes(page@.skip(start as int)),
        decreases page@.len() - start,
    {
        assert(page@.skip(start as int).drop_first() =~= page@.skip(start + 1));
        start = start + 1;
    }
    let mut out: Vec<char> = Vec::new();
    let mut i: usize = start;
    while i < page.len()
        invariant
            start <= i <= page@.len(),
            out@ == page@.subrange(start as int, i as int),
        decreases page@.len() - i,
    {
        out.push(page[i]);
        i = i + 1;
        assert(out@ =~= page@.subrange(start as int, i as int));
    }
    assert(out@ =~= page@.skip(start as int));
    out
}

/// The sitemap text listing every page under `base_url`, pages sorted so
/// the output does not depend on the build order. `pages` are site-relative
/// paths like "index.html" or "posts/hello.html".
pub fn sitemap_xml(base_url: &str, pages: Vec<String>) -> (res: String)
    ensures
        is_sitemap(base_url@, texts_of_strings(pages@), res@),
{
    let ghost given = pages@;
    let mut keys: Vec<Vec<char>> = Vec::new();
    let n = pages.len();
    for i in 0..n
        invariant
            n == pages@.len(),
            keys@.len() == i,
            forall|j: int| 0 <= j < i ==> (#[trigger] keys@[j])@ == pages@[j]@,
    {
        keys.push(chars_of(pages[i].as_str()));
    }
    assert(texts(keys@) =~= texts_of_strings(pages@));
    let order = stable_order_by_text(&keys);
    proof {
        lemma_stable_order_distinct(texts(keys@), order@);
    }
    let sorted = apply_order(pages, &order);
    let ghost listed = picked(texts_of_strings(given), order@);
    let base = trimmed_base(&chars_of(base_url));
    let mut out: Vec<char> = Vec::new();
    push_str(&mut out, "<?xml version=\"1.0\" encoding=\"UTF-8\"?>\n<urlset xmlns=\"http://www.sitemaps.org/schemas/sitemap/0.9\">\n");
    let m = sorted.len();
    assert(listed.take(0) =~= Seq::<Seq<char>>::empty());
    for k in 0..m
        invariant
            m == sorted@.len(),
            m == listed.len(),
            base@ == trim_end_slashes(base_url@),
            forall|q: int| 0 <= q < m ==> (#[trigger] sorted@[q])@ == listed[q],
            out@ == sitemap_head() + url_entries(base_url@, listed.take(k as int)),
    {
        let page = chars_of(sorted[k].as_str());
        let path = trimmed_page(&page);
        let mut url: Vec<char> = Vec::new();
        push_all(&mut url, &base);
        url.push('/');
        push_all(&mut url, &path);
        assert(url@ =~= page_url(base_url@, listed[k as int]));
        let url_string = string_from_chars(url.as_slice());
        let escaped = xml_escape(url_string.as_str());
        push_str(&mut out, "  <url><loc>");
        push_str(&mut out, escaped.as_str());
        push_str(&mut out, "</loc></url>\n");
        assert(listed.take(k + 1).drop_last() =~= listed.take(k as int));
        assert(out@ =~= sitemap_head() + url_entries(base_url@, listed.take(k + 1)));
    }
    push_str(&mut out, "</urlset>\n");
    assert(listed.take(m as int) =~= listed);
    assert(is_stable_order(texts_of_strings(given), order@));
    string_from_chars(out.as_slice())
}

/// `text` is the sitemap of `pages` under `base_url`: the pages listed in
/// the order a stable sort by text puts them.
pub open spec fn is_sitemap(base_url: Seq<char>, pages: Seq<Seq<char>>, text: Seq<char>) -> bool {
    exists|order: Seq<usize>|
        {
            &&& #[trigger] is_stable_order(pages, order)
            &&& text == sitemap_text(base_url, picked(pages, order))
        }
}

/// The sitemap does not depend on the order the build produced the pages
/// in: two lists of the same pages, each page as often, give the same text.
pub proof fn lemma_sitemap_order_independent(
    base_url: Seq<char>,
    pages1: Seq<Seq<char>>,
    pages2: Seq<Seq<char>>,
    text1: Seq<char>,
    text2: Seq<char>,
)
    requires
        pages1.to_multiset() == pages2.to_multiset(),
        is_sitemap(base_url, pages1, text1),
        is_sitemap(base_url, pages2, text2),
    ensures
        text1 == text2,
{
    let order1 = choose|order: Seq<usize>|
        #[trigger] is_stable_order(pages1, order) && text1 == sitemap_text(base_url, picked(pages1, order));
    let order2 = choose|order: Seq<usize>|
        #[trigger] is_stable_order(pages2, order) && text2 == sitemap_text(base_url, picked(pages2, order));
    lemma_stable_order_same_texts(pages1, pages2, order1, order2);
}

/// The texts of a list of strings.
pub open spec fn texts_of_strings(pages: Seq<String>) -> Seq<Seq<char>> {
    pages.map_values(|p: String| p@)
}

} // verus!
