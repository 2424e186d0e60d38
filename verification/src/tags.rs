//! Tag taxonomy support.
//!
//! Tags are declared in frontmatter (`tags: rust, blogging`) and collected
//! across every markdown collection. A reserved `_tag.template` is rendered
//! once per tag into `tags/<slug>.html`.
use vstd::prelude::*;
use std::collections::HashMap;
use crate::gather::{gather, groups_view, is_gathering, labelled_view};
use crate::md::{doc_fields, doc_tags, DocView, MarkdownCollection, MarkdownDocument};
use crate::text::{alphanumeric, ascii_lower, chars_of, is_alphanumeric, lowercase, push_all, push_str, string_from_chars, string_of, to_lowercase, text_lt};
use crate::value::{shows_texts, Entries, State, TinyLangType};

verus! {

// ---------------------------------------------------------------------------
// Slugs
// ---------------------------------------------------------------------------

/// One character of slugging: the slug so far and whether a dash is owed
/// before the next alphanumeric character.
pub open spec fn slug_step(acc: (Seq<char>, bool), c: char) -> (Seq<char>, bool) {
    if alphanumeric(c) {
        let before = if acc.1 && acc.0.len() > 0 {
            acc.0.push('-')
        } else {
            acc.0
        };
        (before + lowercase(c), false)
    } else {
        (acc.0, true)
    }
}

/// The slug of `s` so far, and whether a dash is owed.
pub open spec fn slug_state(s: Seq<char>) -> (Seq<char>, bool)
    decreases s.len(),
{
    if s.len() == 0 {
        (Seq::<char>::empty(), false)
    } else {
        slug_step(slug_state(s.drop_last()), s.last())
    }
}

/// The slug of `s`: its alphanumeric characters lowercased, with every run of
/// other characters between two of them turned into a single dash.
pub open spec fn slug(s: Seq<char>) -> Seq<char> {
    slug_state(s).0
}

/// Lowercase, alphanumerics kept, everything else collapsed into single
/// dashes: "Rust & WebAssembly!" -> "rust-webassembly".
pub fn slugify(value: &str) -> (res: String)
    ensures
        res@ == slug(value@),
        res@.len() == 0 <==> forall|i: int| 0 <= i < value@.len() ==> !alphanumeric(#[trigger] value@[i]),
{
    let mut out: Vec<char> = Vec::new();
    let mut pending_dash = false;
    for c in it: value.chars()
        invariant
            it.seq() == value@,
            (out@, pending_dash) == slug_state(value@.take(it.index() as int)),
            out@.len() == 0 <==> forall|k: int| 0 <= k < it.index() ==> !alphanumeric(#[trigger] value@[k]),
    {
        let ghost i = it.index();
        assert(value@.take(i + 1).drop_last() =~= value@.take(i as int));
        if is_alphanumeric(c) {
            if pending_dash && out.len() > 0 {
                out.push('-');
            }
            pending_dash = false;
            let lower = to_lowercase(c);
            push_all(&mut out, &lower);
            assert(alphanumeric(value@[i as int]));
        } else {
            pending_dash = true;
        }
    }
    assert(value@.take(value@.len() as int) =~= value@);
    string_from_chars(out.as_slice())
}

/// Every character is ASCII.
pub open spec fn is_ascii_text(s: Seq<char>) -> bool {
    forall|i: int| 0 <= i < s.len() ==> ((#[trigger] s[i]) as u32) < 128
}

/// A lowercase ASCII letter or digit.
pub open spec fn is_slug_char(c: char) -> bool {
    ('a' <= c && c <= 'z') || ('0' <= c && c <= '9')
}

/// `t` is made of lowercase ASCII letters and digits separated by single
/// dashes, with no dash at either end.
pub open spec fn is_slug(t: Seq<char>) -> bool {
    &&& forall|i: int| 0 <= i < t.len() ==> is_slug_char(#[trigger] t[i]) || t[i] == '-'
    &&& t.len() > 0 ==> t[0] != '-' && t[t.len() - 1] != '-'
    &&& forall|i: int| 0 <= i < t.len() - 1 ==> !(#[trigger] t[i] == '-' && t[i + 1] == '-')
}

proof fn lemma_slug_state_shape(s: Seq<char>)
    requires
        is_ascii_text(s),
    ensures
        is_slug(slug_state(s).0),
    decreases s.len(),
{
    if s.len() > 0 {
        let prefix = s.drop_last();
        assert(is_ascii_text(prefix)) by {
            assert forall|i: int| 0 <= i < prefix.len() implies ((#[trigger] prefix[i]) as u32) < 128 by {
                assert(prefix[i] == s[i]);
            }
        }
        lemma_slug_state_shape(prefix);
        let acc = slug_state(prefix);
        let c = s.last();
        assert((c as u32) < 128);
        if alphanumeric(c) {
            let before = if acc.1 && acc.0.len() > 0 {
                acc.0.push('-')
            } else {
                acc.0
            };
            let l = ascii_lower(c);
            assert(lowercase(c) == seq![l]);
            assert(is_slug_char(l));
            let t = before + seq![l];
            assert(slug_state(s).0 == t);
            assert forall|i: int| 0 <= i < t.len() implies is_slug_char(#[trigger] t[i]) || t[i] == '-' by {
                if i < before.len() && i < acc.0.len() {
                    assert(t[i] == acc.0[i]);
                }
            }
            assert forall|i: int| 0 <= i < t.len() - 1 implies !(#[trigger] t[i] == '-' && t[i + 1] == '-') by {
                if i + 1 < acc.0.len() {
                    assert(t[i] == acc.0[i] && t[i + 1] == acc.0[i + 1]);
                } else if i + 1 == acc.0.len() {
                    assert(t[i] == acc.0[i]);
                }
            }
            if t.len() > 0 && acc.0.len() > 0 {
                assert(t[0] == acc.0[0]);
            }
        }
    }
}

/// Slugs of ASCII text are well-formed: lowercase letters and digits
/// separated by single dashes, with no dash at either end.
pub proof fn lemma_slug_shape(s: Seq<char>)
    requires
        is_ascii_text(s),
    ensures
        is_slug(slug(s)),
{
    lemma_slug_state_shape(s);
}

proof fn lemma_slug_state_of_slug(t: Seq<char>, i: int)
    requires
        is_slug(t),
        0 <= i <= t.len(),
    ensures
        slug_state(t.take(i)) == (if i > 0 && t[i - 1] == '-' {
            (t.take(i - 1), true)
        } else {
            (t.take(i), false)
        }),
    decreases i,
{
    if i > 0 {
        lemma_slug_state_of_slug(t, i - 1);
        let c = t[i - 1];
        assert(t.take(i).drop_last() =~= t.take(i - 1));
        assert(t.take(i).last() == c);
        if c == '-' {
            assert(!alphanumeric(c));
            if i - 1 > 0 {
                assert(t[i - 2] != '-');
            }
        } else {
            assert(is_slug_char(c));
            assert(alphanumeric(c));
            assert(lowercase(c) == seq![c]);
            if i - 1 > 0 && t[i - 2] == '-' {
                assert(i - 2 > 0);
                assert(t.take(i - 2).len() > 0);
                assert(t.take(i - 2).push('-') + seq![c] =~= t.take(i));
            } else {
                assert(t.take(i - 1) + seq![c] =~= t.take(i));
            }
        }
    } else {
        assert(t.take(0) =~= Seq::<char>::empty());
    }
}

/// A well-formed slug is its own slug.
pub proof fn lemma_slug_of_slug(t: Seq<char>)
    requires
        is_slug(t),
    ensures
        slug(t) == t,
{
    lemma_slug_state_of_slug(t, t.len() as int);
    assert(t.take(t.len() as int) =~= t);
}

/// Slugging ASCII text twice gives the same slug as slugging it once.
pub proof fn lemma_slug_idempotent(s: Seq<char>)
    requires
        is_ascii_text(s),
    ensures
        slug(slug(s)) == slug(s),
{
    lemma_slug_shape(s);
    lemma_slug_of_slug(slug(s));
}

// ---------------------------------------------------------------------------
// Tags
// ---------------------------------------------------------------------------

/// A tag and every document carrying it.
pub struct Tag {
    pub name: String,
    pub slug: String,
    /// site-absolute link to the tag page, e.g. /tags/rust.html or /tags/rust/
    pub uri: String,
    /// output path relative to the tags directory, e.g. rust.html or rust/index.html
    pub output_name: String,
    pub documents: Vec<MarkdownDocument>,
}

/// What a tag holds, as text.
pub struct TagView {
    pub name: Seq<char>,
    pub slug: Seq<char>,
    pub uri: Seq<char>,
    pub output_name: Seq<char>,
    pub documents: Seq<DocView>,
}

/// The views of a list of documents.
pub open spec fn doc_views(docs: Seq<MarkdownDocument>) -> Seq<DocView> {
    docs.map_values(|d: MarkdownDocument| d@)
}

impl View for Tag {
    type V = TagView;

    open spec fn view(&self) -> TagView {
        TagView {
            name: self.name@,
            slug: self.slug@,
            uri: self.uri@,
            output_name: self.output_name@,
            documents: doc_views(self.documents@),
        }
    }
}

/// The link to a tag's page: `/tags/<slug>/` with pretty urls, else
/// `/tags/<slug>.html`.
pub open spec fn tag_uri(slug: Seq<char>, pretty_urls: bool) -> Seq<char> {
    if pretty_urls {
        "/tags/"@ + slug + "/"@
    } else {
        "/tags/"@ + slug + ".html"@
    }
}

/// Where a tag's page is written under the tags folder:
/// `<slug>/index.html` with pretty urls, else `<slug>.html`.
pub open spec fn tag_output_name(slug: Seq<char>, pretty_urls: bool) -> Seq<char> {
    if pretty_urls {
        slug + "/index.html"@
    } else {
        slug + ".html"@
    }
}

/// `t` is the tag `name` with documents `docs`.
pub open spec fn is_tag_for(t: TagView, name: Seq<char>, docs: Seq<DocView>, pretty_urls: bool) -> bool {
    &&& t.name == name
    &&& t.slug == slug(name)
    &&& t.uri == tag_uri(slug(name), pretty_urls)
    &&& t.output_name == tag_output_name(slug(name), pretty_urls)
    &&& t.documents == docs
}

/// Every (tag, document position) pair, document by document, each
/// document's tags in the order it declares them.
pub open spec fn tag_pairs(docs: Seq<DocView>) -> Seq<(Seq<char>, usize)>
    decreases docs.len(),
{
    if docs.len() == 0 {
        Seq::empty()
    } else {
        let i = (docs.len() - 1) as usize;
        tag_pairs(docs.drop_last()) + doc_tags(docs.last()).map_values(|t: Seq<char>| (t, i))
    }
}

/// The documents of the collections, collection by collection.
pub open spec fn all_docs(collections: Seq<MarkdownCollection>) -> Seq<DocView>
    decreases collections.len(),
{
    if collections.len() == 0 {
        Seq::empty()
    } else {
        all_docs(collections.drop_last()) + doc_views(collections.last().collection@)
    }
}

/// `tags` holds one tag per distinct tag name of `docs`, sorted by name,
/// each with the documents carrying it (once per time they declare it), in
/// the order of `docs`.
pub open spec fn tags_of(docs: Seq<DocView>, tags: Seq<TagView>, pretty_urls: bool) -> bool {
    exists|groups: Seq<(Seq<char>, Seq<usize>)>|
        {
            &&& #[trigger] is_gathering(tag_pairs(docs), groups)
            &&& tags.len() == groups.len()
            &&& forall|j: int| 0 <= j < tags.len() ==> is_tag_for(
                #[trigger] tags[j],
                groups[j].0,
                groups[j].1.map_values(|i: usize| docs[i as int]),
                pretty_urls,
            )
        }
}

/// Gathered tags are sorted by name, each name once, and each tag's page is
/// written where its link points: the slug is the slug of the name; without
/// pretty urls the page is `<slug>.html` and the link `/tags/` followed by
/// that page, with them the page is `<slug>/index.html` and the link
/// `/tags/<slug>/`.
pub proof fn lemma_tag_pages(docs: Seq<DocView>, tags: Seq<TagView>, pretty_urls: bool)
    requires
        tags_of(docs, tags, pretty_urls),
    ensures
        forall|a: int, b: int| 0 <= a < b < tags.len() ==> text_lt(#[trigger] tags[a].name, #[trigger] tags[b].name),
        forall|j: int| 0 <= j < tags.len() ==> {
            let t = #[trigger] tags[j];
            &&& t.slug == slug(t.name)
            &&& !pretty_urls ==> t.output_name == t.slug + ".html"@ && t.uri == "/tags/"@ + t.output_name
            &&& pretty_urls ==> t.output_name == t.slug + "/index.html"@ && t.uri == "/tags/"@ + t.slug + "/"@
        },
{
    let groups = choose|groups: Seq<(Seq<char>, Seq<usize>)>|
        {
            &&& #[trigger] is_gathering(tag_pairs(docs), groups)
            &&& tags.len() == groups.len()
            &&& forall|j: int| 0 <= j < tags.len() ==> is_tag_for(
                #[trigger] tags[j],
                groups[j].0,
                groups[j].1.map_values(|i: usize| docs[i as int]),
                pretty_urls,
            )
        };
    assert forall|a: int, b: int| 0 <= a < b < tags.len() implies text_lt(#[trigger] tags[a].name, #[trigger] tags[b].name) by {
        assert(is_tag_for(tags[a], groups[a].0, groups[a].1.map_values(|i: usize| docs[i as int]), pretty_urls));
        assert(is_tag_for(tags[b], groups[b].0, groups[b].1.map_values(|i: usize| docs[i as int]), pretty_urls));
        assert(text_lt(groups[a].0, groups[b].0));
    }
    assert forall|j: int| 0 <= j < tags.len() implies {
        let t = #[trigger] tags[j];
        &&& t.slug == slug(t.name)
        &&& !pretty_urls ==> t.output_name == t.slug + ".html"@ && t.uri == "/tags/"@ + t.output_name
        &&& pretty_urls ==> t.output_name == t.slug + "/index.html"@ && t.uri == "/tags/"@ + t.slug + "/"@
    } by {
        assert(is_tag_for(tags[j], groups[j].0, groups[j].1.map_values(|i: usize| docs[i as int]), pretty_urls));
        let t = tags[j];
        if !pretty_urls {
            assert(t.uri =~= "/tags/"@ + t.output_name);
        } else {
            assert(t.uri =~= "/tags/"@ + t.slug + "/"@);
        }
    }
}

/// The views of a list of borrowed documents.
pub open spec fn ref_views(docs: Seq<&MarkdownDocument>) -> Seq<DocView> {
    docs.map_values(|d: &MarkdownDocument| (*d)@)
}

/// The views of a list of tags.
pub open spec fn tag_views(tags: Seq<Tag>) -> Seq<TagView> {
    tags.map_values(|t: Tag| t@)
}

/// The collections of a list of borrowed ones.
pub open spec fn derefs(collections: Seq<&MarkdownCollection>) -> Seq<MarkdownCollection> {
    collections.map_values(|c: &MarkdownCollection| *c)
}

fn text_string(prefix: &str, middle: &Vec<char>, suffix: &str) -> (res: String)
    ensures
        res@ == prefix@ + middle@ + suffix@,
{
    let mut out: Vec<char> = Vec::new();
    push_str(&mut out, prefix);
    push_all(&mut out, middle);
    push_str(&mut out, suffix);
    string_from_chars(out.as_slice())
}

/// The tag `name` for the given documents.
fn make_tag(name: &Vec<char>, docs: &Vec<&MarkdownDocument>, members: &Vec<usize>, pretty_urls: bool) -> (res: Tag)
    requires
        forall|k: int| 0 <= k < members@.len() ==> #[trigger] members@[k] < docs@.len(),
    ensures
        is_tag_for(
            res@,
            name@,
            members@.map_values(|i: usize| ref_views(docs@)[i as int]),
            pretty_urls,
        ),
{
    let ghost dv = ref_views(docs@);
    let name_string = string_from_chars(name.as_slice());
    let slug_string = slugify(name_string.as_str());
    let slug_chars = chars_of(slug_string.as_str());
    let (uri, output_name) = if pretty_urls {
        (text_string("/tags/", &slug_chars, "/"), text_string("", &slug_chars, "/index.html"))
    } else {
        (text_string("/tags/", &slug_chars, ".html"), text_string("", &slug_chars, ".html"))
    };
    proof {
        reveal_strlit("");
        assert(""@ + slug_chars@ =~= slug_chars@);
    }
    let mut documents: Vec<MarkdownDocument> = Vec::new();
    let m = members.len();
    for k in 0..m
        invariant
            m == members@.len(),
            dv == ref_views(docs@),
            forall|q: int| 0 <= q < members@.len() ==> #[trigger] members@[q] < docs@.len(),
            doc_views(documents@) == members@.map_values(|i: usize| dv[i as int]).take(k as int),
    {
        let d = docs[members[k]].duplicate();
        let ghost before = doc_views(documents@);
        let ghost added = d@;
        documents.push(d);
        assert(doc_views(documents@) =~= before.push(added));
        assert(members@.map_values(|i: usize| dv[i as int]).take(k + 1) =~= members@.map_values(|i: usize| dv[i as int]).take(k as int).push(added));
    }
    assert(members@.map_values(|i: usize| dv[i as int]).take(m as int) =~= members@.map_values(|i: usize| dv[i as int]));
    Tag { name: name_string, slug: slug_string, uri, output_name, documents }
}

proof fn lemma_tag_pairs_prefix(docs: Seq<DocView>, i: int)
    requires
        0 <= i < docs.len(),
    ensures
        tag_pairs(docs.take(i + 1)) == tag_pairs(docs.take(i)) + doc_tags(docs[i]).map_values(|t: Seq<char>| (t, i as usize)),
{
    assert(docs.take(i + 1).drop_last() =~= docs.take(i));
}

/// Gathers the tags of the documents of `collections`, taken in the given
/// order: sorted by name, each with its documents in collection order.
pub fn collect_tags_in_order(collections: &Vec<&MarkdownCollection>, pretty_urls: bool) -> (res: Vec<Tag>)
    ensures
        tags_of(all_docs(derefs(collections@)), tag_views(res@), pretty_urls),
{
    // every document, collection by collection
    let mut docs: Vec<&MarkdownDocument> = Vec::new();
    let ghost cols = derefs(collections@);
    let nc = collections.len();
    for c in 0..nc
        invariant
            nc == collections@.len(),
            cols == derefs(collections@),
            ref_views(docs@) == all_docs(cols.take(c as int)),
            docs@.len() == all_docs(cols.take(c as int)).len(),
    {
        let col: &MarkdownCollection = collections[c];
        assert(cols.take(c + 1).drop_last() =~= cols.take(c as int));
        let ghost base = ref_views(docs@);
        let nd = col.collection.len();
        for k in 0..nd
            invariant
                nd == col.collection@.len(),
                docs@.len() == base.len() + k,
                ref_views(docs@) == base + doc_views(col.collection@).take(k as int),
        {
            let ghost before = docs@;
            docs.push(&col.collection[k]);
            assert(docs@ == before.push(&col.collection@[k as int]));
            assert(ref_views(docs@) =~= ref_views(before).push(col.collection@[k as int]@));
            assert(doc_views(col.collection@).take(k + 1) =~= doc_views(col.collection@).take(k as int).push(col.collection@[k as int]@));
            assert(ref_views(docs@) =~= base + doc_views(col.collection@).take(k + 1));
        }
        assert(doc_views(col.collection@).take(nd as int) =~= doc_views(col.collection@));
    }
    assert(cols.take(nc as int) =~= cols);
    let ghost dv = ref_views(docs@);
    // every (tag, document) pair
    let mut pairs: Vec<(Vec<char>, usize)> = Vec::new();
    let n = docs.len();
    assert(dv.take(0) =~= Seq::<DocView>::empty());
    for i in 0..n
        invariant
            n == docs@.len(),
            dv == ref_views(docs@),
            labelled_view(pairs@) == tag_pairs(dv.take(i as int)),
            pairs@.len() == tag_pairs(dv.take(i as int)).len(),
            forall|q: int| 0 <= q < pairs@.len() ==> (#[trigger] pairs@[q]).1 < i,
    {
        let names = docs[i].tags();
        let ghost base = labelled_view(pairs@);
        let ghost ts = doc_tags(dv[i as int]);
        proof {
            lemma_tag_pairs_prefix(dv, i as int);
        }
        let nt = names.len();
        for t in 0..nt
            invariant
                nt == names@.len(),
                names@.map_values(|x: String| x@) == ts,
                pairs@.len() == base.len() + t,
                labelled_view(pairs@) == base + ts.map_values(|x: Seq<char>| (x, i)).take(t as int),
                forall|q: int| 0 <= q < pairs@.len() ==> (#[trigger] pairs@[q]).1 < i + 1,
        {
            let label = chars_of(names[t].as_str());
            let ghost added = (label@, i);
            let ghost before = pairs@;
            pairs.push((label, i));
            assert(ts[t as int] == names@[t as int]@);
            assert(labelled_view(pairs@) =~= labelled_view(before).push(added));
            assert(ts.map_values(|x: Seq<char>| (x, i)).take(t + 1) =~= ts.map_values(|x: Seq<char>| (x, i)).take(t as int).push(added));
            assert(labelled_view(pairs@) =~= base + ts.map_values(|x: Seq<char>| (x, i)).take(t + 1));
        }
        assert(ts.map_values(|x: Seq<char>| (x, i)).take(nt as int) =~= ts.map_values(|x: Seq<char>| (x, i)));
    }
    assert(dv.take(n as int) =~= dv);
    let ghost pv = pairs@;
    let groups = gather(pairs);
    let ghost gv = groups_view(groups@);
    // the tags
    let mut tags: Vec<Tag> = Vec::new();
    let ng = groups.len();
    for j in 0..ng
        invariant
            ng == groups@.len(),
            gv == groups_view(groups@),
            is_gathering(labelled_view(pv), gv),
            forall|q: int| 0 <= q < pv.len() ==> (#[trigger] pv[q]).1 < n,
            n == docs@.len(),
            dv == ref_views(docs@),
            tags@.len() == j,
            forall|q: int| 0 <= q < j ==> is_tag_for(
                (#[trigger] tags@[q])@,
                gv[q].0,
                gv[q].1.map_values(|i: usize| dv[i as int]),
                pretty_urls,
            ),
    {
        assert forall|k: int| 0 <= k < groups@[j as int].1@.len() implies #[trigger] groups@[j as int].1@[k] < docs@.len() by {
            crate::gather::lemma_members_bounded(labelled_view(pv), gv[j as int].0, n as int);
            assert(gv[j as int].1 == groups@[j as int].1@);
        }
        let t = make_tag(&groups[j].0, &docs, &groups[j].1, pretty_urls);
        tags.push(t);
    }
    assert(tags_of(dv, tag_views(tags@), pretty_urls)) by {
        assert(is_gathering(tag_pairs(dv), gv));
    }
    tags
}

/// The collections of a map, in the order std's `HashMap::values` visits
/// them.
pub open spec fn is_walk_of(m: Map<String, MarkdownCollection>, walk: Seq<MarkdownCollection>) -> bool {
    exists|keys: Seq<String>|
        {
            &&& #[trigger] keys.len() == walk.len()
            &&& keys.no_duplicates()
            &&& keys.to_set() == m.dom()
            &&& forall|i: int| 0 <= i < keys.len() ==> m[#[trigger] keys[i]] == walk[i]
        }
}

/// std's `HashMap::values`, collected: every value of the map once, in an
/// order that depends on the map's hashing and so varies from process to
/// process. The contract states that each entry is visited exactly once and
/// leaves the order open.
#[verifier::external_body]
fn walk_collections(collections: &HashMap<String, MarkdownCollection>) -> (res: Vec<&MarkdownCollection>)
    ensures
        is_walk_of(collections@, derefs(res@)),
{
    collections.values().collect()
}

/// Gathers all tags across collections, sorted by name. Documents keep
/// their collection ordering; collections are taken in the order the map
/// visits them.
pub fn collect_tags(collections: &HashMap<String, MarkdownCollection>, pretty_urls: bool) -> (res: Vec<Tag>)
    ensures
        exists|walk: Seq<MarkdownCollection>| #[trigger]
            is_walk_of(collections@, walk) && tags_of(all_docs(walk), tag_views(res@), pretty_urls),
{
    let walk = walk_collections(collections);
    collect_tags_in_order(&walk, pretty_urls)
}

/// A tag's fields as a template object: `name`, `slug`, `uri`, `size` (the
/// number of documents) and `items` (the documents' objects).
pub open spec fn shows_tag(e: Entries, t: TagView) -> bool {
    &&& e.len() == 5
    &&& e[0].0 == "name"@ && crate::value::is_text(e[0].1, t.name)
    &&& e[1].0 == "slug"@ && crate::value::is_text(e[1].1, t.slug)
    &&& e[2].0 == "uri"@ && crate::value::is_text(e[2].1, t.uri)
    &&& e[3].0 == "size"@ && e[3].1 == TinyLangType::Numeric(
        if t.documents.len() <= i64::MAX as nat {
            t.documents.len() as i64
        } else {
            i64::MAX
        },
    )
    &&& e[4].0 == "items"@ && match e[4].1 {
        TinyLangType::Vec(items) => {
            &&& items@.len() == t.documents.len()
            &&& forall|i: int| 0 <= i < items@.len() ==> match #[trigger] items@[i] {
                TinyLangType::Object(o) => shows_texts(o@, doc_fields(t.documents[i])),
                _ => false,
            }
        },
        _ => false,
    }
}

impl Tag {
    /// The tag as a template object.
    pub fn as_tinylang_state(&self) -> (res: State)
        ensures
            shows_tag(res@, self@),
    {
        let mut items: Vec<TinyLangType> = Vec::new();
        let n = self.documents.len();
        for i in 0..n
            invariant
                n == self.documents@.len(),
                items@.len() == i,
                forall|q: int| 0 <= q < i ==> match #[trigger] items@[q] {
                    TinyLangType::Object(o) => shows_texts(o@, doc_fields(self.documents@[q]@)),
                    _ => false,
                },
        {
            let o = self.documents[i].as_tinylang_state();
            items.push(TinyLangType::Object(o));
        }
        let size: i64 = if (n as u64) <= (i64::MAX as u64) {
            n as i64
        } else {
            i64::MAX
        };
        proof {
            reveal_strlit("name");
            reveal_strlit("slug");
            reveal_strlit("uri");
            reveal_strlit("size");
            reveal_strlit("items");
        }
        let mut state = State::new();
        let e0 = (string_of("name"), TinyLangType::String(string_of(self.name.as_str())));
        let ghost v0 = (e0.0@, e0.1);
        state.insert(e0.0, e0.1);
        assert(state@ =~= seq![v0]);
        let e1 = (string_of("slug"), TinyLangType::String(string_of(self.slug.as_str())));
        let ghost v1 = (e1.0@, e1.1);
        proof {
            assert("slug"@[0] != "name"@[0]);
            crate::value::lemma_insert_new(state@, v1.0, v1.1);
        }
        state.insert(e1.0, e1.1);
        let e2 = (string_of("uri"), TinyLangType::String(string_of(self.uri.as_str())));
        let ghost v2 = (e2.0@, e2.1);
        proof {
            assert("uri"@.len() != "name"@.len());
            crate::value::lemma_insert_new(state@, v2.0, v2.1);
        }
        state.insert(e2.0, e2.1);
        let e3 = (string_of("size"), TinyLangType::Numeric(size));
        let ghost v3 = (e3.0@, e3.1);
        proof {
            assert("size"@[0] != "name"@[0]);
            assert("size"@[1] != "slug"@[1]);
            crate::value::lemma_insert_new(state@, v3.0, v3.1);
        }
        state.insert(e3.0, e3.1);
        let e4 = (string_of("items"), TinyLangType::Vec(items));
        let ghost v4 = (e4.0@, e4.1);
        proof {
            assert("items"@.len() != "name"@.len());
            crate::value::lemma_insert_new(state@, v4.0, v4.1);
        }
        state.insert(e4.0, e4.1);
        assert(state@ =~= seq![v0, v1, v2, v3, v4]);
        assert forall|i: int| 0 <= i < n implies #[trigger] doc_views(self.documents@)[i] == self.documents@[i]@ by {}
        assert(doc_views(self.documents@).len() == n);
        state
    }
}

/// The global `tags` value exposed to every template: one object per tag.
pub fn tags_state(tags: &[Tag]) -> (res: TinyLangType)
    ensures
        match res {
            TinyLangType::Vec(v) => {
                &&& v@.len() == tags@.len()
                &&& forall|i: int| 0 <= i < v@.len() ==> match #[trigger] v@[i] {
                    TinyLangType::Object(o) => shows_tag(o@, tags@[i]@),
                    _ => false,
                }
            },
            _ => false,
        },
{
    let mut out: Vec<TinyLangType> = Vec::new();
    let n = tags.len();
    for i in 0..n
        invariant
            n == tags@.len(),
            out@.len() == i,
            forall|q: int| 0 <= q < i ==> match #[trigger] out@[q] {
                TinyLangType::Object(o) => shows_tag(o@, tags@[q]@),
                _ => false,
            },
    {
        let o = tags[i].as_tinylang_state();
        out.push(TinyLangType::Object(o));
    }
    TinyLangType::Vec(out)
}

} // verus!
