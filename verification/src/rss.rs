//! The RSS feed of the site's posts, newest first.
use vstd::prelude::*;
use crate::text::{chars_of, push_str, string_from_chars};

verus! {

/// The channel-level settings of the feed.
pub struct FeedConfig {
    pub title: String,
    pub description: String,
    pub website_url: String,
    pub language: String,
}

/// An instant in UTC: seconds since the Unix epoch and nanoseconds within
/// the second. A date whose nanoseconds reach a whole second is no instant
/// chrono accepts; its feed entry has no publication date.
pub struct PostDate {
    pub secs: i64,
    pub nanos: u32,
}

/// What the feed needs to know of a post.
pub struct PostMetadata {
    pub title: String,
    pub file_name: String,
    pub date: PostDate,
    pub excerpt: String,
    pub html_content: String,
    pub author: String,
    pub tags: Vec<String>,
}

/// One entry of the feed, as handed to the rss crate.
pub struct RssItem {
    pub title: String,
    pub link: String,
    pub description: String,
    pub content: String,
    pub author: String,
    pub pub_date: Option<String>,
    pub guid: String,
    pub permalink: bool,
}

/// An entry's fields as text: title, link, description, content, author,
/// publication date, guid and whether the guid is a permalink.
pub type ItemText = (Seq<char>, Seq<char>, Seq<char>, Seq<char>, Seq<char>, Option<Seq<char>>, Seq<char>, bool);

/// The text of an optional string.
pub open spec fn opt_text(s: Option<String>) -> Option<Seq<char>> {
    match s {
        Some(t) => Some(t@),
        None => None,
    }
}

/// An entry's fields as text.
pub open spec fn item_text(item: RssItem) -> ItemText {
    (
        item.title@,
        item.link@,
        item.description@,
        item.content@,
        item.author@,
        opt_text(item.pub_date),
        item.guid@,
        item.permalink,
    )
}

/// The entries' fields as text.
pub open spec fn item_texts(items: Seq<RssItem>) -> Seq<ItemText> {
    items.map_values(|i: RssItem| item_text(i))
}

/// What chrono's `DateTime::<Utc>::from_timestamp(secs, nanos)` followed by
/// `to_rfc2822` gives: the RFC 2822 date text, or nothing when chrono
/// refuses the timestamp.
pub uninterp spec fn rfc2822_text(secs: i64, nanos: u32) -> Option<Seq<char>>;

/// What `Channel::to_string` of the rss crate gives for a channel with the
/// given title, description, link, language, last build date and generator,
/// holding one item per entry with its title, link, description, content,
/// author, publication date and guid.
pub uninterp spec fn rss_channel_text(
    title: Seq<char>,
    description: Seq<char>,
    link: Seq<char>,
    language: Seq<char>,
    build_date: Seq<char>,
    generator: Seq<char>,
    items: Seq<ItemText>,
) -> Seq<char>;

/// The instants chrono can write in RFC 2822: the years 0 to 9999.
pub open spec fn rfc2822_range(secs: i64) -> bool {
    -62167219200 <= secs < 253402300800
}

/// chrono's `DateTime::<Utc>::from_timestamp` and `to_rfc2822`. The result
/// is named; `to_rfc2822` panics outside the years 0 to 9999, which the
/// precondition leaves out. Within those years `from_timestamp` refuses only
/// a nanosecond count of a second or more.
#[verifier::external_body]
fn rfc2822(secs: i64, nanos: u32) -> (res: Option<String>)
    requires
        rfc2822_range(secs),
    ensures
        opt_text(res) == rfc2822_text(secs, nanos),
        nanos < 1_000_000_000 ==> res is Some,
{
    chrono::DateTime::from_timestamp(secs, nanos).map(|d| d.to_rfc2822())
}

/// The rss crate's `Channel::to_string` for a channel built from the
/// settings, the entries, the build date and the generator. The result is
/// named.
#[verifier::external_body]
fn channel_text(config: FeedConfig, items: Vec<RssItem>, build_date: String, generator: String) -> (res: String)
    ensures
        res@ == rss_channel_text(
            config.title@,
            config.description@,
            config.website_url@,
            config.language@,
            build_date@,
            generator@,
            item_texts(items@),
        ),
{
    let items = items.into_iter().map(|i| rss::Item { title: Some(i.title), link: Some(i.link),
        description: Some(i.description), content: Some(i.content), author: Some(i.author),
        guid: Some(rss::Guid { value: i.guid, permalink: i.permalink }), pub_date: i.pub_date, ..Default::default() }).collect();
    rss::Channel { title: config.title, description: config.description, link: config.website_url, items,
        language: Some(config.language), last_build_date: Some(build_date), generator: Some(generator),
        ..Default::default() }.to_string()
}

// ---------------------------------------------------------------------------
// Newest first
// ---------------------------------------------------------------------------

/// `a` is later than `b`, as chrono orders instants: by second, then by
/// nanosecond.
pub open spec fn later(a: PostDate, b: PostDate) -> bool {
    a.secs > b.secs || (a.secs == b.secs && a.nanos > b.nanos)
}

/// `a` and `b` are the same instant.
pub open spec fn same_instant(a: PostDate, b: PostDate) -> bool {
    a.secs == b.secs && a.nanos == b.nanos
}

/// Position `a` goes before position `b`: it is later, or they are the same
/// instant and it came first.
pub open spec fn newer_first(dates: Seq<PostDate>, a: int, b: int) -> bool {
    later(dates[a], dates[b]) || (same_instant(dates[a], dates[b]) && a < b)
}

/// `order` lists every position once, latest first, equally late ones in
/// the order they were given in: the arrangement a stable sort from newest to
/// oldest produces.
pub open spec fn is_newest_first(dates: Seq<PostDate>, order: Seq<usize>) -> bool {
    &&& order.len() == dates.len()
    &&& forall|k: int| 0 <= k < order.len() ==> #[trigger] order[k] < dates.len()
    &&& forall|j: int| 0 <= j < dates.len() ==> #[trigger] crate::order::lists(order, j)
    &&& forall|a: int, b: int| 0 <= a < b < order.len() ==> newer_first(dates, #[trigger] order[a] as int, #[trigger] order[b] as int)
}

/// The dates of the posts.
pub open spec fn post_instants(posts: Seq<PostMetadata>) -> Seq<PostDate> {
    posts.map_values(|p: PostMetadata| p.date)
}

fn is_later(a: &PostDate, b: &PostDate) -> (res: bool)
    ensures
        res == later(*a, *b),
{
    a.secs > b.secs || (a.secs == b.secs && a.nanos > b.nanos)
}

/// The positions of the posts from newest to oldest.
fn newest_first_order(posts: &[PostMetadata]) -> (order: Vec<usize>)
    ensures
        is_newest_first(post_instants(posts@), order@),
{
    let ghost ds = post_instants(posts@);
    let mut order: Vec<usize> = Vec::new();
    let n = posts.len();
    for i in 0..n
        invariant
            n == posts@.len(),
            ds == post_instants(posts@),
            order@.len() == i,
            forall|k: int| 0 <= k < order@.len() ==> #[trigger] order@[k] < i,
            forall|j: int| 0 <= j < i ==> #[trigger] crate::order::lists(order@, j),
            forall|a: int, b: int| 0 <= a < b < order@.len() ==> newer_first(ds, #[trigger] order@[a] as int, #[trigger] order@[b] as int),
    {
        let mut p: usize = 0;
        while p < order.len() && !is_later(&posts[i].date, &posts[order[p]].date)
            invariant
                n == posts@.len(),
                ds == post_instants(posts@),
                i < n,
                p <= order@.len(),
                forall|k: int| 0 <= k < order@.len() ==> #[trigger] order@[k] < i,
                forall|a: int| 0 <= a < p ==> !later(ds[i as int], #[trigger] ds[order@[a] as int]),
            decreases order@.len() - p,
        {
            p = p + 1;
        }
        let ghost old_order = order@;
        order.insert(p, i);
        proof {
            assert forall|k: int| 0 <= k < order@.len() implies #[trigger] order@[k] < i + 1 by {
                if k < p {
                    assert(order@[k] == old_order[k]);
                } else if k > p {
                    assert(order@[k] == old_order[k - 1]);
                }
            }
            assert forall|j: int| 0 <= j < i + 1 implies #[trigger] crate::order::lists(order@, j) by {
                if j == i {
                    assert(order@[p as int] == j);
                } else {
                    assert(crate::order::lists(old_order, j));
                    let k0 = choose|k: int| 0 <= k < old_order.len() && #[trigger] old_order[k] == j;
                    if k0 < p {
                        assert(order@[k0] == j);
                    } else {
                        assert(order@[k0 + 1] == j);
                    }
                }
            }
            assert forall|a: int, b: int| 0 <= a < b < order@.len() implies newer_first(ds, #[trigger] order@[a] as int, #[trigger] order@[b] as int) by {
                if b < p {
                    assert(order@[a] == old_order[a] && order@[b] == old_order[b]);
                } else if a > p {
                    assert(order@[a] == old_order[a - 1] && order@[b] == old_order[b - 1]);
                } else if a < p && b > p {
                    assert(order@[a] == old_order[a] && order@[b] == old_order[b - 1]);
                } else if b == p {
                    assert(order@[a] == old_order[a]);
                } else {
                    assert(order@[b] == old_order[b - 1]);
                    let q = old_order[p as int] as int;
                    assert(later(ds[i as int], ds[q]));
                    if b - 1 > p {
                        assert(newer_first(ds, old_order[p as int] as int, old_order[b - 1] as int));
                    }
                }
            }
        }
    }
    order
}

/// The feed entry for a post: the link is the site address followed by the
/// post's file name, the description its excerpt, and the guid the link,
/// marked as a permalink.
pub open spec fn post_item(config: FeedConfig, post: PostMetadata) -> ItemText {
    (
        post.title@,
        config.website_url@ + post.file_name@,
        post.excerpt@,
        post.html_content@,
        post.author@,
        rfc2822_text(post.date.secs, post.date.nanos),
        config.website_url@ + post.file_name@,
        true,
    )
}

/// The generator the feed names.
pub open spec fn generator_name() -> Seq<char> {
    "Squid"@
}

/// The feed entries for the posts, in the given arrangement.
pub open spec fn arranged_items(config: FeedConfig, posts: Seq<PostMetadata>, order: Seq<usize>) -> Seq<ItemText> {
    order.map_values(|i: usize| post_item(config, posts[i as int]))
}

/// The feed lists newer posts first: for an entry before another, its post
/// is later by second, or by nanosecond within the same second; posts of the
/// same instant keep the order they were given in.
pub proof fn lemma_feed_newest_first(posts: Seq<PostMetadata>, order: Seq<usize>)
    requires
        is_newest_first(post_instants(posts), order),
    ensures
        forall|k: int, l: int| 0 <= k < l < order.len() ==> {
            let a = posts[#[trigger] order[k] as int].date;
            let b = posts[#[trigger] order[l] as int].date;
            ||| a.secs > b.secs
            ||| a.secs == b.secs && a.nanos > b.nanos
            ||| a.secs == b.secs && a.nanos == b.nanos && order[k] < order[l]
        },
{
    assert forall|k: int, l: int| 0 <= k < l < order.len() implies {
        let a = posts[#[trigger] order[k] as int].date;
        let b = posts[#[trigger] order[l] as int].date;
        ||| a.secs > b.secs
        ||| a.secs == b.secs && a.nanos > b.nanos
        ||| a.secs == b.secs && a.nanos == b.nanos && order[k] < order[l]
    } by {
        assert(newer_first(post_instants(posts), order[k] as int, order[l] as int));
    }
}

/// Each entry of the feed describes one post: entry `k`
/// has the title, the excerpt as its description, the HTML content, the
/// author and the publication date of post `order[k]`, and links to the site
/// address followed by the post's file name, that link being its permalink
/// guid.
pub proof fn lemma_feed_entries(config: FeedConfig, posts: Seq<PostMetadata>, order: Seq<usize>)
    requires
        is_newest_first(post_instants(posts), order),
    ensures
        arranged_items(config, posts, order).len() == posts.len(),
        forall|k: int| 0 <= k < posts.len() ==> {
            let item = #[trigger] arranged_items(config, posts, order)[k];
            let post = posts[order[k] as int];
            &&& item.0 == post.title@
            &&& item.1 == config.website_url@ + post.file_name@
            &&& item.2 == post.excerpt@
            &&& item.3 == post.html_content@
            &&& item.4 == post.author@
            &&& item.5 == rfc2822_text(post.date.secs, post.date.nanos)
            &&& item.6 == item.1
            &&& item.7
        },
{
    assert(post_instants(posts).len() == posts.len());
}

fn copy(s: &String) -> (res: String)
    ensures
        res@ == s@,
{
    s.clone()
}

/// The RSS feed text for the posts, newest first, with `build_date` as its
/// last build date.
pub fn rss_xml(config: &FeedConfig, posts: &[PostMetadata], build_date: &str) -> (res: String)
    requires
        forall|i: int| 0 <= i < posts@.len() ==> rfc2822_range(#[trigger] posts@[i].date.secs),
    ensures
        exists|order: Seq<usize>|
            {
                &&& #[trigger] is_newest_first(post_instants(posts@), order)
                &&& res@ == rss_channel_text(
                    config.title@,
                    config.description@,
                    config.website_url@,
                    config.language@,
                    build_date@,
                    generator_name(),
                    arranged_items(*config, posts@, order),
                )
            },
        forall|i: int| 0 <= i < posts@.len() && #[trigger] posts@[i].date.nanos < 1_000_000_000
            ==> rfc2822_text(posts@[i].date.secs, posts@[i].date.nanos) is Some,
{
    let order = newest_first_order(posts);
    let mut items: Vec<RssItem> = Vec::new();
    let n = order.len();
    for k in 0..n
        invariant
            n == order@.len(),
            is_newest_first(post_instants(posts@), order@),
            forall|i: int| 0 <= i < posts@.len() ==> rfc2822_range(#[trigger] posts@[i].date.secs),
            item_texts(items@) == arranged_items(*config, posts@, order@).take(k as int),
            forall|q: int| 0 <= q < k && #[trigger] posts@[order@[q] as int].date.nanos < 1_000_000_000
                ==> rfc2822_text(posts@[order@[q] as int].date.secs, posts@[order@[q] as int].date.nanos) is Some,
    {
        let post = &posts[order[k]];
        let mut link: Vec<char> = chars_of(config.website_url.as_str());
        push_str(&mut link, post.file_name.as_str());
        let item = RssItem {
            title: copy(&post.title),
            guid: string_from_chars(link.as_slice()),
            permalink: true,
            link: string_from_chars(link.as_slice()),
            description: copy(&post.excerpt),
            content: copy(&post.html_content),
            author: copy(&post.author),
            pub_date: rfc2822(post.date.secs, post.date.nanos),
        };
        let ghost before = item_texts(items@);
        let ghost added = item_text(item);
        items.push(item);
        assert(item_texts(items@) =~= before.push(added));
        assert(arranged_items(*config, posts@, order@).take(k + 1) =~= arranged_items(*config, posts@, order@).take(k as int).push(added));
    }
    assert(arranged_items(*config, posts@, order@).take(n as int) =~= arranged_items(*config, posts@, order@));
    assert forall|i: int| 0 <= i < posts@.len() && #[trigger] posts@[i].date.nanos < 1_000_000_000
        implies rfc2822_text(posts@[i].date.secs, posts@[i].date.nanos) is Some by {
        assert(crate::order::lists(order@, i));
        let q = choose|q: int| 0 <= q < order@.len() && #[trigger] order@[q] == i;
        assert(posts@[order@[q] as int].date.nanos < 1_000_000_000);
    }
    let settings = FeedConfig {
        title: copy(&config.title),
        description: copy(&config.description),
        website_url: copy(&config.website_url),
        language: copy(&config.language),
    };
    channel_text(settings, items, crate::text::string_of(build_date), crate::text::string_of("Squid"))
}

} // verus!
