//! Functions the site exposes to its templates. Each takes the template's
//! arguments and answers `Nil` when they do not have the expected shape.
use vstd::prelude::*;
use std::fmt::Write;
use crate::gather::{gather, groups_view, is_gathering, labelled_view, lemma_gathering};
use crate::order::{apply_order, is_stable_order, lemma_stable_order_distinct, stable_order_by_text, texts};
use crate::text::{chars_equal, chars_of, lemma_trim_end_prefix, string_from_chars, trim_end, trim_end_spec};
use crate::tags::slug;
use crate::value::{is_text, display, lookup, FuncArguments, State, TinyLangType};

verus! {

// ---------------------------------------------------------------------------
// Shared pieces
// ---------------------------------------------------------------------------

/// The count a template number stands for: negative numbers count as zero,
/// and counts stop at the largest `usize`.
pub open spec fn count_of(n: i64) -> int {
    if n <= 0 {
        0
    } else if n as int > usize::MAX as int {
        usize::MAX as int
    } else {
        n as int
    }
}

/// The count a template number stands for.
pub fn to_count(n: i64) -> (res: usize)
    ensures
        res as int == count_of(n),
{
    if n <= 0 {
        0
    } else if n as u128 > usize::MAX as u128 {
        usize::MAX
    } else {
        n as usize
    }
}

/// The text an item is sorted and grouped by under `key`: for an object,
/// the text of its value under `key`, and the empty text when it has none;
/// the empty text for anything else.
pub open spec fn key_text(item: TinyLangType, key: Seq<char>) -> Seq<char> {
    match item {
        TinyLangType::Object(o) => match lookup(o@, key) {
            Some(v) => display(v),
            None => Seq::<char>::empty(),
        },
        _ => Seq::<char>::empty(),
    }
}

/// The sort texts of a list of items under `key`.
pub open spec fn key_texts(items: Seq<TinyLangType>, key: Seq<char>) -> Seq<Seq<char>> {
    items.map_values(|x: TinyLangType| key_text(x, key))
}

/// The text an item is sorted and grouped by under `key`.
pub fn key_text_of(item: &TinyLangType, key: &str) -> (res: Vec<char>)
    ensures
        res@ == key_text(*item, key@),
{
    match item {
        TinyLangType::Object(o) => match o.get(key) {
            Some(v) => v.display_chars(),
            None => Vec::new(),
        },
        _ => Vec::new(),
    }
}

/// The items of `v`, last first.
pub fn reverse_vec<T>(v: Vec<T>) -> (res: Vec<T>)
    ensures
        res@ == v@.reverse(),
{
    let mut v = v;
    let ghost original = v@;
    let mut res: Vec<T> = Vec::new();
    while v.len() > 0
        invariant
            v@ == original.take(v@.len() as int),
            v@.len() <= original.len(),
            res@ == original.skip(v@.len() as int).reverse(),
        decreases v@.len(),
    {
        let ghost n = v@.len();
        let x = v.pop().unwrap();
        res.push(x);
        assert(v@ =~= original.take(v@.len() as int));
        assert(res@ =~= original.skip(v@.len() as int).reverse());
    }
    assert(original.skip(0) =~= original);
    res
}

/// Takes the argument at `i` out of `args`, leaving `Nil` in its place.
fn take_arg(args: &mut Vec<TinyLangType>, i: usize) -> (res: TinyLangType)
    requires
        i < old(args)@.len(),
    ensures
        res == old(args)@[i as int],
        final(args)@ == old(args)@.update(i as int, TinyLangType::Nil),
{
    let mut res = TinyLangType::Nil;
    std::mem::swap(&mut res, &mut args[i]);
    res
}

// ---------------------------------------------------------------------------
// reverse
// ---------------------------------------------------------------------------

/// Reverses an array: `reverse(items)`.
pub fn reverse(arguments: FuncArguments, _state: &State) -> (res: TinyLangType)
    ensures
        match (if arguments@.len() > 0 { arguments@[0] } else { TinyLangType::Nil }) {
            TinyLangType::Vec(items) => res matches TinyLangType::Vec(out) && out@ == items@.reverse(),
            _ => res == TinyLangType::Nil,
        },
{
    if arguments.len() == 0 {
        return TinyLangType::Nil;
    }
    let mut arguments = arguments;
    match take_arg(&mut arguments, 0) {
        TinyLangType::Vec(items) => TinyLangType::Vec(reverse_vec(items)),
        _ => TinyLangType::Nil,
    }
}

// ---------------------------------------------------------------------------
// limit
// ---------------------------------------------------------------------------

/// The first `n` items of an array, or all of them when there are fewer:
/// `limit(posts.items, 5)`.
pub fn limit(arguments: FuncArguments, _state: &State) -> (res: TinyLangType)
    ensures
        (if arguments@.len() >= 2 {
            match (arguments@[0], arguments@[1]) {
                (TinyLangType::Vec(items), TinyLangType::Numeric(n)) => res matches TinyLangType::Vec(out)
                    && out@ == items@.take(
                    if count_of(n) < items@.len() {
                        count_of(n)
                    } else {
                        items@.len() as int
                    },
                ),
                _ => res == TinyLangType::Nil,
            }
        } else {
            res == TinyLangType::Nil
        }),
{
    if arguments.len() < 2 {
        return TinyLangType::Nil;
    }
    let n = match &arguments[1] {
        TinyLangType::Numeric(n) => to_count(*n),
        _ => return TinyLangType::Nil,
    };
    let mut arguments = arguments;
    match take_arg(&mut arguments, 0) {
        TinyLangType::Vec(items) => {
            let mut items = items;
            let ghost original = items@;
            items.truncate(n);
            assert(n >= original.len() ==> original.take(original.len() as int) =~= original);
            TinyLangType::Vec(items)
        },
        _ => TinyLangType::Nil,
    }
}

// ---------------------------------------------------------------------------
// paginate
// ---------------------------------------------------------------------------

/// The items of page `page` (counted from 1) when pages hold `per_page`
/// items: empty past the last page.
pub open spec fn page_of(items: Seq<TinyLangType>, page: int, per_page: int) -> Seq<TinyLangType> {
    let start = (page - 1) * per_page;
    if start >= items.len() {
        Seq::<TinyLangType>::empty()
    } else if start + per_page < items.len() {
        items.subrange(start, start + per_page)
    } else {
        items.subrange(start, items.len() as int)
    }
}

/// The pages `1` to `last` of `items`, one after the other.
pub open spec fn pages_through(items: Seq<TinyLangType>, per_page: int, last: int) -> Seq<TinyLangType>
    decreases last,
{
    if last <= 0 {
        Seq::<TinyLangType>::empty()
    } else {
        pages_through(items, per_page, last - 1) + page_of(items, last, per_page)
    }
}

/// How many pages of `per_page` items `len` items fill: the last may be
/// partial.
pub open spec fn page_count(len: int, per_page: int) -> int {
    (len + per_page - 1) / per_page
}

proof fn lemma_pages_through(items: Seq<TinyLangType>, per_page: int, last: int)
    requires
        per_page >= 1,
        last >= 0,
    ensures
        pages_through(items, per_page, last) == items.take(
            if last * per_page < items.len() { last * per_page } else { items.len() as int },
        ),
    decreases last,
{
    if last == 0 {
        assert(items.take(0) =~= Seq::<TinyLangType>::empty());
    } else {
        lemma_pages_through(items, per_page, last - 1);
        let start = (last - 1) * per_page;
        assert(start + per_page == last * per_page) by (nonlinear_arith)
            requires
                start == (last - 1) * per_page;
        assert(start >= 0) by (nonlinear_arith)
            requires
                last >= 1,
                per_page >= 1,
                start == (last - 1) * per_page;
        if start >= items.len() {
            assert(pages_through(items, per_page, last) =~= pages_through(items, per_page, last - 1));
        } else if start + per_page < items.len() {
            assert(items.take(start) + items.subrange(start, start + per_page) =~= items.take(start + per_page));
        } else {
            assert(items.take(start) + items.subrange(start, items.len() as int) =~= items.take(items.len() as int));
        }
    }
}

/// A list read page by page gives the list back: pages `1` to
/// `page_count` together are the list, each of them but the last is full,
/// and the page after the last is empty.
pub proof fn lemma_pages_cover(items: Seq<TinyLangType>, per_page: int)
    requires
        per_page >= 1,
    ensures
        pages_through(items, per_page, page_count(items.len() as int, per_page)) == items,
        forall|p: int| 1 <= p < page_count(items.len() as int, per_page) ==> #[trigger] page_of(items, p, per_page).len()
            == per_page,
        page_of(items, page_count(items.len() as int, per_page) + 1, per_page).len() == 0,
{
    let len = items.len() as int;
    let n = page_count(len, per_page);
    assert(n * per_page >= len && n >= 0) by (nonlinear_arith)
        requires
            per_page >= 1,
            len >= 0,
            n == (len + per_page - 1) / per_page;
    assert(len > 0 ==> (n - 1) * per_page < len) by (nonlinear_arith)
        requires
            per_page >= 1,
            len >= 0,
            n == (len + per_page - 1) / per_page;
    assert(len == 0 ==> n == 0) by (nonlinear_arith)
        requires
            per_page >= 1,
            len >= 0,
            n == (len + per_page - 1) / per_page;
    lemma_pages_through(items, per_page, n);
    assert(items.take(len) =~= items);
    assert forall|p: int| 1 <= p < n implies #[trigger] page_of(items, p, per_page).len() == per_page by {
        assert((p - 1) * per_page + per_page == p * per_page) by (nonlinear_arith)
            requires
                per_page >= 1;
        assert(p * per_page <= (n - 1) * per_page) by (nonlinear_arith)
            requires
                p <= n - 1,
                per_page >= 1;
        assert((p - 1) * per_page >= 0) by (nonlinear_arith)
            requires
                p >= 1,
                per_page >= 1;
    }
}

/// Returns the items of a 1-based page: `paginate(items, page, per_page)`.
/// A page or page size of zero answers `Nil`; a page past the end is empty.
pub fn paginate(arguments: FuncArguments, _state: &State) -> (res: TinyLangType)
    ensures
        (if arguments@.len() >= 3 {
            match (arguments@[0], arguments@[1], arguments@[2]) {
                (TinyLangType::Vec(items), TinyLangType::Numeric(p), TinyLangType::Numeric(q)) => if count_of(p) == 0
                    || count_of(q) == 0 {
                    res == TinyLangType::Nil
                } else {
                    res matches TinyLangType::Vec(out) && out@ == page_of(items@, count_of(p), count_of(q))
                },
                _ => res == TinyLangType::Nil,
            }
        } else {
            res == TinyLangType::Nil
        }),
{
    if arguments.len() < 3 {
        return TinyLangType::Nil;
    }
    if !matches!(arguments[0], TinyLangType::Vec(_)) {
        return TinyLangType::Nil;
    }
    let page = match &arguments[1] {
        TinyLangType::Numeric(n) => to_count(*n),
        _ => return TinyLangType::Nil,
    };
    let per_page = match &arguments[2] {
        TinyLangType::Numeric(n) => to_count(*n),
        _ => return TinyLangType::Nil,
    };
    if page == 0 || per_page == 0 {
        return TinyLangType::Nil;
    }
    let mut arguments = arguments;
    let items = match take_arg(&mut arguments, 0) {
        TinyLangType::Vec(v) => v,
        _ => return TinyLangType::Nil,
    };
    let ghost original = items@;
    let len = items.len();
    let start = match (page - 1).checked_mul(per_page) {
        Some(s) => s,
        None => {
            return TinyLangType::Vec(Vec::new());
        },
    };
    if start >= len {
        return TinyLangType::Vec(Vec::new());
    }
    let count = if per_page < len - start {
        per_page
    } else {
        len - start
    };
    let mut items = items;
    let mut tail = items.split_off(start);
    tail.truncate(count);
    assert(tail@ =~= page_of(original, page as int, per_page as int));
    TinyLangType::Vec(tail)
}

// ---------------------------------------------------------------------------
// truncate
// ---------------------------------------------------------------------------

/// The text `truncate` makes of `s` for a limit of `n` characters: `s`
/// itself when it is short enough, otherwise its first `n` characters without
/// trailing whitespace, followed by an ellipsis.
pub open spec fn truncated(s: Seq<char>, n: int) -> Seq<char> {
    if s.len() <= n {
        s
    } else {
        trim_end_spec(s.take(n)) + seq!['\u{2026}']
    }
}

/// `truncate` keeps a text of at most `n` characters whole; a longer one is
/// cut to a prefix of at most `n` characters followed by the ellipsis.
pub proof fn lemma_truncated_shape(s: Seq<char>, n: int)
    requires
        0 <= n,
    ensures
        s.len() <= n ==> truncated(s, n) == s,
        s.len() > n ==> {
            let kept = truncated(s, n).drop_last();
            &&& truncated(s, n).len() > 0
            &&& truncated(s, n).last() == '\u{2026}'
            &&& kept.len() <= n
            &&& kept == s.take(kept.len() as int)
        },
{
    if s.len() > n {
        let cut = s.take(n);
        lemma_trim_end_prefix(cut);
        let kept = trim_end_spec(cut);
        assert((kept + seq!['\u{2026}']).drop_last() =~= kept);
        assert(s.take(kept.len() as int) =~= cut.take(kept.len() as int));
    }
}

/// Shortens a string to at most `n` characters, appending an ellipsis when
/// cut: `truncate(post.title, 50)`.
pub fn truncate(arguments: FuncArguments, _state: &State) -> (res: TinyLangType)
    ensures
        (if arguments@.len() >= 2 {
            match (arguments@[0], arguments@[1]) {
                (TinyLangType::String(s), TinyLangType::Numeric(n)) => res matches TinyLangType::String(out)
                    && out@ == truncated(s@, count_of(n)),
                _ => res == TinyLangType::Nil,
            }
        } else {
            res == TinyLangType::Nil
        }),
{
    if arguments.len() < 2 {
        return TinyLangType::Nil;
    }
    let s = match &arguments[0] {
        TinyLangType::String(s) => s,
        _ => return TinyLangType::Nil,
    };
    let n = match &arguments[1] {
        TinyLangType::Numeric(n) => to_count(*n),
        _ => return TinyLangType::Nil,
    };
    let cs = chars_of(s.as_str());
    if cs.len() <= n {
        return TinyLangType::String(s.clone());
    }
    let mut cut = cs;
    cut.truncate(n);
    let mut out = trim_end(&cut);
    out.push('\u{2026}');
    TinyLangType::String(string_from_chars(out.as_slice()))
}

// ---------------------------------------------------------------------------
// render
// ---------------------------------------------------------------------------

/// The page `render(page)` reads and evaluates: its first argument, when
/// that is a string.
pub fn render_page(arguments: &FuncArguments) -> (res: Option<&String>)
    ensures
        (if arguments@.len() >= 1 {
            match arguments@[0] {
                TinyLangType::String(s) => res == Some(&s),
                _ => res is None,
            }
        } else {
            res is None
        }),
{
    if arguments.len() == 0 {
        return None;
    }
    match &arguments[0] {
        TinyLangType::String(page) => Some(page),
        _ => None,
    }
}

// ---------------------------------------------------------------------------
// date_format
// ---------------------------------------------------------------------------

/// What chrono's `NaiveDate::parse_from_str(s, fmt)` reads from `s`: the
/// year, month and day, or nothing when `s` does not match `fmt`.
pub uninterp spec fn parsed_date(s: Seq<char>, fmt: Seq<char>) -> Option<(i32, u32, u32)>;

/// For each item chrono's `StrftimeItems::new(fmt)` yields, in order,
/// whether it is `Item::Error`.
pub uninterp spec fn strftime_errors(fmt: Seq<char>) -> Seq<bool>;

/// A strftime string is valid when none of its items is an error.
pub open spec fn strftime_valid(fmt: Seq<char>) -> bool {
    forall|i: int| 0 <= i < strftime_errors(fmt).len() ==> !#[trigger] strftime_errors(fmt)[i]
}

/// What chrono writes for the date `year-month-day` with the strftime string
/// `fmt`, or nothing when the date does not exist or writing fails.
pub uninterp spec fn formatted_date(year: i32, month: u32, day: u32, fmt: Seq<char>) -> Option<Seq<char>>;

/// chrono's `NaiveDate::parse_from_str`, with the date taken apart into year,
/// month and day. The result is named.
#[verifier::external_body]
fn parse_date(s: &str, fmt: &str) -> (res: Option<(i32, u32, u32)>)
    ensures
        res == parsed_date(s@, fmt@),
{
    match chrono::NaiveDate::parse_from_str(s, fmt) {
        Ok(d) => Some((chrono::Datelike::year(&d), chrono::Datelike::month(&d), chrono::Datelike::day(&d))),
        Err(_) => None,
    }
}

/// chrono's `StrftimeItems::new(fmt)`, each item mapped to whether it is
/// `Item::Error`. The result is named.
#[verifier::external_body]
fn strftime_item_errors(fmt: &str) -> (res: Vec<bool>)
    ensures
        res@ == strftime_errors(fmt@),
{
    chrono::format::StrftimeItems::new(fmt).map(|i| matches!(i, chrono::format::Item::Error)).collect()
}

/// Whether no item of the strftime string `fmt` is an error.
fn format_is_valid(fmt: &str) -> (res: bool)
    ensures
        res == strftime_valid(fmt@),
{
    let errors = strftime_item_errors(fmt);
    let mut i: usize = 0;
    while i < errors.len()
        invariant
            i <= errors@.len(),
            errors@ == strftime_errors(fmt@),
            forall|k: int| 0 <= k < i ==> !errors@[k],
        decreases errors@.len() - i,
    {
        if errors[i] {
            return false;
        }
        i = i + 1;
    }
    true
}

/// chrono's `NaiveDate::from_ymd_opt` and `format(fmt)`, written into a
/// string; a date that does not exist or a formatting error gives `None`.
/// The result is named.
#[verifier::external_body]
fn format_date(year: i32, month: u32, day: u32, fmt: &str) -> (res: Option<String>)
    ensures
        match res {
            Some(t) => formatted_date(year, month, day, fmt@) == Some(t@),
            None => formatted_date(year, month, day, fmt@) is None,
        },
{
    let mut out = String::new();
    match chrono::NaiveDate::from_ymd_opt(year, month, day) {
        Some(d) => match write!(out, "{}", d.format(fmt)) {
            Ok(()) => Some(out),
            Err(_) => None,
        },
        None => None,
    }
}

/// The layout of frontmatter dates.
pub open spec fn date_layout() -> Seq<char> {
    "%Y-%m-%d"@
}

/// Formats a frontmatter date with a chrono strftime string:
/// `date_format(post.date, '%B %d, %Y')` -> "January 10, 2024". An
/// unreadable date or an invalid format string answers `Nil`.
pub fn date_format(arguments: FuncArguments, _state: &State) -> (res: TinyLangType)
    ensures
        (if arguments@.len() >= 2 {
            match (arguments@[0], arguments@[1]) {
                (TinyLangType::String(date), TinyLangType::String(fmt)) => match parsed_date(date@, date_layout()) {
                    Some(ymd) => if strftime_valid(fmt@) {
                        match formatted_date(ymd.0, ymd.1, ymd.2, fmt@) {
                            Some(t) => res matches TinyLangType::String(out) && out@ == t,
                            None => res == TinyLangType::Nil,
                        }
                    } else {
                        res == TinyLangType::Nil
                    },
                    None => res == TinyLangType::Nil,
                },
                _ => res == TinyLangType::Nil,
            }
        } else {
            res == TinyLangType::Nil
        }),
{
    if arguments.len() < 2 {
        return TinyLangType::Nil;
    }
    let (date, fmt) = match (&arguments[0], &arguments[1]) {
        (TinyLangType::String(d), TinyLangType::String(f)) => (d, f),
        _ => return TinyLangType::Nil,
    };
    let (year, month, day) = match parse_date(date.as_str(), "%Y-%m-%d") {
        Some(ymd) => ymd,
        None => return TinyLangType::Nil,
    };
    if !format_is_valid(fmt.as_str()) {
        return TinyLangType::Nil;
    }
    match format_date(year, month, day, fmt.as_str()) {
        Some(t) => TinyLangType::String(t),
        None => TinyLangType::Nil,
    }
}

// ---------------------------------------------------------------------------
// slugify
// ---------------------------------------------------------------------------

/// Turns a string into a url-friendly slug: `slugify('Rust & Web')` ->
/// `"rust-web"`.
pub fn slugify(arguments: FuncArguments, _state: &State) -> (res: TinyLangType)
    ensures
        (if arguments@.len() >= 1 {
            match arguments@[0] {
                TinyLangType::String(s) => res matches TinyLangType::String(out) && out@ == slug(s@),
                _ => res == TinyLangType::Nil,
            }
        } else {
            res == TinyLangType::Nil
        }),
{
    if arguments.len() == 0 {
        return TinyLangType::Nil;
    }
    match &arguments[0] {
        TinyLangType::String(s) => TinyLangType::String(crate::tags::slugify(s.as_str())),
        _ => TinyLangType::Nil,
    }
}

// ---------------------------------------------------------------------------
// where
// ---------------------------------------------------------------------------

/// `item` is an object whose value under `key` shows as `expected`.
pub open spec fn has_value(item: TinyLangType, key: Seq<char>, expected: Seq<char>) -> bool {
    match item {
        TinyLangType::Object(o) => match lookup(o@, key) {
            Some(v) => display(v) == expected,
            None => false,
        },
        _ => false,
    }
}

/// `where` keeps exactly the objects whose value under the key shows as the
/// given value does, in their order: every kept item comes from the list
/// and is such an object, and every such object of the list is kept.
pub proof fn lemma_where_keeps_matches(
    items: Seq<TinyLangType>,
    key: Seq<char>,
    value: TinyLangType,
    out: Seq<TinyLangType>,
)
    requires
        out == items.filter(|x: TinyLangType| has_value(x, key, display(value))),
    ensures
        out.len() <= items.len(),
        forall|k: int| 0 <= k < out.len() ==> items.contains(#[trigger] out[k]) && {
            &&& out[k] matches TinyLangType::Object(o)
            &&& lookup(o@, key) matches Some(w)
            &&& display(w) == display(value)
        },
        forall|i: int| 0 <= i < items.len() ==> ({
            &&& #[trigger] items[i] matches TinyLangType::Object(o)
            &&& lookup(o@, key) matches Some(w)
            &&& display(w) == display(value)
        } ==> out.contains(items[i])),
{
    let pred = |x: TinyLangType| has_value(x, key, display(value));
    items.lemma_filter_len(pred);
    assert forall|k: int| 0 <= k < out.len() implies items.contains(#[trigger] out[k]) && {
        &&& out[k] matches TinyLangType::Object(o)
        &&& lookup(o@, key) matches Some(w)
        &&& display(w) == display(value)
    } by {
        items.lemma_filter_pred(pred, k);
        items.lemma_filter_contains_rev(pred, out[k]);
    }
    assert forall|i: int| 0 <= i < items.len() && pred(#[trigger] items[i]) implies out.contains(items[i]) by {
        items.lemma_filter_contains(pred, i);
    }
}

/// The objects of an array whose value under a key shows as the given
/// value does: `where(posts.items, 'author', 'era')`.
pub fn where_fn(arguments: FuncArguments, _state: &State) -> (res: TinyLangType)
    ensures
        (if arguments@.len() >= 3 {
            match (arguments@[0], arguments@[1]) {
                (TinyLangType::Vec(items), TinyLangType::String(key)) => res matches TinyLangType::Vec(out)
                    && out@ == items@.filter(
                    |x: TinyLangType| has_value(x, key@, display(arguments@[2])),
                ),
                _ => res == TinyLangType::Nil,
            }
        } else {
            res == TinyLangType::Nil
        }),
{
    if arguments.len() < 3 {
        return TinyLangType::Nil;
    }
    if !matches!(arguments[0], TinyLangType::Vec(_)) {
        return TinyLangType::Nil;
    }
    let key = match &arguments[1] {
        TinyLangType::String(k) => k.clone(),
        _ => return TinyLangType::Nil,
    };
    let expected = arguments[2].display_chars();
    let ghost pred = |x: TinyLangType| has_value(x, key@, expected@);
    let mut arguments = arguments;
    let items = match take_arg(&mut arguments, 0) {
        TinyLangType::Vec(v) => v,
        _ => return TinyLangType::Nil,
    };
    let ghost original = items@;
    let mut out: Vec<TinyLangType> = Vec::new();
    for item in it: items
        invariant
            it.seq() == original,
            pred == (|x: TinyLangType| has_value(x, key@, expected@)),
            out@ == original.take(it.index() as int).filter(pred),
    {
        let ghost i = it.index();
        let keep = match &item {
            TinyLangType::Object(o) => match o.get(key.as_str()) {
                Some(v) => {
                    let shown = v.display_chars();
                    chars_equal(&shown, &expected)
                },
                None => false,
            },
            _ => false,
        };
        proof {
            assert(item == original[i as int]);
            assert(keep == pred(item));
            assert(original.take(i + 1) == original.take(i as int).push(item));
            original.take(i as int).lemma_filter_push(item, pred);
        }
        if keep {
            out.push(item);
        }
    }
    assert(original.take(original.len() as int) =~= original);
    TinyLangType::Vec(out)
}

// ---------------------------------------------------------------------------
// sort_by_key
// ---------------------------------------------------------------------------

/// `out` is `items` stably sorted by their texts under `key`, reversed when
/// `reversed` holds.
pub open spec fn sorted_by_key(
    items: Seq<TinyLangType>,
    key: Seq<char>,
    reversed: bool,
    out: Seq<TinyLangType>,
) -> bool {
    exists|order: Seq<usize>|
        {
            &&& #[trigger] is_stable_order(key_texts(items, key), order)
            &&& order.map_values(|i: usize| items[i as int]) == (if reversed {
                out.reverse()
            } else {
                out
            })
        }
}

/// `sort_by_key` returns the same items, each as often, ordered by their
/// text under the key: ascending, or descending when reversed.
pub proof fn lemma_sort_by_key_sorted(
    items: Seq<TinyLangType>,
    key: Seq<char>,
    reversed: bool,
    out: Seq<TinyLangType>,
)
    requires
        sorted_by_key(items, key, reversed, out),
    ensures
        out.to_multiset() == items.to_multiset(),
        forall|a: int, b: int| 0 <= a < b < out.len() ==> if reversed {
            crate::text::text_le(key_text(#[trigger] out[b], key), key_text(#[trigger] out[a], key))
        } else {
            crate::text::text_le(key_text(out[a], key), key_text(out[b], key))
        },
{
    let order = choose|order: Seq<usize>|
        {
            &&& #[trigger] is_stable_order(key_texts(items, key), order)
            &&& order.map_values(|i: usize| items[i as int]) == (if reversed {
                out.reverse()
            } else {
                out
            })
        };
    let ks = key_texts(items, key);
    let mapped = order.map_values(|i: usize| items[i as int]);
    crate::sorted::lemma_stable_order_sorted(ks, order);
    crate::sorted::lemma_rearranged_items(items, order);
    assert(crate::sorted::picked(items, order) =~= mapped);
    let sorted_keys = crate::sorted::picked(ks, order);
    assert forall|a: int, b: int| 0 <= a < b < mapped.len() implies crate::text::text_le(
        key_text(#[trigger] mapped[a], key),
        key_text(#[trigger] mapped[b], key),
    ) by {
        assert(crate::sorted::text_order()(sorted_keys[a], sorted_keys[b]));
    }
    if reversed {
        assert(mapped == out.reverse());
        out.lemma_reverse_to_multiset();
        assert(out.reverse().reverse() =~= out);
        assert forall|a: int, b: int| 0 <= a < b < out.len() implies crate::text::text_le(
            key_text(#[trigger] out[b], key),
            key_text(#[trigger] out[a], key),
        ) by {
            let n = out.len() as int;
            assert(out[b] == mapped[n - 1 - b]);
            assert(out[a] == mapped[n - 1 - a]);
        }
    }
}

/// The third argument asks for descending order.
pub open spec fn asks_reversed(arguments: Seq<TinyLangType>) -> bool {
    &&& arguments.len() == 3
    &&& arguments[2] matches TinyLangType::String(s)
    &&& s@ == "reversed"@
}

/// Sorts an array of objects by the text of their value under a key,
/// keeping equal keys in their order; a third argument `'reversed'` reverses
/// the result: `sort_by_key(posts.items, 'date', 'reversed')`.
pub fn sort_by_key(arguments: FuncArguments, _state: &State) -> (res: TinyLangType)
    ensures
        (if arguments@.len() >= 2 {
            match (arguments@[0], arguments@[1]) {
                (TinyLangType::Vec(items), TinyLangType::String(key)) => res matches TinyLangType::Vec(out)
                    && sorted_by_key(items@, key@, asks_reversed(arguments@), out@),
                _ => res == TinyLangType::Nil,
            }
        } else {
            res == TinyLangType::Nil
        }),
{
    if arguments.len() < 2 {
        return TinyLangType::Nil;
    }
    if !matches!(arguments[0], TinyLangType::Vec(_)) {
        return TinyLangType::Nil;
    }
    let key = match &arguments[1] {
        TinyLangType::String(k) => k.clone(),
        _ => return TinyLangType::Nil,
    };
    let reversed = arguments.len() == 3 && match &arguments[2] {
        TinyLangType::String(s) => {
            let given = chars_of(s.as_str());
            let word = chars_of("reversed");
            chars_equal(&given, &word)
        },
        _ => false,
    };
    let mut arguments = arguments;
    let items = match take_arg(&mut arguments, 0) {
        TinyLangType::Vec(v) => v,
        _ => return TinyLangType::Nil,
    };
    let ghost original = items@;
    let mut keys: Vec<Vec<char>> = Vec::new();
    let n = items.len();
    for i in 0..n
        invariant
            n == items@.len(),
            items@ == original,
            keys@.len() == i,
            forall|j: int| 0 <= j < i ==> (#[trigger] keys@[j])@ == key_text(original[j], key@),
    {
        keys.push(key_text_of(&items[i], key.as_str()));
    }
    assert(texts(keys@) =~= key_texts(original, key@));
    let order = stable_order_by_text(&keys);
    proof {
        lemma_stable_order_distinct(texts(keys@), order@);
    }
    let sorted = apply_order(items, &order);
    let ghost mapped = order@.map_values(|i: usize| original[i as int]);
    assert(sorted@ =~= mapped);
    let out = if reversed {
        reverse_vec(sorted)
    } else {
        sorted
    };
    proof {
        if reversed {
            assert(out@.reverse() =~= mapped);
        }
        assert(is_stable_order(key_texts(original, key@), order@));
    }
    TinyLangType::Vec(out)
}

// ---------------------------------------------------------------------------
// group_by
// ---------------------------------------------------------------------------

/// The items paired with their texts under `key`.
pub open spec fn keyed(items: Seq<TinyLangType>, key: Seq<char>) -> Seq<(Seq<char>, TinyLangType)> {
    items.map_values(|x: TinyLangType| (key_text(x, key), x))
}

proof fn lemma_keyed_filter(items: Seq<TinyLangType>, key: Seq<char>, label: Seq<char>)
    ensures
        keyed(items, key).filter(|p: (Seq<char>, TinyLangType)| p.0 == label).map_values(
            |p: (Seq<char>, TinyLangType)| p.1,
        ) == items.filter(|x: TinyLangType| key_text(x, key) == label),
    decreases items.len(),
{
    let kp = |p: (Seq<char>, TinyLangType)| p.0 == label;
    let ip = |x: TinyLangType| key_text(x, key) == label;
    if items.len() == 0 {
        reveal(Seq::filter);
        assert(keyed(items, key) =~= Seq::<(Seq<char>, TinyLangType)>::empty());
        assert(keyed(items, key).filter(kp) =~= Seq::<(Seq<char>, TinyLangType)>::empty());
        assert(items.filter(ip) =~= Seq::<TinyLangType>::empty());
        assert(keyed(items, key).filter(kp).map_values(|p: (Seq<char>, TinyLangType)| p.1) =~= Seq::<TinyLangType>::empty());
    } else {
        let rest = items.drop_last();
        let x = items.last();
        lemma_keyed_filter(rest, key, label);
        assert(rest.push(x) =~= items);
        assert(keyed(rest, key).push((key_text(x, key), x)) =~= keyed(items, key));
        rest.lemma_filter_push(x, ip);
        keyed(rest, key).lemma_filter_push((key_text(x, key), x), kp);
        assert(keyed(items, key).filter(kp).map_values(|p: (Seq<char>, TinyLangType)| p.1) =~= items.filter(ip));
    }
}

/// `group_by` makes one group per text the items show under the key, in
/// increasing text order, none empty, each holding exactly the items that
/// show its text, in their order.
pub proof fn lemma_group_by_groups(
    items: Seq<TinyLangType>,
    key: Seq<char>,
    groups: Seq<(Seq<char>, Seq<TinyLangType>)>,
)
    requires
        is_gathering(keyed(items, key), groups),
    ensures
        forall|j: int| 0 <= j < groups.len() ==> (#[trigger] groups[j]).1 == items.filter(
            |x: TinyLangType| key_text(x, key) == groups[j].0,
        ),
        forall|j: int| 0 <= j < groups.len() ==> (#[trigger] groups[j]).1.len() > 0,
        forall|a: int, b: int| 0 <= a < b < groups.len() ==> crate::text::text_lt((#[trigger] groups[a]).0, (#[trigger] groups[b]).0),
{
    lemma_gathering(keyed(items, key), groups);
    assert forall|j: int| 0 <= j < groups.len() implies (#[trigger] groups[j]).1 == items.filter(
        |x: TinyLangType| key_text(x, key) == groups[j].0,
    ) by {
        let label = groups[j].0;
        lemma_keyed_filter(items, key, label);
        assert((|p: (Seq<char>, TinyLangType)| p.0 == label) =~= (|p: (Seq<char>, TinyLangType)| p.0 == groups[j].0));
        assert((|x: TinyLangType| key_text(x, key) == label) =~= (|x: TinyLangType| key_text(x, key) == groups[j].0));
    }
}

/// `v` is an array holding `items`.
pub open spec fn is_array(v: TinyLangType, items: Seq<TinyLangType>) -> bool {
    match v {
        TinyLangType::Vec(vs) => vs@ == items,
        _ => false,
    }
}

/// `g` is the object `{key: label, items: items}`.
pub open spec fn is_group(g: TinyLangType, label: Seq<char>, items: Seq<TinyLangType>) -> bool {
    match g {
        TinyLangType::Object(o) => {
            &&& o@.len() == 2
            &&& o@[0].0 == "key"@
            &&& is_text(o@[0].1, label)
            &&& o@[1].0 == "items"@
            &&& is_array(o@[1].1, items)
        },
        _ => false,
    }
}

/// `out` shows `groups` as `{key, items}` objects, one for one.
pub open spec fn shows_groups(out: Seq<TinyLangType>, groups: Seq<(Seq<char>, Seq<TinyLangType>)>) -> bool {
    &&& out.len() == groups.len()
    &&& forall|j: int| 0 <= j < out.len() ==> is_group(#[trigger] out[j], groups[j].0, groups[j].1)
}

/// The object `{key: label, items: items}`.
fn make_group(label: &Vec<char>, items: Vec<TinyLangType>) -> (g: TinyLangType)
    ensures
        is_group(g, label@, items@),
{
    let mut group = State::new();
    let key_name = crate::text::string_of("key");
    let items_name = crate::text::string_of("items");
    let label_value = TinyLangType::String(string_from_chars(label.as_slice()));
    let ghost first = (key_name@, label_value);
    group.insert(key_name, label_value);
    assert(group@ =~= seq![first]);
    let items_value = TinyLangType::Vec(items);
    let ghost second = (items_name@, items_value);
    proof {
        reveal_strlit("key");
        reveal_strlit("items");
        assert("key"@.len() != "items"@.len());
        let rest = seq![first].drop_first();
        assert(rest =~= Seq::<(Seq<char>, TinyLangType)>::empty());
        assert(crate::value::assoc_insert(seq![first], items_name@, items_value) == seq![first]
            + crate::value::assoc_insert(rest, items_name@, items_value));
    }
    group.insert(items_name, items_value);
    assert(group@ =~= seq![first, second]);
    TinyLangType::Object(group)
}

/// Groups the objects of an array by the text of their value under a key:
/// `group_by(posts.items, 'author')` returns `[{key: 'era', items: [...]}, ...]`
/// sorted by key, one group per distinct text, each with its items in order.
pub fn group_by(arguments: FuncArguments, _state: &State) -> (res: TinyLangType)
    ensures
        (if arguments@.len() >= 2 {
            match (arguments@[0], arguments@[1]) {
                (TinyLangType::Vec(items), TinyLangType::String(key)) => res matches TinyLangType::Vec(out)
                    && exists|groups: Seq<(Seq<char>, Seq<TinyLangType>)>| #[trigger]
                    is_gathering(keyed(items@, key@), groups) && shows_groups(out@, groups),
                _ => res == TinyLangType::Nil,
            }
        } else {
            res == TinyLangType::Nil
        }),
{
    if arguments.len() < 2 {
        return TinyLangType::Nil;
    }
    if !matches!(arguments[0], TinyLangType::Vec(_)) {
        return TinyLangType::Nil;
    }
    let key = match &arguments[1] {
        TinyLangType::String(k) => k.clone(),
        _ => return TinyLangType::Nil,
    };
    let mut arguments = arguments;
    let items = match take_arg(&mut arguments, 0) {
        TinyLangType::Vec(v) => v,
        _ => return TinyLangType::Nil,
    };
    let ghost original = items@;
    let mut labelled: Vec<(Vec<char>, TinyLangType)> = Vec::new();
    for item in it: items
        invariant
            it.seq() == original,
            labelled@.len() == it.index(),
            labelled_view(labelled@) == keyed(original, key@).take(it.index() as int),
    {
        let ghost i = it.index();
        assert(item == original[i as int]);
        let label = key_text_of(&item, key.as_str());
        labelled.push((label, item));
        assert(labelled_view(labelled@) =~= keyed(original, key@).take(i + 1));
    }
    assert(keyed(original, key@).take(original.len() as int) =~= keyed(original, key@));
    let groups = gather(labelled);
    let ghost gv = groups_view(groups@);
    let mut out: Vec<TinyLangType> = Vec::new();
    for g in it: groups
        invariant
            gv == groups_view(it.seq()),
            out@.len() == it.index(),
            forall|j: int| 0 <= j < out@.len() ==> is_group(#[trigger] out@[j], gv[j].0, gv[j].1),
    {
        let (label, vs) = g;
        let group = make_group(&label, vs);
        out.push(group);
    }
    TinyLangType::Vec(out)
}

} // verus!
