use squid::tinylang::{
    date_format, group_by, limit, paginate, render_page, reverse, slugify, sort_by_key, truncate,
    where_fn,
};
use squid::value::{State, TinyLangType};

fn make_obj(key: &str, val: &str) -> TinyLangType {
    let mut state = State::new();
    state.insert(key.to_string(), TinyLangType::String(val.to_string()));
    TinyLangType::Object(state)
}

fn extract_str(item: &TinyLangType, key: &str) -> String {
    if let TinyLangType::Object(o) = item {
        if let Some(TinyLangType::String(s)) = o.get(key) {
            return s.clone();
        }
    }
    panic!("expected string at key {key}");
}

#[test]
fn test_sort_by_key_basic() {
    let collection = TinyLangType::Vec(vec![
        make_obj("name", "Charlie"),
        make_obj("name", "Alice"),
        make_obj("name", "Bob"),
    ]);
    let result = sort_by_key(
        vec![collection, TinyLangType::String("name".into())],
        &State::new(),
    );
    let TinyLangType::Vec(items) = result else {
        panic!("expected vec");
    };
    let names: Vec<String> = items.iter().map(|i| extract_str(i, "name")).collect();
    assert_eq!(names, vec!["Alice", "Bob", "Charlie"]);
}

#[test]
fn test_sort_by_key_reversed() {
    let collection = TinyLangType::Vec(vec![
        make_obj("name", "Alice"),
        make_obj("name", "Charlie"),
        make_obj("name", "Bob"),
    ]);
    let result = sort_by_key(
        vec![
            collection,
            TinyLangType::String("name".into()),
            TinyLangType::String("reversed".into()),
        ],
        &State::new(),
    );
    let TinyLangType::Vec(items) = result else {
        panic!("expected vec");
    };
    let names: Vec<String> = items.iter().map(|i| extract_str(i, "name")).collect();
    assert_eq!(names, vec!["Charlie", "Bob", "Alice"]);
}

#[test]
fn test_sort_by_key_insufficient_args() {
    let result = sort_by_key(vec![TinyLangType::String("x".into())], &State::new());
    assert!(result == TinyLangType::Nil);
}

#[test]
fn test_sort_by_key_wrong_type() {
    let result = sort_by_key(
        vec![TinyLangType::Numeric(1), TinyLangType::String("k".into())],
        &State::new(),
    );
    assert!(result == TinyLangType::Nil);
}

#[test]
fn test_paginate_basic() {
    let items = TinyLangType::Vec((1..=10).map(|i| TinyLangType::Numeric(i)).collect());
    let result = paginate(
        vec![items, TinyLangType::Numeric(2), TinyLangType::Numeric(3)],
        &State::new(),
    );
    let TinyLangType::Vec(page) = result else {
        panic!("expected vec");
    };
    assert_eq!(page.len(), 3);
    assert!(page[0] == TinyLangType::Numeric(4));
    assert!(page[2] == TinyLangType::Numeric(6));
}

#[test]
fn test_paginate_last_page_partial() {
    let items = TinyLangType::Vec((1..=5).map(|i| TinyLangType::Numeric(i)).collect());
    let result = paginate(
        vec![items, TinyLangType::Numeric(2), TinyLangType::Numeric(3)],
        &State::new(),
    );
    let TinyLangType::Vec(page) = result else {
        panic!("expected vec");
    };
    assert_eq!(page.len(), 2);
}

#[test]
fn test_paginate_page_out_of_bounds() {
    let items = TinyLangType::Vec((1..=3).map(|i| TinyLangType::Numeric(i)).collect());
    let result = paginate(
        vec![items, TinyLangType::Numeric(5), TinyLangType::Numeric(3)],
        &State::new(),
    );
    let TinyLangType::Vec(page) = result else {
        panic!("expected empty vec, got non-vec");
    };
    assert!(page.is_empty());
}

#[test]
fn test_paginate_zero_page_returns_nil() {
    let items = TinyLangType::Vec(vec![TinyLangType::Numeric(1)]);
    let result = paginate(
        vec![items, TinyLangType::Numeric(0), TinyLangType::Numeric(3)],
        &State::new(),
    );
    assert!(result == TinyLangType::Nil);
}

#[test]
fn test_paginate_insufficient_args() {
    let result = paginate(vec![TinyLangType::Numeric(1)], &State::new());
    assert!(result == TinyLangType::Nil);
}

#[test]
fn test_date_format_basic() {
    let result = date_format(
        vec![
            TinyLangType::String("2024-01-10".into()),
            TinyLangType::String("%B %d, %Y".into()),
        ],
        &State::new(),
    );
    assert!(result == TinyLangType::String("January 10, 2024".into()));
}

#[test]
fn test_date_format_invalid_date_returns_nil() {
    let result = date_format(
        vec![
            TinyLangType::String("not a date".into()),
            TinyLangType::String("%Y".into()),
        ],
        &State::new(),
    );
    assert!(result == TinyLangType::Nil);
}

#[test]
fn test_date_format_invalid_format_returns_nil() {
    let result = date_format(
        vec![
            TinyLangType::String("2024-01-10".into()),
            TinyLangType::String("%QQQ".into()),
        ],
        &State::new(),
    );
    assert!(result == TinyLangType::Nil);
}

#[test]
fn test_slugify_function() {
    let result = slugify(
        vec![TinyLangType::String("Hello, World!".into())],
        &State::new(),
    );
    assert!(result == TinyLangType::String("hello-world".into()));
}

#[test]
fn test_where_filters_by_value() {
    let items = TinyLangType::Vec(vec![
        make_obj("author", "era"),
        make_obj("author", "other"),
        make_obj("author", "era"),
    ]);
    let result = where_fn(
        vec![
            items,
            TinyLangType::String("author".into()),
            TinyLangType::String("era".into()),
        ],
        &State::new(),
    );
    let TinyLangType::Vec(filtered) = result else {
        panic!("expected vec");
    };
    assert_eq!(filtered.len(), 2);
}

#[test]
fn test_where_missing_key_excluded() {
    let items = TinyLangType::Vec(vec![make_obj("author", "era"), make_obj("title", "x")]);
    let result = where_fn(
        vec![
            items,
            TinyLangType::String("author".into()),
            TinyLangType::String("era".into()),
        ],
        &State::new(),
    );
    let TinyLangType::Vec(filtered) = result else {
        panic!("expected vec");
    };
    assert_eq!(filtered.len(), 1);
}

#[test]
fn test_limit_takes_first_n() {
    let items = TinyLangType::Vec((1..=5).map(|i| TinyLangType::Numeric(i)).collect());
    let result = limit(vec![items, TinyLangType::Numeric(2)], &State::new());
    let TinyLangType::Vec(limited) = result else {
        panic!("expected vec");
    };
    assert_eq!(limited.len(), 2);
    assert!(limited[0] == TinyLangType::Numeric(1));
}

#[test]
fn test_limit_larger_than_len() {
    let items = TinyLangType::Vec(vec![TinyLangType::Numeric(1)]);
    let result = limit(vec![items, TinyLangType::Numeric(10)], &State::new());
    let TinyLangType::Vec(limited) = result else {
        panic!("expected vec");
    };
    assert_eq!(limited.len(), 1);
}

#[test]
fn test_group_by_groups_and_sorts() {
    let items = TinyLangType::Vec(vec![
        make_obj("author", "zoe"),
        make_obj("author", "anna"),
        make_obj("author", "zoe"),
    ]);
    let result = group_by(
        vec![items, TinyLangType::String("author".into())],
        &State::new(),
    );
    let TinyLangType::Vec(groups) = result else {
        panic!("expected vec");
    };
    assert_eq!(groups.len(), 2);
    let TinyLangType::Object(first) = &groups[0] else {
        panic!("expected object");
    };
    assert!(first.get("key").unwrap() == &TinyLangType::String("anna".into()));
    let TinyLangType::Object(second) = &groups[1] else {
        panic!("expected object");
    };
    let Some(TinyLangType::Vec(zoe_items)) = second.get("items") else {
        panic!("expected items vec");
    };
    assert_eq!(zoe_items.len(), 2);
}

#[test]
fn test_truncate_shortens_with_ellipsis() {
    let result = truncate(
        vec![
            TinyLangType::String("hello world".into()),
            TinyLangType::Numeric(5),
        ],
        &State::new(),
    );
    assert!(result == TinyLangType::String("hello\u{2026}".into()));
}

#[test]
fn test_truncate_short_string_unchanged() {
    let result = truncate(
        vec![TinyLangType::String("hi".into()), TinyLangType::Numeric(5)],
        &State::new(),
    );
    assert!(result == TinyLangType::String("hi".into()));
}

#[test]
fn test_reverse_basic() {
    let items = TinyLangType::Vec(vec![
        TinyLangType::Numeric(1),
        TinyLangType::Numeric(2),
        TinyLangType::Numeric(3),
    ]);
    let TinyLangType::Vec(result) = reverse(vec![items], &State::new()) else {
        panic!("expected vec");
    };
    assert_eq!(result.len(), 3);
    assert!(result[0] == TinyLangType::Numeric(3));
    assert!(result[1] == TinyLangType::Numeric(2));
    assert!(result[2] == TinyLangType::Numeric(1));
}

#[test]
fn test_reverse_empty() {
    let items = TinyLangType::Vec(vec![]);
    let TinyLangType::Vec(result) = reverse(vec![items], &State::new()) else {
        panic!("expected vec");
    };
    assert!(result.is_empty());
}

#[test]
fn test_reverse_wrong_type() {
    let result = reverse(vec![TinyLangType::String("x".into())], &State::new());
    assert!(result == TinyLangType::Nil);
}

// ---------------------------------------------------------------------------
// Further cases
// ---------------------------------------------------------------------------

#[test]
fn sort_by_key_keeps_equal_keys_in_order() {
    let mut a = State::new();
    a.insert("k".into(), TinyLangType::String("b".into()));
    a.insert("id".into(), TinyLangType::Numeric(1));
    let mut b = State::new();
    b.insert("k".into(), TinyLangType::String("a".into()));
    b.insert("id".into(), TinyLangType::Numeric(2));
    let mut c = State::new();
    c.insert("k".into(), TinyLangType::String("b".into()));
    c.insert("id".into(), TinyLangType::Numeric(3));
    let items = TinyLangType::Vec(vec![
        TinyLangType::Object(a),
        TinyLangType::Object(b),
        TinyLangType::Object(c),
        TinyLangType::Numeric(7),
    ]);
    let TinyLangType::Vec(sorted) = sort_by_key(
        vec![items, TinyLangType::String("k".into())],
        &State::new(),
    ) else {
        panic!("expected vec");
    };
    // items without the key sort first (empty text), equal keys keep their order
    assert!(sorted[0] == TinyLangType::Numeric(7));
    let ids: Vec<TinyLangType> = sorted[1..]
        .iter()
        .map(|o| match o {
            TinyLangType::Object(s) => TinyLangType::String(s.get("id").unwrap().to_display_string()),
            _ => TinyLangType::Nil,
        })
        .collect();
    assert!(ids == vec![
        TinyLangType::String("2".into()),
        TinyLangType::String("1".into()),
        TinyLangType::String("3".into()),
    ]);
}

#[test]
fn sort_by_key_orders_numbers_by_their_text() {
    let items = TinyLangType::Vec(vec![
        make_num("n", 10),
        make_num("n", 9),
        make_num("n", -1),
    ]);
    let TinyLangType::Vec(sorted) = sort_by_key(
        vec![items, TinyLangType::String("n".into())],
        &State::new(),
    ) else {
        panic!("expected vec");
    };
    let shown: Vec<String> = sorted
        .iter()
        .map(|o| match o {
            TinyLangType::Object(s) => s.get("n").unwrap().to_display_string(),
            _ => String::new(),
        })
        .collect();
    assert_eq!(shown, vec!["-1", "10", "9"]);
}

fn make_num(key: &str, n: i64) -> TinyLangType {
    let mut state = State::new();
    state.insert(key.to_string(), TinyLangType::Numeric(n));
    TinyLangType::Object(state)
}

#[test]
fn paginate_negative_numbers_count_as_zero() {
    let items = TinyLangType::Vec(vec![TinyLangType::Numeric(1)]);
    let result = paginate(
        vec![items, TinyLangType::Numeric(1), TinyLangType::Numeric(-3)],
        &State::new(),
    );
    assert!(result == TinyLangType::Nil);
}

#[test]
fn paginate_huge_page_is_empty() {
    let items = TinyLangType::Vec(vec![TinyLangType::Numeric(1), TinyLangType::Numeric(2)]);
    let result = paginate(
        vec![items, TinyLangType::Numeric(i64::MAX), TinyLangType::Numeric(i64::MAX)],
        &State::new(),
    );
    assert!(result == TinyLangType::Vec(vec![]));
}

#[test]
fn paginate_wrong_page_type_is_nil() {
    let items = TinyLangType::Vec(vec![TinyLangType::Numeric(1)]);
    let result = paginate(
        vec![items, TinyLangType::String("1".into()), TinyLangType::Numeric(3)],
        &State::new(),
    );
    assert!(result == TinyLangType::Nil);
}

#[test]
fn pages_cover_the_list_without_overlap() {
    let all: Vec<TinyLangType> = (1..=7).map(TinyLangType::Numeric).collect();
    let mut seen = Vec::new();
    for page in 1..=3 {
        let items = TinyLangType::Vec((1..=7).map(TinyLangType::Numeric).collect());
        let TinyLangType::Vec(p) = paginate(
            vec![items, TinyLangType::Numeric(page), TinyLangType::Numeric(3)],
            &State::new(),
        ) else {
            panic!("expected vec");
        };
        seen.extend(p);
    }
    assert!(seen == all);
}

#[test]
fn limit_negative_is_empty_and_wrong_types_are_nil() {
    let items = TinyLangType::Vec(vec![TinyLangType::Numeric(1)]);
    let result = limit(vec![items, TinyLangType::Numeric(-2)], &State::new());
    assert!(result == TinyLangType::Vec(vec![]));
    let result = limit(vec![TinyLangType::Nil, TinyLangType::Numeric(2)], &State::new());
    assert!(result == TinyLangType::Nil);
}

#[test]
fn truncate_trims_whitespace_before_the_ellipsis() {
    let result = truncate(
        vec![
            TinyLangType::String("ab \t cd".into()),
            TinyLangType::Numeric(4),
        ],
        &State::new(),
    );
    assert!(result == TinyLangType::String("ab\u{2026}".into()));
    let result = truncate(
        vec![TinyLangType::String("héllo".into()), TinyLangType::Numeric(2)],
        &State::new(),
    );
    assert!(result == TinyLangType::String("hé\u{2026}".into()));
    let result = truncate(
        vec![TinyLangType::String("abc".into()), TinyLangType::Numeric(0)],
        &State::new(),
    );
    assert!(result == TinyLangType::String("\u{2026}".into()));
}

#[test]
fn where_compares_shown_text() {
    let items = TinyLangType::Vec(vec![make_num("n", 3), make_num("n", 4), make_obj("n", "3")]);
    let TinyLangType::Vec(found) = where_fn(
        vec![
            items,
            TinyLangType::String("n".into()),
            TinyLangType::Numeric(3),
        ],
        &State::new(),
    ) else {
        panic!("expected vec");
    };
    assert_eq!(found.len(), 2);
    assert!(found[1] == make_obj("n", "3"));
}

#[test]
fn group_by_puts_items_without_the_key_in_the_empty_group() {
    let items = TinyLangType::Vec(vec![
        make_obj("author", "b"),
        TinyLangType::Numeric(1),
        make_obj("title", "x"),
    ]);
    let TinyLangType::Vec(groups) = group_by(
        vec![items, TinyLangType::String("author".into())],
        &State::new(),
    ) else {
        panic!("expected vec");
    };
    assert_eq!(groups.len(), 2);
    let TinyLangType::Object(first) = &groups[0] else {
        panic!("expected object");
    };
    assert!(first.get("key").unwrap() == &TinyLangType::String("".into()));
    let Some(TinyLangType::Vec(unkeyed)) = first.get("items") else {
        panic!("expected items vec");
    };
    assert!(unkeyed[0] == TinyLangType::Numeric(1));
    assert!(unkeyed[1] == make_obj("title", "x"));
}

#[test]
fn render_page_takes_a_string_argument() {
    let args = vec![TinyLangType::String("templates/_header.template".into())];
    assert_eq!(render_page(&args).map(|s| s.as_str()), Some("templates/_header.template"));
    assert!(render_page(&vec![TinyLangType::Numeric(1)]).is_none());
    assert!(render_page(&vec![]).is_none());
}

#[test]
fn date_format_with_a_time_specifier_is_nil() {
    let result = date_format(
        vec![
            TinyLangType::String("2024-01-10".into()),
            TinyLangType::String("%H:%M".into()),
        ],
        &State::new(),
    );
    assert!(result == TinyLangType::Nil);
    let result = date_format(
        vec![
            TinyLangType::String("2024-02-30".into()),
            TinyLangType::String("%Y".into()),
        ],
        &State::new(),
    );
    assert!(result == TinyLangType::Nil);
}
