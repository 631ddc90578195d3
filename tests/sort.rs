use std::cmp::Ordering;

use sitegen::date::normalize_date_key;
use sitegen::items::{get_item_sort_by, item_date_key, sort_items};
use sitegen::model::{ItemToml, SortKey};

fn item(title: &str, date: Option<&str>, start: Option<&str>, end: Option<&str>) -> ItemToml {
    ItemToml {
        date: date.map(|d| d.to_string()),
        start_date: start.map(|d| d.to_string()),
        end_date: end.map(|d| d.to_string()),
        authors: vec![],
        venue: None,
        location: None,
        title: title.to_string(),
        detail: None,
    }
}

fn titles(items: &[ItemToml]) -> Vec<&str> {
    items.iter().map(|i| i.title.as_str()).collect()
}

#[test]
fn date_keys_are_fixed_width() {
    assert_eq!(normalize_date_key("2020"), "2020-00-00");
    assert_eq!(normalize_date_key("2020-5"), "2020-05-00");
    assert_eq!(normalize_date_key("2020-05-10"), "2020-05-10");
    assert_eq!(normalize_date_key("9"), "0009-00-00");
    assert_eq!(normalize_date_key("2020-13-40"), "2020-13-40");
    assert_eq!(normalize_date_key("2020-05-10-99"), "2020-05-10");
    assert_eq!(normalize_date_key(""), "0000-00-00");
}

#[test]
fn date_keys_follow_chronological_order() {
    let a = normalize_date_key("2020");
    let b = normalize_date_key("2020-05");
    let c = normalize_date_key("2020-05-10");
    let d = normalize_date_key("2021");
    assert!(a < b && b < c && c < d);
}

#[test]
fn date_key_takes_first_present_field() {
    let none: Option<String> = None;
    let x = Some("2020-1".to_string());
    let y = Some("1999".to_string());
    assert_eq!(item_date_key(&none, &x, &y), (false, "2020-01-00".to_string()));
    assert_eq!(item_date_key(&y, &x, &none), (false, "1999-00-00".to_string()));
    assert_eq!(item_date_key(&none, &none, &none), (true, String::new()));
}

#[test]
fn sole_undated_item_sorts_last_in_both_directions() {
    for rev in [false, true] {
        let mut items = vec![
            item("a", Some("2020"), None, None),
            item("none", None, None, None),
            item("b", None, Some("2018-02"), None),
            item("c", None, None, Some("2022")),
        ];
        sort_items(Some(SortKey::Date), Some(rev), &mut items);
        assert_eq!(items[3].title, "none");
        if rev {
            assert_eq!(titles(&items), vec!["c", "a", "b", "none"]);
        } else {
            assert_eq!(titles(&items), vec!["b", "a", "c", "none"]);
        }
    }
}

#[test]
fn fallback_chains_differ_by_key() {
    let both = item("both", Some("2010"), Some("2030"), Some("2000"));
    let mid = item("mid", Some("2020"), None, None);
    let mut items = vec![both.clone(), mid.clone()];
    sort_items(Some(SortKey::Date), None, &mut items);
    assert_eq!(titles(&items), vec!["both", "mid"]);
    let mut items = vec![both.clone(), mid.clone()];
    sort_items(Some(SortKey::StartDate), None, &mut items);
    assert_eq!(titles(&items), vec!["mid", "both"]);
    let mut items = vec![mid, both];
    sort_items(Some(SortKey::EndDate), None, &mut items);
    assert_eq!(titles(&items), vec!["both", "mid"]);
}

#[test]
fn sort_is_stable_on_equal_keys() {
    let mut items = vec![
        item("first", Some("2020-05"), None, None),
        item("x", Some("2019"), None, None),
        item("second", None, Some("2020-05"), None),
        item("third", Some("2020-05-00"), None, None),
        item("u1", None, None, None),
        item("u2", None, None, None),
    ];
    sort_items(Some(SortKey::Date), Some(false), &mut items);
    assert_eq!(titles(&items), vec!["x", "first", "second", "third", "u1", "u2"]);
    let mut items2 = vec![
        item("first", Some("2020-05"), None, None),
        item("x", Some("2019"), None, None),
        item("second", None, Some("2020-05"), None),
        item("u1", None, None, None),
        item("u2", None, None, None),
    ];
    sort_items(Some(SortKey::Date), Some(true), &mut items2);
    assert_eq!(titles(&items2), vec!["first", "second", "x", "u1", "u2"]);
}

#[test]
fn title_sort_is_plain_lexicographic() {
    let mut items = vec![
        item("b", Some("2020"), None, None),
        item("B", None, None, None),
        item("a", None, None, None),
        item("ab", Some("1990"), None, None),
    ];
    sort_items(Some(SortKey::Title), None, &mut items);
    assert_eq!(titles(&items), vec!["B", "a", "ab", "b"]);
    sort_items(Some(SortKey::Title), Some(true), &mut items);
    assert_eq!(titles(&items), vec!["b", "ab", "a", "B"]);
}

#[test]
fn no_sort_key_keeps_document_order() {
    let mut items = vec![
        item("z", Some("2030"), None, None),
        item("a", Some("1990"), None, None),
    ];
    sort_items(None, Some(true), &mut items);
    assert_eq!(titles(&items), vec!["z", "a"]);
}

#[test]
fn comparator_orders_by_key_and_direction() {
    let old = item("old", Some("2001"), None, None);
    let new = item("new", Some("2002"), None, None);
    let none = item("none", None, None, None);
    assert_eq!(get_item_sort_by(SortKey::Date, false, &old, &new), Ordering::Less);
    assert_eq!(get_item_sort_by(SortKey::Date, true, &old, &new), Ordering::Greater);
    assert_eq!(get_item_sort_by(SortKey::Date, false, &none, &old), Ordering::Greater);
    assert_eq!(get_item_sort_by(SortKey::Date, true, &none, &old), Ordering::Greater);
    assert_eq!(get_item_sort_by(SortKey::Date, true, &none, &none), Ordering::Equal);
    assert_eq!(get_item_sort_by(SortKey::Title, false, &new, &old), Ordering::Less);
}

#[test]
fn empty_date_fields_are_skipped_in_the_chain() {
    let empty = Some(String::new());
    let start = Some("2020".to_string());
    let none: Option<String> = None;
    assert_eq!(item_date_key(&empty, &start, &none), (false, "2020-00-00".to_string()));
    assert_eq!(item_date_key(&empty, &none, &empty), (true, String::new()));

    let blank = item("blank", Some(""), None, None);
    let dated = item("dated", Some("2020"), None, None);
    let fallback = item("fallback", Some(""), Some("2030"), None);
    for rev in [false, true] {
        assert_eq!(get_item_sort_by(SortKey::Date, rev, &blank, &dated), Ordering::Greater);
        assert_eq!(get_item_sort_by(SortKey::Date, rev, &dated, &blank), Ordering::Less);
    }
    assert_eq!(get_item_sort_by(SortKey::Date, false, &dated, &fallback), Ordering::Less);
    assert_eq!(get_item_sort_by(SortKey::Date, true, &dated, &fallback), Ordering::Greater);

    let mut items = vec![blank.clone(), dated.clone()];
    sort_items(Some(SortKey::Date), Some(false), &mut items);
    assert_eq!(titles(&items), vec!["dated", "blank"]);
    let mut items = vec![blank, dated, fallback];
    sort_items(Some(SortKey::Date), Some(true), &mut items);
    assert_eq!(titles(&items), vec!["fallback", "dated", "blank"]);
}

#[test]
fn short_tokens_keep_chronological_order() {
    let a = normalize_date_key("9");
    let b = normalize_date_key("2020-5");
    let c = normalize_date_key("2020-5-9");
    let d = normalize_date_key("2020-10");
    let e = normalize_date_key("2020-10-1");
    assert!(a < b && b < c && c < d && d < e);
    assert_eq!(normalize_date_key("2020-5"), normalize_date_key("2020-05"));
}
