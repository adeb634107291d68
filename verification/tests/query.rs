use kutil_http::query_map::{text_precedes, QueryMap, QueryMapUtilities};
use kutil_http::uri::{decoded_path, decoded_query, decoded_query_map};

fn pairs(items: &[(&str, &str)]) -> Vec<(String, String)> {
    items.iter().map(|(name, value)| (name.to_string(), value.to_string())).collect()
}

fn entries(map: &QueryMap) -> Vec<(String, Vec<String>)> {
    map.entries().clone()
}

#[test]
fn text_order_is_string_order() {
    assert!(text_precedes("a", "b"));
    assert!(!text_precedes("b", "a"));
    assert!(!text_precedes("a", "a"));
    assert!(text_precedes("", "a"));
    assert!(!text_precedes("ab", "a"));
    assert!(text_precedes("a", "ab"));
    assert!(text_precedes("Z", "a"));
    assert!(!text_precedes("\u{e9}", "z"));
    for (a, b) in [("x", "xy"), ("ab", "b"), ("\u{e9}", "e"), ("b", "b")] {
        assert_eq!(text_precedes(a, b), a < b);
    }
}

#[test]
fn query_map_keeps_names_and_values_in_order() {
    let mut map = QueryMap::new();
    map.insert("b".to_string(), "z".to_string());
    map.insert("a".to_string(), "2".to_string());
    map.insert("b".to_string(), "y".to_string());
    map.insert("a".to_string(), "2".to_string());
    assert_eq!(
        entries(&map),
        vec![
            ("a".to_string(), vec!["2".to_string()]),
            ("b".to_string(), vec!["y".to_string(), "z".to_string()]),
        ]
    );
}

#[test]
fn query_map_get_single() {
    let map = QueryMap::from_pairs(pairs(&[("a", "1"), ("b", "2"), ("b", "3"), ("a", "1")]));
    assert_eq!(map.get_single("a"), Some(&"1".to_string()));
    assert_eq!(map.get_single_as_ref("a"), Some("1"));
    assert_eq!(map.get_single("b"), None);
    assert_eq!(map.get_single_as_ref("b"), None);
    assert_eq!(map.get_single("c"), None);
    assert_eq!(QueryMap::new().get_single("a"), None);
}

#[test]
fn query_map_clone_is_equal() {
    let map = QueryMap::from_pairs(pairs(&[("q", "rust"), ("page", "2")]));
    let copy = map.clone();
    assert_eq!(copy, map);
    assert_eq!(entries(&copy), entries(&map));
}

#[test]
fn decoded_query_pairs() {
    assert_eq!(
        decoded_query("a=1&b=x+y%21&&c"),
        pairs(&[("a", "1"), ("b", "x y!"), ("c", "")])
    );
    assert_eq!(decoded_query(""), pairs(&[]));
    assert_eq!(decoded_query("%23first=%25try%25"), pairs(&[("#first", "%try%")]));
}

#[test]
fn decoded_paths() {
    assert_eq!(decoded_path("/a%20b"), Some("/a b".to_string()));
    assert_eq!(decoded_path("/plain+path"), Some("/plain+path".to_string()));
    assert_eq!(decoded_path("/%FF"), None);
}

#[test]
fn decoded_query_maps() {
    let map = decoded_query_map(Some("x=1&x=2&y=3")).expect("a query gives a map");
    assert_eq!(map.get_single("y"), Some(&"3".to_string()));
    assert_eq!(map.get_single("x"), None);
    assert_eq!(
        entries(&map),
        vec![
            ("x".to_string(), vec!["1".to_string(), "2".to_string()]),
            ("y".to_string(), vec!["3".to_string()]),
        ]
    );
    assert!(decoded_query_map(None).is_none());
    assert_eq!(entries(&decoded_query_map(Some("")).expect("an empty query gives a map")), vec![]);
}
