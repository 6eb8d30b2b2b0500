use sgx_qkms::query::{decode_percent, parse_query_string, QueryParams};

fn get<'a>(q: &'a QueryParams, k: &str) -> Option<&'a str> {
    q.get(k).map(|s| s.as_str())
}

#[test]
fn later_value_replaces_earlier() {
    let q = parse_query_string(b"a=1&b=2&a=3");
    assert_eq!(q.len(), 2);
    assert_eq!(get(&q, "a"), Some("3"));
    assert_eq!(get(&q, "b"), Some("2"));
    assert_eq!(get(&q, "c"), None);
}

#[test]
fn empty_pieces_are_dropped() {
    assert_eq!(parse_query_string(b"").len(), 0);
    assert_eq!(parse_query_string(b"&&").len(), 0);
    let q = parse_query_string(b"&x=1&");
    assert_eq!(q.len(), 1);
    assert_eq!(get(&q, "x"), Some("1"));
}

#[test]
fn pieces_split_at_first_equals() {
    let q = parse_query_string(b"k&m=v=w&=e");
    assert_eq!(get(&q, "k"), Some(""));
    assert_eq!(get(&q, "m"), Some("v=w"));
    assert_eq!(get(&q, ""), Some("e"));
}

#[test]
fn components_are_percent_decoded() {
    let q = parse_query_string(b"n=%E2%82%AC&%6b=%zz&bad=%FF");
    assert_eq!(get(&q, "n"), Some("\u{20ac}"));
    assert_eq!(get(&q, "k"), Some("%zz"));
    assert_eq!(get(&q, "bad"), Some("\u{fffd}"));
}

#[test]
fn decode_percent_examples() {
    assert_eq!(decode_percent(b"a%2Fb"), "a/b");
    assert_eq!(decode_percent(b"a%2fb"), "a/b");
    assert_eq!(decode_percent(b"100%"), "100%");
    assert_eq!(decode_percent(b"%4"), "%4");
    assert_eq!(decode_percent(b"+"), "+");
}

#[test]
fn insert_and_get() {
    let mut q = QueryParams::new();
    assert_eq!(q.len(), 0);
    q.insert("a".to_string(), "1".to_string());
    q.insert("b".to_string(), "2".to_string());
    q.insert("a".to_string(), "9".to_string());
    assert_eq!(q.len(), 2);
    assert_eq!(get(&q, "a"), Some("9"));
}
