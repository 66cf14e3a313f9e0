use fire_ctrl::ident::Timestamp;
use fire_ctrl::json::{parse_json, Json, JsonNumber};
use fire_ctrl::models::{
    default_map_limit, default_max_depth, default_max_pages, default_search_limit,
};
use fire_ctrl::weburl::{Host, PageUrl};

#[test]
fn json_round_trips_through_text() {
    for text in [
        "null",
        "true",
        "18446744073709551615",
        "-9223372036854775808",
        "0.5",
        "\"a\\\"b\\\\c\\n\\t\\u0001\u{e4}\"",
        "[]",
        "{}",
        "{\"a\":[1,{\"b\":null}],\"c\":\"\"}",
    ] {
        assert_eq!(parse_json(text).unwrap().to_text(), text);
    }
    assert_eq!(parse_json(" [ 1 , 2 ] ").unwrap().to_text(), "[1,2]");
    // Each number is read once, from the text that it stands in.
    let text = "[[0.1,2.5e-3,123456789012345680.0,9007199254740993.5,5e-324]]";
    let whole: serde_json::Value = serde_json::from_str(text).unwrap();
    assert_eq!(parse_json(text).unwrap().to_text(), whole.to_string());
    assert_eq!(parse_json("{\"b\":1,\"a\":2,\"b\":[3]}").unwrap().to_text(), "{\"a\":2,\"b\":[3]}");
    assert!(parse_json("[1,{\"a\":}]").unwrap_err().starts_with("expected value at line 1"));
    assert!(parse_json("{").unwrap_err().starts_with("EOF while parsing"));
}

#[test]
fn json_parts() {
    let j = parse_json("{\"a\":[7,-7,\"t\"],\"n\":1e3}").unwrap();
    let items = j.get("a").unwrap();
    assert_eq!(items.at(0).unwrap().as_u64(), Some(7));
    assert_eq!(items.at(1).unwrap().as_u64(), None);
    assert_eq!(items.at(2).unwrap().as_text().as_deref(), Some("t"));
    assert!(items.at(3).is_none() && items.get("a").is_none() && j.get("z").is_none());
    assert!(matches!(j.get("n"), Some(Json::Number(JsonNumber::Float(_)))));
    let copy = j.clone();
    assert_eq!(copy.to_text(), j.to_text());
    assert_eq!(
        parse_json("{\"a\":[1]}").unwrap().to_indented_text(),
        "{\n  \"a\": [\n    1\n  ]\n}"
    );
}

#[test]
fn urls_are_parsed() {
    let u = PageUrl::parse("HTTPS://Example.COM:443/a/../b").unwrap();
    assert_eq!(u.text, "https://example.com/b");
    assert_eq!((u.scheme.as_str(), u.host_text().as_str()), ("https", "example.com"));
    assert!(matches!(u.host, Some(Host::Domain(_))));
    let v4 = PageUrl::parse("http://10.0.0.2/").unwrap();
    assert!(matches!(v4.host, Some(Host::V4(0x0a00_0002))));
    let v6 = PageUrl::parse("http://[::1]/").unwrap();
    assert!(matches!(v6.host, Some(Host::V6(1))));
    assert_eq!(v6.host_str.as_deref(), Some("[::1]"));
    assert_eq!(PageUrl::parse("mailto:a@b").unwrap().host_text(), "");
    assert_eq!(PageUrl::parse("x").unwrap_err(), "relative URL without a base");
}

#[test]
fn times_are_written() {
    let t = Timestamp { secs: 1_700_000_000, nanos: 500_000_000 };
    assert_eq!(t.to_rfc3339(), "2023-11-14T22:13:20.500+00:00");
    assert_eq!(t.to_json_time(), "2023-11-14T22:13:20.500Z");
    let never = Timestamp { secs: i64::MAX, nanos: 0 };
    assert_eq!((never.to_rfc3339(), never.to_json_time()), (String::new(), String::new()));
}

#[test]
fn defaults() {
    assert_eq!(
        (default_max_depth(), default_max_pages(), default_map_limit(), default_search_limit()),
        (5, 100, 5000, 5)
    );
}
