//! The URL parser, the parameter map, and the round trip between them.
use place_query::params::ParamMap;
use place_query::parse::parse_url;
use place_query::split::split_str;
use place_query::Error;

fn expect_bad_url(r: Result<ParamMap, Error>) {
    match r {
        Err(e) => assert_eq!(e, Error::BadUrl),
        Ok(_) => panic!("expected a malformed-URL error"),
    }
}

#[test]
fn add_param_overwrites_existing_key() {
    let mut map = ParamMap::new();
    map.add_param("a", "1");
    map.add_param("a", "2");
    assert_eq!(map.len(), 1);
    assert_eq!(map.get("a").unwrap().as_str(), "2");
}

#[test]
fn add_param_keeps_distinct_keys() {
    let mut map = ParamMap::new();
    map.add_param("a", "1");
    map.add_param("b", "2");
    map.add_param("a", "3");
    assert_eq!(map.len(), 2);
    assert_eq!(map.get("a").unwrap().as_str(), "3");
    assert_eq!(map.get("b").unwrap().as_str(), "2");
}

#[test]
fn empty_map_has_no_entries() {
    let map = ParamMap::new();
    assert_eq!(map.len(), 0);
    assert!(map.get("a").is_none());
    assert_eq!(map.to_query_string(), "");
}

#[test]
fn parse_url_without_query_fails() {
    expect_bad_url(parse_url("/geo/reverse_geocode", "/geo/reverse_geocode"));
}

#[test]
fn parse_url_base_mismatch_fails() {
    expect_bad_url(parse_url("/geo/reverse_geocode", "/geo/search?lat=1&long=2"));
}

#[test]
fn parse_url_well_formed_query_succeeds() {
    let base = "/geo/reverse_geocode";
    let map = parse_url(base, "/geo/reverse_geocode?lat=10.0&long=20.0&accuracy=5m").unwrap();
    assert_eq!(map.len(), 3);
    assert_eq!(map.get("lat").unwrap().as_str(), "10.0");
    assert_eq!(map.get("long").unwrap().as_str(), "20.0");
    assert_eq!(map.get("accuracy").unwrap().as_str(), "5m");
}

#[test]
fn parse_url_item_without_equals_fails() {
    expect_bad_url(parse_url("/geo/search", "/geo/search?lat=1&badtoken&long=2"));
}

#[test]
fn parse_url_empty_query_fails() {
    expect_bad_url(parse_url("/geo/search", "/geo/search?"));
}

#[test]
fn parse_url_consecutive_separators_fail() {
    expect_bad_url(parse_url("/geo/search", "/geo/search?a=1&&b=2"));
}

#[test]
fn parse_url_empty_value_is_kept() {
    let map = parse_url("/base", "/base?a=").unwrap();
    assert_eq!(map.get("a").unwrap().as_str(), "");
}

#[test]
fn parse_url_empty_key_is_kept() {
    let map = parse_url("/base", "/base?=b").unwrap();
    assert_eq!(map.get("").unwrap().as_str(), "b");
}

#[test]
fn parse_url_extra_equals_keeps_middle_segment() {
    let map = parse_url("/base", "/base?a=b=c").unwrap();
    assert_eq!(map.get("a").unwrap().as_str(), "b");
}

#[test]
fn parse_url_repeated_key_keeps_last_value() {
    let map = parse_url("/base", "/base?a=1&a=2").unwrap();
    assert_eq!(map.len(), 1);
    assert_eq!(map.get("a").unwrap().as_str(), "2");
}

#[test]
fn parse_url_empty_string_fails() {
    expect_bad_url(parse_url("", ""));
}

#[test]
fn reencoding_a_parsed_url_reproduces_the_parameters() {
    let base = "/geo/search";
    let first = parse_url(base, "/geo/search?lat=10.0&long=20.0&accuracy=5m&granularity=city")
        .unwrap();
    let query = first.to_query_string();
    let mut replay = String::from(base);
    replay.push('?');
    replay.push_str(&query);
    let second = parse_url(base, &replay).unwrap();
    assert_eq!(first.len(), second.len());
    for key in ["lat", "long", "accuracy", "granularity"] {
        assert_eq!(first.get(key).unwrap(), second.get(key).unwrap());
    }
}

#[test]
fn to_query_string_writes_entries_in_insertion_order() {
    let mut map = ParamMap::new();
    map.add_param("lat", "10.0");
    map.add_param("long", "20.0");
    map.add_param("lat", "30.0");
    assert_eq!(map.to_query_string(), "lat=30.0&long=20.0");
}

#[test]
fn split_str_cuts_at_every_separator() {
    let pieces = split_str("a&b&&c", '&');
    assert_eq!(pieces, vec!["a", "b", "", "c"]);
}

#[test]
fn split_str_without_separator_is_one_piece() {
    let pieces = split_str("abc", '&');
    assert_eq!(pieces, vec!["abc"]);
}
