//! Request-parameter assembly, the endpoint helpers, and the search
//! descriptors.
use place_query::digits::u32_to_string;
use place_query::geocode::{
    reverse_geocode_params, reverse_geocode_path, reverse_geocode_url_params, search_path,
    search_url_params, show_url,
};
use place_query::search::{search_ip, search_point, search_query, PlaceQuery};
use place_query::Error;

#[test]
fn reverse_geocode_params_always_carries_coordinates_and_accuracy() {
    let map = reverse_geocode_params("10.0", "20.0", "5m", None, None);
    assert_eq!(map.len(), 3);
    assert_eq!(map.get("lat").unwrap().as_str(), "10.0");
    assert_eq!(map.get("long").unwrap().as_str(), "20.0");
    assert_eq!(map.get("accuracy").unwrap().as_str(), "5m");
    assert!(map.get("granularity").is_none());
    assert!(map.get("max_results").is_none());
}

#[test]
fn reverse_geocode_params_includes_granularity_when_given() {
    let map = reverse_geocode_params("1", "2", "3m", Some("city"), None);
    assert_eq!(map.get("granularity").unwrap().as_str(), "city");
}

#[test]
fn max_results_zero_is_clamped_to_twenty() {
    let map = reverse_geocode_params("1", "2", "3m", None, Some(0));
    assert_eq!(map.get("max_results").unwrap().as_str(), "20");
}

#[test]
fn max_results_above_twenty_is_clamped_to_twenty() {
    let map = reverse_geocode_params("1", "2", "3m", None, Some(25));
    assert_eq!(map.get("max_results").unwrap().as_str(), "20");
}

#[test]
fn max_results_in_range_passes_through() {
    let map = reverse_geocode_params("1", "2", "3m", None, Some(15));
    assert_eq!(map.get("max_results").unwrap().as_str(), "15");
}

#[test]
fn max_results_none_omits_the_key() {
    let map = reverse_geocode_params("1", "2", "3m", None, None);
    assert!(map.get("max_results").is_none());
}

#[test]
fn replay_urls_parse_against_their_own_base_path() {
    let mut url = String::from(reverse_geocode_path());
    url.push_str("?lat=1&long=2&accuracy=0m");
    let map = reverse_geocode_url_params(&url).unwrap();
    assert_eq!(map.get("lat").unwrap().as_str(), "1");
    match search_url_params(&url) {
        Err(e) => assert_eq!(e, Error::BadUrl),
        Ok(_) => panic!("a reverse-geocode URL must not parse as a search URL"),
    }
}

#[test]
fn search_replay_url_round_trips() {
    let mut url = String::from(search_path());
    url.push_str("?query=Amsterdam&max_results=5");
    let map = search_url_params(&url).unwrap();
    assert_eq!(map.get("query").unwrap().as_str(), "Amsterdam");
    assert_eq!(map.get("max_results").unwrap().as_str(), "5");
}

#[test]
fn show_url_appends_id_and_extension() {
    assert_eq!(show_url("df51dec6f4ee2b2c"), "/1.1/geo/id/df51dec6f4ee2b2c.json");
}

#[test]
fn u32_renders_in_decimal() {
    assert_eq!(u32_to_string(0), "0");
    assert_eq!(u32_to_string(7), "7");
    assert_eq!(u32_to_string(20), "20");
    assert_eq!(u32_to_string(12345), "12345");
    assert_eq!(u32_to_string(4294967295), "4294967295");
}

#[test]
fn search_point_seeds_a_coordinate_query() {
    let builder = search_point(String::from("51.9"), String::from("4.5"));
    match builder.query {
        PlaceQuery::LatLon(lat, long) => {
            assert_eq!(lat, "51.9");
            assert_eq!(long, "4.5");
        },
        other => panic!("expected a coordinate query, got {:?}", other),
    }
}

#[test]
fn search_query_seeds_a_text_query() {
    let builder = search_query("Toronto");
    match builder.query {
        PlaceQuery::Query(q) => assert_eq!(q, "Toronto"),
        other => panic!("expected a text query, got {:?}", other),
    }
}

#[test]
fn search_ip_seeds_an_ip_query() {
    let builder = search_ip("74.125.19.104");
    match builder.query {
        PlaceQuery::IPAddress(q) => assert_eq!(q, "74.125.19.104"),
        other => panic!("expected an IP query, got {:?}", other),
    }
}
