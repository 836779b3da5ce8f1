//! Request-parameter assembly for the two fixed place endpoints, and the
//! verified halves of the replay entry points.
//!
//! Dispatching the finished request over the network, and decoding its
//! response, are their callers' business; everything here is the pure part
//! in between — the endpoint constants, the canonical parameter map of a
//! reverse-geocode request, and the parse of a previously-echoed URL
//! against the right base path.
use vstd::prelude::*;
use vstd::string::StringExecFns;

use crate::digits::{dec_rep, u32_to_string};
use crate::params::ParamMap;
use crate::parse::{parse_url, spec_parse_url};
use crate::Error;

verus! {

/// Path of the reverse-geocode endpoint.
pub open spec fn spec_reverse_geocode_path() -> Seq<char> {
    "/1.1/geo/reverse_geocode.json"@
}

pub fn reverse_geocode_path() -> (r: &'static str)
    ensures
        r@ == spec_reverse_geocode_path(),
{
    "/1.1/geo/reverse_geocode.json"
}

/// Path of the generic search endpoint.
pub open spec fn spec_search_path() -> Seq<char> {
    "/1.1/geo/search.json"@
}

pub fn search_path() -> (r: &'static str)
    ensures
        r@ == spec_search_path(),
{
    "/1.1/geo/search.json"
}

/// Path stem for loading a single place by its ID.
pub open spec fn spec_show_stem() -> Seq<char> {
    "/1.1/geo/id"@
}

pub fn show_stem() -> (r: &'static str)
    ensures
        r@ == spec_show_stem(),
{
    "/1.1/geo/id"
}

/// The URL that loads the place with the given ID: `<stem>/<id>.json`.
pub fn show_url(id: &str) -> (r: String)
    ensures
        r@ == spec_show_stem() + "/"@ + id@ + ".json"@,
{
    let mut url = show_stem().to_owned();
    url.append("/");
    url.append(id);
    url.append(".json");
    url
}

/// A requested maximum result count clamped to the service's window: `0`
/// and anything above `20` become `20`; `1` through `20` pass unchanged.
pub open spec fn spec_clamp_max_results(count: u32) -> u32 {
    if count == 0 || count > 20 {
        20
    } else {
        count
    }
}

/// The canonical parameter map of a reverse-geocode request: the
/// coordinates and accuracy always, the granularity filter when given, and
/// the clamped maximum result count (in decimal) when given.
pub open spec fn spec_reverse_geocode_params(
    lat: Seq<char>,
    long: Seq<char>,
    accuracy: Seq<char>,
    granularity: Option<Seq<char>>,
    max_results: Option<u32>,
) -> Map<Seq<char>, Seq<char>> {
    let base = Map::<Seq<char>, Seq<char>>::empty().insert("lat"@, lat).insert(
        "long"@,
        long,
    ).insert("accuracy"@, accuracy);
    let with_gran = if granularity is Some {
        base.insert("granularity"@, granularity->0)
    } else {
        base
    };
    if max_results is Some {
        with_gran.insert(
            "max_results"@,
            dec_rep(spec_clamp_max_results(max_results->0) as nat),
        )
    } else {
        with_gran
    }
}

/// Build the full parameter map for a reverse-geocode request.  The
/// coordinates and accuracy arrive already rendered to the strings the wire
/// carries (out-of-range values pass through uninterpreted; the remote
/// service is responsible for rejecting them).  This step cannot fail.
pub fn reverse_geocode_params(
    lat: &str,
    long: &str,
    accuracy: &str,
    granularity: Option<&str>,
    max_results: Option<u32>,
) -> (p: ParamMap)
    ensures
        p@ == spec_reverse_geocode_params(
            lat@,
            long@,
            accuracy@,
            granularity.deep_view(),
            max_results,
        ),
{
    let mut p = ParamMap::new();
    p.add_param("lat", lat);
    p.add_param("long", long);
    p.add_param("accuracy", accuracy);
    if let Some(g) = granularity {
        p.add_param("granularity", g);
    }
    if let Some(count) = max_results {
        let clamped = if count == 0 || count > 20 {
            20
        } else {
            count
        };
        let rendered = u32_to_string(clamped);
        p.add_param("max_results", rendered.as_str());
    }
    p
}

/// Recover the parameter map from a URL echoed for a reverse-geocode
/// request.  Fails with `BadUrl` unless the URL is exactly the
/// reverse-geocode base path followed by `?` and a well-formed query, so a
/// malformed replay URL is rejected before any request is dispatched.
pub fn reverse_geocode_url_params(url: &str) -> (r: Result<ParamMap, Error>)
    ensures
        match r {
            Ok(p) => spec_parse_url(spec_reverse_geocode_path(), url@) == Some(p@),
            Err(e) => spec_parse_url(spec_reverse_geocode_path(), url@) is None && e
                == Error::BadUrl,
        },
{
    parse_url(reverse_geocode_path(), url)
}

/// Recover the parameter map from a URL echoed for a search request.
/// Fails with `BadUrl` unless the URL is exactly the search base path
/// followed by `?` and a well-formed query, so a malformed replay URL is
/// rejected before any request is dispatched.
pub fn search_url_params(url: &str) -> (r: Result<ParamMap, Error>)
    ensures
        match r {
            Ok(p) => spec_parse_url(spec_search_path(), url@) == Some(p@),
            Err(e) => spec_parse_url(spec_search_path(), url@) is None && e == Error::BadUrl,
        },
{
    parse_url(search_path(), url)
}

} // verus!
