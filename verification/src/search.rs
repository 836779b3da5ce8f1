//! The three ways a place search may be initiated.
use vstd::prelude::*;

verus! {

/// How a search is seeded: by a coordinate (already rendered to the
/// strings the wire carries), by a free-text query, or by an IP address.
/// Exactly one variant is active per search session, fixed at
/// construction.
#[derive(Debug)]
pub enum PlaceQuery {
    LatLon(String, String),
    Query(String),
    IPAddress(String),
}

/// A search being built up, seeded with exactly one query descriptor.
/// Turning the descriptor into request parameters and dispatching the
/// finished request are its caller's business.
#[derive(Debug)]
pub struct SearchBuilder {
    pub query: PlaceQuery,
}

impl SearchBuilder {
    pub fn new(query: PlaceQuery) -> (r: SearchBuilder)
        ensures
            r.query == query,
    {
        SearchBuilder { query }
    }
}

/// Begin building a location search from a latitude/longitude pair,
/// rendered as the strings to be sent.
pub fn search_point(latitude: String, longitude: String) -> (r: SearchBuilder)
    ensures
        r.query == PlaceQuery::LatLon(latitude, longitude),
{
    SearchBuilder::new(PlaceQuery::LatLon(latitude, longitude))
}

/// Begin building a location search from a free-text query.
pub fn search_query(query: &str) -> (r: SearchBuilder)
    ensures
        r.query matches PlaceQuery::Query(q) && q@ == query@,
{
    SearchBuilder::new(PlaceQuery::Query(query.to_owned()))
}

/// Begin building a location search from an IP address.
pub fn search_ip(query: &str) -> (r: SearchBuilder)
    ensures
        r.query matches PlaceQuery::IPAddress(q) && q@ == query@,
{
    SearchBuilder::new(PlaceQuery::IPAddress(query.to_owned()))
}

} // verus!
