//! Query-parameter round-tripping for a places web API.
//!
//! The library builds canonical query-parameter maps for outgoing requests
//! (`geocode`), and parses them back out of the `base?key=value&key=value`
//! URLs that the service echoes in its responses (`parse`), so that a prior
//! request can be replayed without bespoke re-encoding logic.
use vstd::prelude::*;

pub mod digits;
pub mod geocode;
pub mod params;
pub mod parse;
pub mod search;
pub mod split;

verus! {

/// The single failure this library reports: a replay URL that does not have
/// the expected `base?key=value&key=value` shape.
#[derive(Clone, Copy, Debug, PartialEq, Eq, Structural)]
pub enum Error {
    BadUrl,
}

} // verus!
