//! A taginfo-compatible reader over an osmflat archive and its taginfo
//! sidecar: the counting, ranking, paging and framing logic behind the six
//! taginfo v4 endpoints, with their contracts proved by Verus.

pub mod archive;
pub mod bbox;
pub mod cli;
pub mod counts;
pub mod endpoints;
pub mod freshness;
pub mod model;
pub mod order;
pub mod output;
pub mod rank;
pub mod routes;
pub mod table;
pub mod util;
