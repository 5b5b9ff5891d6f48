//! What the library reads off an opened parent osmflat archive: its object
//! counts and its replication timestamp. Opening the archive is the caller's
//! I/O; these read the opened value.

use vstd::prelude::*;
use osmflat::{Header, Osm};

verus! {

#[verifier::external_type_specification]
#[verifier::external_body]
pub struct ExOsm(Osm);

#[verifier::external_type_specification]
#[verifier::external_body]
pub struct ExHeader(Header);

/// `Osm::header`: the archive's metadata header. Nothing is assumed of it.
#[verifier::external_body]
fn archive_header(parent: &Osm) -> (h: &Header) {
    parent.header()
}

/// `Header::replication_timestamp`: the replication timestamp stored in the
/// header, in seconds since the epoch. It is whatever the file holds, so
/// nothing is assumed of it.
#[verifier::external_body]
fn header_replication_timestamp(header: &Header) -> (ts: i64) {
    header.replication_timestamp()
}

/// The number of nodes, `Osm::nodes().len()`. Assumed of it: a slice spans
/// at most `isize::MAX` bytes, and a node record is 13 bytes.
#[verifier::external_body]
fn archive_node_count(parent: &Osm) -> (n: usize)
    ensures
        n * 13 <= isize::MAX,
{
    parent.nodes().len()
}

/// The number of ways, `Osm::ways().len()`. Assumed of it: a slice spans at
/// most `isize::MAX` bytes, and a way record is 10 bytes.
#[verifier::external_body]
fn archive_way_count(parent: &Osm) -> (n: usize)
    ensures
        n * 10 <= isize::MAX,
{
    parent.ways().len()
}

/// The number of relations, `Osm::relations().len()`. Assumed of it: a
/// slice spans at most `isize::MAX` bytes, and a relation record is 5 bytes.
#[verifier::external_body]
fn archive_relation_count(parent: &Osm) -> (n: usize)
    ensures
        n * 5 <= isize::MAX,
{
    parent.relations().len()
}

/// The parent's per-type object counts (nodes, ways, relations), as the
/// reader sees them: the lengths of its node, way and relation tables, in
/// that order, each a table of fixed-size records within one allocation.
pub fn object_counts(parent: &Osm) -> (r: (u64, u64, u64))
    ensures
        r.0 + r.1 + r.2 <= isize::MAX,
        r.0 * 13 <= isize::MAX,
        r.1 * 10 <= isize::MAX,
        r.2 * 5 <= isize::MAX,
{
    let n = archive_node_count(parent);
    let w = archive_way_count(parent);
    let r = archive_relation_count(parent);
    (n as u64, w as u64, r as u64)
}

/// The parent's replication timestamp as stored in its header.
pub fn replication_timestamp(parent: &Osm) -> (ts: i64) {
    header_replication_timestamp(archive_header(parent))
}

} // verus!
