//! `key <KEY> stats` → taginfo `/api/4/key/stats`: four rows for one key,
//! `all`, `nodes`, `ways`, `relations`, each with a count, the fraction of
//! that object type, and the distinct values occurring on it.
//!
//! The sidecar stores distinct values per key, not per (key, type), so the
//! per-type `values` columns are tallies over the key's values (see
//! [`crate::counts::tally_values`] for the archive-wide tally).

use vstd::prelude::*;
use crate::counts::{fraction, fraction_ticks, Fraction, Totals, TypeCounts, ValueTallies};
use crate::model::{ObjectType, StatRow};

verus! {

/// A key found in the sidecar: its object counts and distinct-value tallies
/// in scope.
#[derive(Clone, Copy, Debug, PartialEq, Eq, Structural)]
pub struct KeyStats {
    pub counts: TypeCounts,
    pub tallies: ValueTallies,
}

/// The stats row of one object type.
pub open spec fn stat_row(t: ObjectType, count: int, total: int, values: u64) -> StatRow {
    StatRow {
        object_type: t,
        count: count as u64,
        count_fraction: Fraction { ten_thousandths: fraction_ticks(count, total) as u128 },
        values,
    }
}

/// The four rows of a key: `all`, `nodes`, `ways`, `relations`.
pub open spec fn stat_rows(totals: Totals, k: KeyStats) -> Seq<StatRow> {
    let c = k.counts;
    seq![
        stat_row(ObjectType::All, c.spec_all(), totals.objects as int, k.tallies.any),
        stat_row(ObjectType::Nodes, c.nodes as int, totals.nodes as int, k.tallies.nodes),
        stat_row(ObjectType::Ways, c.ways as int, totals.ways as int, k.tallies.ways),
        stat_row(
            ObjectType::Relations,
            c.relations as int,
            totals.relations as int,
            k.tallies.relations,
        ),
    ]
}

/// The four `all`/`nodes`/`ways`/`relations` rows for one key, or no rows
/// for an unknown key (taginfo answers an unknown key with an empty table,
/// not an error). Not paged or sorted.
pub fn rows(totals: &Totals, key: Option<&KeyStats>) -> (r: Vec<StatRow>)
    requires
        key matches Some(k) ==> k.counts.fits(),
    ensures
        key is None ==> r@.len() == 0,
        key matches Some(k) ==> r@ == stat_rows(*totals, *k),
{
    let k = match key {
        None => return Vec::new(),
        Some(k) => k,
    };
    let c = k.counts;
    let all = c.nodes + c.ways + c.relations;
    let mut out: Vec<StatRow> = Vec::new();
    out.push(
        StatRow {
            object_type: ObjectType::All,
            count: all,
            count_fraction: fraction(all, totals.objects),
            values: k.tallies.any,
        },
    );
    out.push(
        StatRow {
            object_type: ObjectType::Nodes,
            count: c.nodes,
            count_fraction: fraction(c.nodes, totals.nodes),
            values: k.tallies.nodes,
        },
    );
    out.push(
        StatRow {
            object_type: ObjectType::Ways,
            count: c.ways,
            count_fraction: fraction(c.ways, totals.ways),
            values: k.tallies.ways,
        },
    );
    out.push(
        StatRow {
            object_type: ObjectType::Relations,
            count: c.relations,
            count_fraction: fraction(c.relations, totals.relations),
            values: k.tallies.relations,
        },
    );
    assert(out@ =~= stat_rows(*totals, *k));
    out
}

/// The four rows are `all`, `nodes`, `ways` and `relations`, in that order;
/// each counts the key's objects of its kind (all of them for `all`), its
/// fraction is that count over the total of the same kind, and its
/// `values` is the key's distinct-value tally for that kind.
pub proof fn lemma_rows_over_their_kind(totals: Totals, k: KeyStats)
    requires
        k.counts.fits(),
    ensures
        ({
            let r = stat_rows(totals, k);
            let c = k.counts;
            &&& r.len() == 4
            &&& r[0].object_type == ObjectType::All
            &&& r[1].object_type == ObjectType::Nodes
            &&& r[2].object_type == ObjectType::Ways
            &&& r[3].object_type == ObjectType::Relations
            &&& forall|i: int|
                0 <= i < 4 ==> {
                    let (count, total, values) = match (#[trigger] r[i]).object_type {
                        ObjectType::All => (
                            c.nodes + c.ways + c.relations,
                            totals.objects as int,
                            k.tallies.any,
                        ),
                        ObjectType::Nodes => (c.nodes as int, totals.nodes as int, k.tallies.nodes),
                        ObjectType::Ways => (c.ways as int, totals.ways as int, k.tallies.ways),
                        ObjectType::Relations => (
                            c.relations as int,
                            totals.relations as int,
                            k.tallies.relations,
                        ),
                    };
                    &&& r[i].count as int == count
                    &&& r[i].count_fraction.ten_thousandths == fraction_ticks(count, total) as u128
                    &&& r[i].values == values
                }
        }),
{
    let r = stat_rows(totals, k);
    assert(r[0].object_type == ObjectType::All);
    assert(r[1].object_type == ObjectType::Nodes);
    assert(r[2].object_type == ObjectType::Ways);
    assert(r[3].object_type == ObjectType::Relations);
}

} // verus!
