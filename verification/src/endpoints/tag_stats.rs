//! `tag <KEY> <VALUE> stats` → taginfo `/api/4/tag/stats`: four rows for
//! one `key=value`, `all`, `nodes`, `ways`, `relations`, each with a count
//! and the fraction of that object type. A tag has no distinct values, so
//! (unlike key/stats) there is no `values` column.

use vstd::prelude::*;
use crate::counts::{fraction, fraction_ticks, Fraction, Totals, TypeCounts};
use crate::model::{ObjectType, TagStatRow};

verus! {

/// The tag stats row of one object type.
pub open spec fn tag_stat_row(t: ObjectType, count: int, total: int) -> TagStatRow {
    TagStatRow {
        object_type: t,
        count: count as u64,
        count_fraction: Fraction { ten_thousandths: fraction_ticks(count, total) as u128 },
    }
}

/// The four rows of a tag: `all`, `nodes`, `ways`, `relations`.
pub open spec fn tag_stat_rows(totals: Totals, c: TypeCounts) -> Seq<TagStatRow> {
    seq![
        tag_stat_row(ObjectType::All, c.spec_all(), totals.objects as int),
        tag_stat_row(ObjectType::Nodes, c.nodes as int, totals.nodes as int),
        tag_stat_row(ObjectType::Ways, c.ways as int, totals.ways as int),
        tag_stat_row(ObjectType::Relations, c.relations as int, totals.relations as int),
    ]
}

/// The four `all`/`nodes`/`ways`/`relations` rows for one tag, from its
/// counts in scope, or no rows for an unknown tag. Not paged or sorted.
pub fn rows(totals: &Totals, tag: Option<&TypeCounts>) -> (r: Vec<TagStatRow>)
    requires
        tag matches Some(c) ==> c.fits(),
    ensures
        tag is None ==> r@.len() == 0,
        tag matches Some(c) ==> r@ == tag_stat_rows(*totals, *c),
{
    let c = match tag {
        None => return Vec::new(),
        Some(c) => c,
    };
    let all = c.nodes + c.ways + c.relations;
    let mut out: Vec<TagStatRow> = Vec::new();
    out.push(
        TagStatRow {
            object_type: ObjectType::All,
            count: all,
            count_fraction: fraction(all, totals.objects),
        },
    );
    out.push(
        TagStatRow {
            object_type: ObjectType::Nodes,
            count: c.nodes,
            count_fraction: fraction(c.nodes, totals.nodes),
        },
    );
    out.push(
        TagStatRow {
            object_type: ObjectType::Ways,
            count: c.ways,
            count_fraction: fraction(c.ways, totals.ways),
        },
    );
    out.push(
        TagStatRow {
            object_type: ObjectType::Relations,
            count: c.relations,
            count_fraction: fraction(c.relations, totals.relations),
        },
    );
    assert(out@ =~= tag_stat_rows(*totals, *c));
    out
}

/// The four rows are `all`, `nodes`, `ways` and `relations`, in that order;
/// each counts the tag's objects of its kind (all of them for `all`) and
/// its fraction is that count over the total of the same kind.
pub proof fn lemma_rows_over_their_kind(totals: Totals, c: TypeCounts)
    requires
        c.fits(),
    ensures
        ({
            let r = tag_stat_rows(totals, c);
            &&& r.len() == 4
            &&& r[0].object_type == ObjectType::All
            &&& r[1].object_type == ObjectType::Nodes
            &&& r[2].object_type == ObjectType::Ways
            &&& r[3].object_type == ObjectType::Relations
            &&& forall|i: int|
                0 <= i < 4 ==> {
                    let (count, total) = match (#[trigger] r[i]).object_type {
                        ObjectType::All => (c.nodes + c.ways + c.relations, totals.objects as int),
                        ObjectType::Nodes => (c.nodes as int, totals.nodes as int),
                        ObjectType::Ways => (c.ways as int, totals.ways as int),
                        ObjectType::Relations => (c.relations as int, totals.relations as int),
                    };
                    &&& r[i].count as int == count
                    &&& r[i].count_fraction.ten_thousandths == fraction_ticks(count, total) as u128
                }
        }),
{
    let r = tag_stat_rows(totals, c);
    assert(r[0].object_type == ObjectType::All);
    assert(r[1].object_type == ObjectType::Nodes);
    assert(r[2].object_type == ObjectType::Ways);
    assert(r[3].object_type == ObjectType::Relations);
}

} // verus!
