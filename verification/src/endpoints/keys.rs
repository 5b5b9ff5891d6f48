//! `keys` → taginfo `/api/4/keys/all`: every key (optionally
//! prefix-filtered by the query layer) with per-type counts, fractions, and
//! distinct-value totals, sorted on a chosen field.

use vstd::prelude::*;
use vstd::utf8::encode_utf8;
use crate::cli::Order;
use crate::counts::{fraction, fraction_ticks, Fraction, KeySummary, Totals};
use crate::endpoints::{opt_str_chars, unknown_sort_name, SortTable, UnknownSortName};
use crate::model::{KeyRow, KeyRowView};
use crate::order::str_equal;
use crate::rank::{
    arrange, arranged, key_lt, key_views, lemma_arranged_in_rank_order, rank_order, ranking, views,
    SortKey,
};
use crate::util::{lemma_filter_map_keeps, lossy, utf8_lossy};

verus! {

/// One key as the query layer reports it: its raw bytes and its counts in
/// scope (archive-wide, or clipped to the bbox).
pub struct KeyEntry {
    pub key: Vec<u8>,
    pub summary: KeySummary,
}

/// The fields the keys table can be sorted on.
#[derive(Clone, Copy, Debug, PartialEq, Eq, Structural)]
pub enum KeysSortField {
    CountAll,
    CountNodes,
    CountWays,
    CountRelations,
    ValuesAll,
    Key,
}

/// The sort field a `--sortname` names, `count_all` by default; `None` for
/// a name the table does not allow.
pub open spec fn keys_sort_field(name: Option<Seq<char>>) -> Option<KeysSortField> {
    match name {
        None => Some(KeysSortField::CountAll),
        Some(n) => if n == "count_all"@ {
            Some(KeysSortField::CountAll)
        } else if n == "count_nodes"@ {
            Some(KeysSortField::CountNodes)
        } else if n == "count_ways"@ {
            Some(KeysSortField::CountWays)
        } else if n == "count_relations"@ {
            Some(KeysSortField::CountRelations)
        } else if n == "values_all"@ {
            Some(KeysSortField::ValuesAll)
        } else if n == "key"@ {
            Some(KeysSortField::Key)
        } else {
            None
        },
    }
}

/// Parse a `--sortname` for the keys table.
pub fn parse_sort_field(name: Option<&str>) -> (r: Option<KeysSortField>)
    ensures
        r == keys_sort_field(opt_str_chars(name)),
{
    match name {
        None => Some(KeysSortField::CountAll),
        Some(n) => if str_equal(n, "count_all") {
            Some(KeysSortField::CountAll)
        } else if str_equal(n, "count_nodes") {
            Some(KeysSortField::CountNodes)
        } else if str_equal(n, "count_ways") {
            Some(KeysSortField::CountWays)
        } else if str_equal(n, "count_relations") {
            Some(KeysSortField::CountRelations)
        } else if str_equal(n, "values_all") {
            Some(KeysSortField::ValuesAll)
        } else if str_equal(n, "key") {
            Some(KeysSortField::Key)
        } else {
            None
        },
    }
}

/// The counts of every entry add up within a `u64`.
pub open spec fn entries_fit(entries: Seq<KeyEntry>) -> bool {
    forall|i: int| 0 <= i < entries.len() ==> (#[trigger] entries[i]).summary.counts.fits()
}

/// The row of one key.
pub open spec fn key_row(e: KeyEntry, totals: Totals) -> KeyRowView {
    let c = e.summary.counts;
    let all = c.spec_all();
    KeyRowView {
        key: utf8_lossy(e.key@),
        count_all: all as u64,
        count_all_fraction: Fraction {
            ten_thousandths: fraction_ticks(all, totals.objects as int) as u128,
        },
        count_nodes: c.nodes,
        count_nodes_fraction: Fraction {
            ten_thousandths: fraction_ticks(c.nodes as int, totals.nodes as int) as u128,
        },
        count_ways: c.ways,
        count_ways_fraction: Fraction {
            ten_thousandths: fraction_ticks(c.ways as int, totals.ways as int) as u128,
        },
        count_relations: c.relations,
        count_relations_fraction: Fraction {
            ten_thousandths: fraction_ticks(c.relations as int, totals.relations as int) as u128,
        },
        values_all: e.summary.distinct_values,
        users_all: None,
        in_wiki: None,
        projects: None,
    }
}

/// The row of one key, unless it has no object in the bbox.
pub open spec fn kept_row(e: KeyEntry, totals: Totals, clipped: bool) -> Option<KeyRowView> {
    if clipped && e.summary.counts.spec_all() == 0 {
        None
    } else {
        Some(key_row(e, totals))
    }
}

/// The rows of the table before sorting.
pub open spec fn unsorted_rows(entries: Seq<KeyEntry>, totals: Totals, clipped: bool) -> Seq<
    KeyRowView,
> {
    entries.filter_map(|e: KeyEntry| kept_row(e, totals, clipped))
}

/// What a row is ranked by under `field`, tie-broken by the key string.
pub open spec fn row_rank(r: KeyRowView, field: KeysSortField) -> (int, Seq<u8>, Seq<u8>) {
    let primary = match field {
        KeysSortField::CountAll => r.count_all as int,
        KeysSortField::CountNodes => r.count_nodes as int,
        KeysSortField::CountWays => r.count_ways as int,
        KeysSortField::CountRelations => r.count_relations as int,
        KeysSortField::ValuesAll => r.values_all as int,
        KeysSortField::Key => 0,
    };
    (primary, encode_utf8(r.key), Seq::empty())
}

/// The ranking keys of a sequence of rows.
pub open spec fn row_ranks(rows: Seq<KeyRowView>, field: KeysSortField) -> Seq<
    (int, Seq<u8>, Seq<u8>),
> {
    Seq::new(rows.len(), |k: int| row_rank(rows[k], field))
}

/// The table: the rows, sorted on `field`, descending when asked.
pub open spec fn sorted_rows(
    entries: Seq<KeyEntry>,
    totals: Totals,
    clipped: bool,
    field: KeysSortField,
    order: Order,
) -> Seq<KeyRowView> {
    let rows = unsorted_rows(entries, totals, clipped);
    arranged(rows, ranking(row_ranks(rows, field)), order == Order::Desc)
}

fn build_row(e: &KeyEntry, totals: &Totals) -> (r: KeyRow)
    requires
        e.summary.counts.fits(),
    ensures
        r@ == key_row(*e, *totals),
{
    let c = e.summary.counts;
    let all = c.nodes + c.ways + c.relations;
    KeyRow {
        key: lossy(e.key.as_slice()),
        count_all: all,
        count_all_fraction: fraction(all, totals.objects),
        count_nodes: c.nodes,
        count_nodes_fraction: fraction(c.nodes, totals.nodes),
        count_ways: c.ways,
        count_ways_fraction: fraction(c.ways, totals.ways),
        count_relations: c.relations,
        count_relations_fraction: fraction(c.relations, totals.relations),
        values_all: e.summary.distinct_values,
        users_all: None,
        in_wiki: None,
        projects: None,
    }
}

fn primary_of(r: &KeyRow, field: KeysSortField) -> (p: u128)
    ensures
        p == row_rank(r@, field).0,
{
    match field {
        KeysSortField::CountAll => r.count_all as u128,
        KeysSortField::CountNodes => r.count_nodes as u128,
        KeysSortField::CountWays => r.count_ways as u128,
        KeysSortField::CountRelations => r.count_relations as u128,
        KeysSortField::ValuesAll => r.values_all as u128,
        KeysSortField::Key => 0,
    }
}

/// The keys table: one row per key (dropping, under a bbox, keys with no
/// object in it), sorted on the chosen field with the key string breaking
/// ties, descending when asked; or the unknown sort name.
pub fn rows(
    totals: &Totals,
    entries: &Vec<KeyEntry>,
    clipped: bool,
    sortname: Option<&str>,
    order: Order,
) -> (r: Result<Vec<KeyRow>, UnknownSortName>)
    requires
        entries_fit(entries@),
    ensures
        keys_sort_field(opt_str_chars(sortname)) is None <==> r is Err,
        r matches Err(e) ==> e.table == SortTable::Keys && Some(e.name@) == opt_str_chars(
            sortname,
        ),
        r matches Ok(v) ==> views(v@) == sorted_rows(
            entries@,
            *totals,
            clipped,
            keys_sort_field(opt_str_chars(sortname))->0,
            order,
        ),
{
    let field = match parse_sort_field(sortname) {
        Some(f) => f,
        None => {
            let name = match sortname {
                Some(n) => n,
                None => "",
            };
            return Err(unknown_sort_name(SortTable::Keys, name));
        },
    };
    let ghost f = |e: KeyEntry| kept_row(e, *totals, clipped);
    let mut rows: Vec<KeyRow> = Vec::new();
    let mut i: usize = 0;
    while i < entries.len()
        invariant
            i <= entries@.len(),
            entries_fit(entries@),
            f == (|e: KeyEntry| kept_row(e, *totals, clipped)),
            views(rows@) == entries@.take(i as int).filter_map(f),
        decreases entries@.len() - i,
    {
        let e = &entries[i];
        proof {
            entries@.lemma_filter_map_take_succ(f, i as int);
        }
        let c = e.summary.counts;
        let keep = !clipped || c.nodes + c.ways + c.relations != 0;
        if keep {
            let row = build_row(e, totals);
            rows.push(row);
        }
        proof {
            assert(views(rows@) =~= entries@.take(i + 1).filter_map(f));
        }
        i = i + 1;
    }
    proof {
        assert(entries@.take(entries@.len() as int) =~= entries@);
    }
    let ghost unsorted = views(rows@);
    let empty: Vec<u8> = Vec::new();
    let mut keys: Vec<SortKey> = Vec::new();
    let mut k: usize = 0;
    while k < rows.len()
        invariant
            k <= rows@.len(),
            empty@.len() == 0,
            unsorted == views(rows@),
            keys@.len() == k,
            key_views(keys@) =~= row_ranks(unsorted, field).take(k as int),
        decreases rows@.len() - k,
    {
        let row = &rows[k];
        let key_str = row.key.as_str();
        let key_bytes = key_str.as_bytes();
        assert(key_bytes@ == encode_utf8(row.key@));
        let sk = SortKey { primary: primary_of(row, field), first: key_bytes, second: empty.as_slice() };
        assert(sk.view() == row_rank(row@, field));
        keys.push(sk);
        proof {
            assert(unsorted[k as int] == rows@[k as int]@);
            assert(keys@[k as int].view() == row_rank(unsorted[k as int], field));
            assert(key_views(keys@) =~= row_ranks(unsorted, field).take(k + 1));
        }
        k = k + 1;
    }
    let p = rank_order(&keys);
    proof {
        assert(key_views(keys@) =~= row_ranks(unsorted, field));
        assert forall|m: int| 0 <= m < p@.len() implies #[trigger] p@[m] < rows@.len() by {
            assert(crate::rank::positions(p@)[m] == p@[m] as int);
        }
    }
    Ok(arrange(&rows, &p, order == Order::Desc))
}

/// By default the keys table runs from the most used key down, and in every
/// row `count_all` is the sum of the per-type counts.
pub proof fn lemma_default_order(entries: Seq<KeyEntry>, totals: Totals, clipped: bool)
    requires
        entries_fit(entries),
    ensures
        ({
            let rows = sorted_rows(entries, totals, clipped, KeysSortField::CountAll, Order::Desc);
            &&& forall|a: int, b: int|
                0 <= a < b < rows.len() ==> (#[trigger] rows[a]).count_all >= (
                #[trigger] rows[b]).count_all
            &&& forall|k: int|
                0 <= k < rows.len() ==> (#[trigger] rows[k]).count_all == rows[k].count_nodes
                    + rows[k].count_ways + rows[k].count_relations
        }),
{
    let unsorted = unsorted_rows(entries, totals, clipped);
    let rank = |r: KeyRowView| row_rank(r, KeysSortField::CountAll);
    lemma_arranged_in_rank_order(unsorted, rank, true);
    assert(Seq::new(unsorted.len(), |i: int| rank(unsorted[i])) =~= row_ranks(
        unsorted,
        KeysSortField::CountAll,
    ));
    let rows = sorted_rows(entries, totals, clipped, KeysSortField::CountAll, Order::Desc);
    assert forall|a: int, b: int| 0 <= a < b < rows.len() implies (#[trigger] rows[a]).count_all
        >= (#[trigger] rows[b]).count_all by {
        assert(!key_lt(rank(rows[a]), rank(rows[b])));
    }
    assert forall|k: int| 0 <= k < rows.len() implies (#[trigger] rows[k]).count_all
        == rows[k].count_nodes + rows[k].count_ways + rows[k].count_relations by {
        let f = |e: KeyEntry| kept_row(e, totals, clipped);
        assert(unsorted.contains(rows[k]));
        entries.lemma_filter_map_contains(f, rows[k]);
        let e = choose|e: KeyEntry| #[trigger] entries.contains(e) && f(e) == Some(rows[k]);
        let i = choose|i: int| 0 <= i < entries.len() && entries[i] == e;
        assert(entries[i].summary.counts.fits());
    }
}

/// Row `r` stands for key entry `e`: the key, its per-type counts and
/// their sum, its distinct values, and each fraction the row's count over
/// the total of the same kind (`count_all` over all objects, `count_nodes`
/// over nodes, `count_ways` over ways, `count_relations` over relations).
pub open spec fn is_key_row(r: KeyRowView, e: KeyEntry, totals: Totals) -> bool {
    let c = e.summary.counts;
    &&& r.key == utf8_lossy(e.key@)
    &&& r.count_nodes == c.nodes
    &&& r.count_ways == c.ways
    &&& r.count_relations == c.relations
    &&& r.count_all as int == c.nodes + c.ways + c.relations
    &&& r.values_all == e.summary.distinct_values
    &&& r.count_all_fraction.ten_thousandths == fraction_ticks(
        r.count_all as int,
        totals.objects as int,
    ) as u128
    &&& r.count_nodes_fraction.ten_thousandths == fraction_ticks(
        r.count_nodes as int,
        totals.nodes as int,
    ) as u128
    &&& r.count_ways_fraction.ten_thousandths == fraction_ticks(
        r.count_ways as int,
        totals.ways as int,
    ) as u128
    &&& r.count_relations_fraction.ten_thousandths == fraction_ticks(
        r.count_relations as int,
        totals.relations as int,
    ) as u128
}

/// Whether some row of `t` stands for key entry `e`.
pub open spec fn has_key_row(t: Seq<KeyRowView>, e: KeyEntry, totals: Totals) -> bool {
    exists|k: int| 0 <= k < t.len() && is_key_row(#[trigger] t[k], e, totals)
}

/// Whatever the sort, every row of the keys table stands for one of the
/// keys the query layer reported (see `is_key_row`: each fraction over the
/// total of its own kind), and every key has a row, except, under a bbox,
/// one with no object in the box.
pub proof fn lemma_rows_are_keys_over_their_totals(
    entries: Seq<KeyEntry>,
    totals: Totals,
    clipped: bool,
    field: KeysSortField,
    order: Order,
)
    requires
        entries_fit(entries),
    ensures
        ({
            let t = sorted_rows(entries, totals, clipped, field, order);
            &&& forall|k: int|
                0 <= k < t.len() ==> exists|i: int|
                    0 <= i < entries.len() && is_key_row(
                        #[trigger] t[k],
                        #[trigger] entries[i],
                        totals,
                    )
            &&& forall|i: int|
                0 <= i < entries.len() && !(clipped && (#[trigger] entries[i]).summary.counts.nodes
                    + entries[i].summary.counts.ways + entries[i].summary.counts.relations == 0)
                    ==> has_key_row(t, entries[i], totals)
        }),
{
    let unsorted = unsorted_rows(entries, totals, clipped);
    let f = |e: KeyEntry| kept_row(e, totals, clipped);
    let rank = |r: KeyRowView| row_rank(r, field);
    lemma_arranged_in_rank_order(unsorted, rank, order == Order::Desc);
    assert(Seq::new(unsorted.len(), |i: int| rank(unsorted[i])) =~= row_ranks(unsorted, field));
    let t = sorted_rows(entries, totals, clipped, field, order);
    assert forall|k: int| 0 <= k < t.len() implies exists|i: int|
        0 <= i < entries.len() && is_key_row(#[trigger] t[k], #[trigger] entries[i], totals) by {
        assert(unsorted.contains(t[k]));
        entries.lemma_filter_map_contains(f, t[k]);
        let e = choose|e: KeyEntry| #[trigger] entries.contains(e) && f(e) == Some(t[k]);
        let i = choose|i: int| 0 <= i < entries.len() && entries[i] == e;
        assert(entries[i].summary.counts.fits());
        assert(is_key_row(t[k], entries[i], totals));
    }
    assert forall|i: int|
        0 <= i < entries.len() && !(clipped && (#[trigger] entries[i]).summary.counts.nodes
            + entries[i].summary.counts.ways + entries[i].summary.counts.relations == 0)
        implies has_key_row(t, entries[i], totals) by {
        let e = entries[i];
        assert(e.summary.counts.fits());
        lemma_filter_map_keeps(entries, f, i);
        let r = f(e)->0;
        assert(unsorted.contains(r));
        let j = choose|j: int| 0 <= j < unsorted.len() && unsorted[j] == r;
        assert(t.contains(unsorted[j]));
        let k = choose|k: int| 0 <= k < t.len() && t[k] == r;
        assert(is_key_row(t[k], e, totals));
    }
}

} // verus!
