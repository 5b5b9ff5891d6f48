//! `key <KEY> values` → taginfo `/api/4/key/values`: the distinct values of
//! one key, each with its object count and the fraction of the key's objects
//! that carry it.

use vstd::prelude::*;
use vstd::utf8::encode_utf8;
use crate::cli::Order;
use crate::counts::{
    fraction, fraction_ticks, lemma_fraction_monotone, lemma_fraction_rounds, Fraction, TypeCounts,
};
use crate::endpoints::{opt_str_chars, unknown_sort_name, SortTable, UnknownSortName};
use crate::model::{ValueRow, ValueRowView};
use crate::order::str_equal;
use crate::rank::{
    arrange, arranged, key_views, lemma_arranged_in_rank_order, lemma_arranged_sum,
    lemma_sum_term_bound, rank_order, ranking, sum_of, views, SortKey,
};
use crate::util::{lemma_filter_map_all_some, lossy, utf8_lossy};

verus! {

/// One value of the key: its raw bytes and its counts in scope.
pub struct ValueEntry {
    pub value: Vec<u8>,
    pub counts: TypeCounts,
}

/// A key found in the sidecar: its counts in scope (the fraction
/// denominator) and its values.
pub struct KeyValues {
    pub counts: TypeCounts,
    pub values: Vec<ValueEntry>,
}

/// The fields the values table can be sorted on.
#[derive(Clone, Copy, Debug, PartialEq, Eq, Structural)]
pub enum ValuesSortField {
    Count,
    Fraction,
    Value,
}

/// The sort field a `--sortname` names, `count` by default; `None` for a
/// name the table does not allow.
pub open spec fn values_sort_field(name: Option<Seq<char>>) -> Option<ValuesSortField> {
    match name {
        None => Some(ValuesSortField::Count),
        Some(n) => if n == "count"@ {
            Some(ValuesSortField::Count)
        } else if n == "fraction"@ {
            Some(ValuesSortField::Fraction)
        } else if n == "value"@ {
            Some(ValuesSortField::Value)
        } else {
            None
        },
    }
}

/// Parse a `--sortname` for the values table.
pub fn parse_sort_field(name: Option<&str>) -> (r: Option<ValuesSortField>)
    ensures
        r == values_sort_field(opt_str_chars(name)),
{
    match name {
        None => Some(ValuesSortField::Count),
        Some(n) => if str_equal(n, "count") {
            Some(ValuesSortField::Count)
        } else if str_equal(n, "fraction") {
            Some(ValuesSortField::Fraction)
        } else if str_equal(n, "value") {
            Some(ValuesSortField::Value)
        } else {
            None
        },
    }
}

/// The key's and its values' counts add up within a `u64`.
pub open spec fn key_values_fit(k: KeyValues) -> bool {
    &&& k.counts.fits()
    &&& forall|i: int| 0 <= i < k.values@.len() ==> (#[trigger] k.values@[i]).counts.fits()
}

/// The row of one value, its fraction over the key's objects.
pub open spec fn value_row(v: ValueEntry, key_all: int) -> ValueRowView {
    let count = v.counts.spec_all();
    ValueRowView {
        value: utf8_lossy(v.value@),
        count: count as u64,
        fraction: Fraction { ten_thousandths: fraction_ticks(count, key_all) as u128 },
        in_wiki: None,
        description: None,
        desclang: None,
        descdir: None,
    }
}

/// The row of one value, unless it has no object in the bbox.
pub open spec fn kept_row(v: ValueEntry, key_all: int, clipped: bool) -> Option<ValueRowView> {
    if clipped && v.counts.spec_all() == 0 {
        None
    } else {
        Some(value_row(v, key_all))
    }
}

/// The rows of the table before sorting.
pub open spec fn unsorted_rows(k: KeyValues, clipped: bool) -> Seq<ValueRowView> {
    k.values@.filter_map(|v: ValueEntry| kept_row(v, k.counts.spec_all(), clipped))
}

/// What a row is ranked by under `field`, tie-broken by the value string.
/// `count` and `fraction` rank alike: the fraction is the count over one
/// denominator.
pub open spec fn row_rank(r: ValueRowView, field: ValuesSortField) -> (int, Seq<u8>, Seq<u8>) {
    let primary = match field {
        ValuesSortField::Value => 0,
        _ => r.count as int,
    };
    (primary, encode_utf8(r.value), Seq::empty())
}

/// The ranking keys of a sequence of rows.
pub open spec fn row_ranks(rows: Seq<ValueRowView>, field: ValuesSortField) -> Seq<
    (int, Seq<u8>, Seq<u8>),
> {
    Seq::new(rows.len(), |k: int| row_rank(rows[k], field))
}

/// The table: the rows sorted on `field`, descending when asked.
pub open spec fn sorted_rows(
    k: KeyValues,
    clipped: bool,
    field: ValuesSortField,
    order: Order,
) -> Seq<ValueRowView> {
    let rows = unsorted_rows(k, clipped);
    arranged(rows, ranking(row_ranks(rows, field)), order == Order::Desc)
}

fn build_row(v: &ValueEntry, key_all: u64) -> (r: ValueRow)
    requires
        v.counts.fits(),
    ensures
        r@ == value_row(*v, key_all as int),
{
    let c = v.counts;
    let count = c.nodes + c.ways + c.relations;
    ValueRow {
        value: lossy(v.value.as_slice()),
        count,
        fraction: fraction(count, key_all),
        in_wiki: None,
        description: None,
        desclang: None,
        descdir: None,
    }
}

/// The values table of a key: one row per value (dropping, under a bbox,
/// values with no object in it), sorted on the chosen field with the value
/// string breaking ties, descending when asked. An unknown key gives an
/// empty table, not an error; otherwise an unknown sort name is an error.
pub fn rows(
    key: Option<&KeyValues>,
    clipped: bool,
    sortname: Option<&str>,
    order: Order,
) -> (r: Result<Vec<ValueRow>, UnknownSortName>)
    requires
        key matches Some(k) ==> key_values_fit(*k),
    ensures
        key is None ==> (r matches Ok(v) && v@.len() == 0),
        key matches Some(k) ==> {
            &&& values_sort_field(opt_str_chars(sortname)) is None <==> r is Err
            &&& r matches Err(e) ==> e.table == SortTable::KeyValues && Some(e.name@)
                == opt_str_chars(sortname)
            &&& r matches Ok(v) ==> views(v@) == sorted_rows(
                *k,
                clipped,
                values_sort_field(opt_str_chars(sortname))->0,
                order,
            )
        },
{
    let k = match key {
        None => return Ok(Vec::new()),
        Some(k) => k,
    };
    let field = match parse_sort_field(sortname) {
        Some(f) => f,
        None => {
            let name = match sortname {
                Some(n) => n,
                None => "",
            };
            return Err(unknown_sort_name(SortTable::KeyValues, name));
        },
    };
    let key_all = k.counts.nodes + k.counts.ways + k.counts.relations;
    let ghost f = |v: ValueEntry| kept_row(v, k.counts.spec_all(), clipped);
    let mut rows: Vec<ValueRow> = Vec::new();
    let mut i: usize = 0;
    while i < k.values.len()
        invariant
            i <= k.values@.len(),
            key_values_fit(*k),
            key_all == k.counts.spec_all(),
            f == (|v: ValueEntry| kept_row(v, k.counts.spec_all(), clipped)),
            views(rows@) == k.values@.take(i as int).filter_map(f),
        decreases k.values@.len() - i,
    {
        let v = &k.values[i];
        proof {
            k.values@.lemma_filter_map_take_succ(f, i as int);
        }
        let c = v.counts;
        let keep = !clipped || c.nodes + c.ways + c.relations != 0;
        if keep {
            let row = build_row(v, key_all);
            rows.push(row);
        }
        proof {
            assert(views(rows@) =~= k.values@.take(i + 1).filter_map(f));
        }
        i = i + 1;
    }
    proof {
        assert(k.values@.take(k.values@.len() as int) =~= k.values@);
    }
    let ghost unsorted = views(rows@);
    let empty: Vec<u8> = Vec::new();
    let mut keys: Vec<SortKey> = Vec::new();
    let mut j: usize = 0;
    while j < rows.len()
        invariant
            j <= rows@.len(),
            empty@.len() == 0,
            unsorted == views(rows@),
            keys@.len() == j,
            key_views(keys@) =~= row_ranks(unsorted, field).take(j as int),
        decreases rows@.len() - j,
    {
        let row = &rows[j];
        let value_bytes = row.value.as_str().as_bytes();
        let primary: u128 = match field {
            ValuesSortField::Value => 0,
            _ => row.count as u128,
        };
        let sk = SortKey { primary, first: value_bytes, second: empty.as_slice() };
        proof {
            assert(unsorted[j as int] == rows@[j as int]@);
            assert(sk.view() == row_rank(row@, field));
        }
        keys.push(sk);
        proof {
            assert(key_views(keys@) =~= row_ranks(unsorted, field).take(j + 1));
        }
        j = j + 1;
    }
    let p = rank_order(&keys);
    proof {
        assert(key_views(keys@) =~= row_ranks(unsorted, field));
        assert forall|m: int| 0 <= m < p@.len() implies #[trigger] p@[m] < rows@.len() by {
            assert(crate::rank::positions(p@)[m] == p@[m] as int);
        }
    }
    Ok(arrange(&rows, &p, order == Order::Desc))
}

/// The counts of a sequence of rows.
pub open spec fn row_counts(rows: Seq<ValueRowView>) -> Seq<int> {
    Seq::new(rows.len(), |i: int| rows[i].count as int)
}

/// The object counts of a key's values.
pub open spec fn value_counts(values: Seq<ValueEntry>) -> Seq<int> {
    Seq::new(values.len(), |i: int| values[i].counts.spec_all())
}

proof fn lemma_unsorted_counts(k: KeyValues, clipped: bool, i: int)
    requires
        key_values_fit(k),
        0 <= i <= k.values@.len(),
    ensures
        sum_of(
            row_counts(
                k.values@.take(i).filter_map(
                    |v: ValueEntry| kept_row(v, k.counts.spec_all(), clipped),
                ),
            ),
        ) == sum_of(value_counts(k.values@.take(i))),
    decreases i,
{
    let f = |v: ValueEntry| kept_row(v, k.counts.spec_all(), clipped);
    if i == 0 {
        assert(k.values@.take(0).filter_map(f) =~= Seq::<ValueRowView>::empty());
        assert(row_counts(Seq::<ValueRowView>::empty()) =~= Seq::<int>::empty());
        assert(value_counts(k.values@.take(0)) =~= Seq::<int>::empty());
    } else {
        lemma_unsorted_counts(k, clipped, i - 1);
        k.values@.lemma_filter_map_take_succ(f, i - 1);
        let before = k.values@.take(i - 1).filter_map(f);
        let v = k.values@[i - 1];
        assert(v.counts.fits());
        assert(value_counts(k.values@.take(i)).drop_last() =~= value_counts(k.values@.take(i - 1)));
        match f(v) {
            Some(r) => {
                assert(k.values@.take(i).filter_map(f) =~= before + seq![r]);
                assert(row_counts(before + seq![r]).drop_last() =~= row_counts(before));
            },
            None => {
                assert(k.values@.take(i).filter_map(f) =~= before + Seq::<ValueRowView>::empty());
                assert(row_counts(before + Seq::<ValueRowView>::empty()) =~= row_counts(before));
            },
        }
    }
}

/// The values table neither loses nor double-counts objects: whatever the
/// sort and under a bbox too, its counts add up to the key's values' counts
/// (which, for a sidecar whose values partition the key's objects, is the
/// key's `count_all`).
pub proof fn lemma_counts_add_up(k: KeyValues, clipped: bool, field: ValuesSortField, order: Order)
    requires
        key_values_fit(k),
    ensures
        sum_of(row_counts(sorted_rows(k, clipped, field, order))) == sum_of(
            value_counts(k.values@),
        ),
{
    let rows = unsorted_rows(k, clipped);
    let g = |r: ValueRowView| r.count as int;
    lemma_arranged_sum(rows, row_ranks(rows, field), order == Order::Desc, g);
    crate::rank::lemma_ranking_exists(row_ranks(rows, field));
    assert(row_counts(sorted_rows(k, clipped, field, order)) =~= Seq::new(
        rows.len(),
        |j: int| g(arranged(rows, ranking(row_ranks(rows, field)), order == Order::Desc)[j]),
    ));
    assert(row_counts(rows) =~= Seq::new(rows.len(), |j: int| g(rows[j])));
    lemma_unsorted_counts(k, clipped, k.values@.len() as int);
    assert(k.values@.take(k.values@.len() as int) =~= k.values@);
}

/// The values table's envelope invariants, for a sidecar whose values
/// partition the key's objects (their counts add up to the key's
/// `count_all`): whatever the sort, the rows' counts add up to the key's
/// `count_all` and every fraction lies in [0, 1]; sorted on `count`
/// descending (the default), no row's count exceeds an earlier row's; and
/// archive-wide there is one row per value.
pub proof fn lemma_values_table_invariants(
    k: KeyValues,
    clipped: bool,
    field: ValuesSortField,
    order: Order,
)
    requires
        key_values_fit(k),
        sum_of(value_counts(k.values@)) == k.counts.spec_all(),
    ensures
        ({
            let t = sorted_rows(k, clipped, field, order);
            &&& sum_of(row_counts(t)) == k.counts.spec_all()
            &&& forall|i: int|
                0 <= i < t.len() ==> #[trigger] t[i].fraction.ten_thousandths <= 10000
            &&& field == ValuesSortField::Count && order == Order::Desc ==> forall|a: int, b: int|
                0 <= a < b < t.len() ==> #[trigger] t[a].count >= #[trigger] t[b].count
            &&& !clipped ==> t.len() == k.values@.len()
        }),
{
    lemma_counts_add_up(k, clipped, field, order);
    let key_all = k.counts.spec_all();
    let f = |v: ValueEntry| kept_row(v, key_all, clipped);
    let rows = unsorted_rows(k, clipped);
    let rank = |r: ValueRowView| row_rank(r, field);
    lemma_arranged_in_rank_order(rows, rank, order == Order::Desc);
    assert(Seq::new(rows.len(), |i: int| rank(rows[i])) =~= row_ranks(rows, field));
    let t = sorted_rows(k, clipped, field, order);
    let counts = value_counts(k.values@);
    assert forall|i: int| 0 <= i < t.len() implies #[trigger] t[i].fraction.ten_thousandths
        <= 10000 by {
        assert(rows.contains(t[i]));
        k.values@.lemma_filter_map_contains(f, t[i]);
        let v = choose|v: ValueEntry| #[trigger] k.values@.contains(v) && f(v) == Some(t[i]);
        let m = choose|m: int| 0 <= m < k.values@.len() && k.values@[m] == v;
        assert(counts[m] == v.counts.spec_all());
        assert forall|j: int| 0 <= j < counts.len() implies counts[j] >= 0 by {
            assert(counts[j] == k.values@[j].counts.spec_all());
        }
        lemma_sum_term_bound(counts, m);
        assert(k.values@[m].counts.fits());
        lemma_fraction_rounds(v.counts.spec_all(), key_all);
    }
    if field == ValuesSortField::Count && order == Order::Desc {
        assert forall|a: int, b: int| 0 <= a < b < t.len() implies #[trigger] t[a].count
            >= #[trigger] t[b].count by {
            assert(!crate::rank::key_lt(rank(t[a]), rank(t[b])));
        }
    }
    if !clipped {
        assert forall|x: ValueEntry| #[trigger] f(x) is Some by {}
        lemma_filter_map_all_some(k.values@, f);
    }
}

/// `fraction` sorts the values table as `count` does: each value's fraction
/// is its count over the one key total, so the two sorts give the same
/// table, in which, descending, no row's count or fraction exceeds an
/// earlier row's (ascending, none is below an earlier row's).
pub proof fn lemma_fraction_sorts_like_count(k: KeyValues, clipped: bool, order: Order)
    requires
        key_values_fit(k),
    ensures
        sorted_rows(k, clipped, ValuesSortField::Fraction, order) == sorted_rows(
            k,
            clipped,
            ValuesSortField::Count,
            order,
        ),
        ({
            let t = sorted_rows(k, clipped, ValuesSortField::Fraction, order);
            forall|a: int, b: int|
                0 <= a < b < t.len() ==> if order == Order::Desc {
                    &&& (#[trigger] t[a]).count >= (#[trigger] t[b]).count
                    &&& t[a].fraction.ten_thousandths >= t[b].fraction.ten_thousandths
                } else {
                    &&& t[a].count <= t[b].count
                    &&& t[a].fraction.ten_thousandths <= t[b].fraction.ten_thousandths
                }
        }),
{
    let key_all = k.counts.spec_all();
    let f = |v: ValueEntry| kept_row(v, key_all, clipped);
    let rows = unsorted_rows(k, clipped);
    assert(row_ranks(rows, ValuesSortField::Fraction) =~= row_ranks(rows, ValuesSortField::Count));
    let rank = |r: ValueRowView| row_rank(r, ValuesSortField::Count);
    lemma_arranged_in_rank_order(rows, rank, order == Order::Desc);
    assert(Seq::new(rows.len(), |i: int| rank(rows[i])) =~= row_ranks(rows, ValuesSortField::Count));
    let t = sorted_rows(k, clipped, ValuesSortField::Count, order);
    assert forall|j: int| 0 <= j < t.len() implies #[trigger] t[j].fraction.ten_thousandths
        == fraction_ticks(t[j].count as int, key_all) && t[j].count <= u64::MAX by {
        assert(rows.contains(t[j]));
        k.values@.lemma_filter_map_contains(f, t[j]);
        let v = choose|v: ValueEntry| #[trigger] k.values@.contains(v) && f(v) == Some(t[j]);
        let m = choose|m: int| 0 <= m < k.values@.len() && k.values@[m] == v;
        assert(k.values@[m].counts.fits());
        lemma_fraction_monotone(v.counts.spec_all(), v.counts.spec_all(), key_all);
    }
    assert forall|a: int, b: int| 0 <= a < b < t.len() implies if order == Order::Desc {
        &&& (#[trigger] t[a]).count >= (#[trigger] t[b]).count
        &&& t[a].fraction.ten_thousandths >= t[b].fraction.ten_thousandths
    } else {
        &&& t[a].count <= t[b].count
        &&& t[a].fraction.ten_thousandths <= t[b].fraction.ten_thousandths
    } by {
        assert(t[a].fraction.ten_thousandths == fraction_ticks(t[a].count as int, key_all));
        assert(t[b].fraction.ten_thousandths == fraction_ticks(t[b].count as int, key_all));
        if order == Order::Desc {
            assert(!crate::rank::key_lt(rank(t[a]), rank(t[b])));
            lemma_fraction_monotone(t[b].count as int, t[a].count as int, key_all);
        } else {
            assert(!crate::rank::key_lt(rank(t[b]), rank(t[a])));
            lemma_fraction_monotone(t[a].count as int, t[b].count as int, key_all);
        }
    }
}

} // verus!
