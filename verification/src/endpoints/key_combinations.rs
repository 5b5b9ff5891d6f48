//! `key <KEY> combinations` → taginfo `/api/4/key/combinations`: other keys
//! used by objects that also carry this key.
//!
//! `from_fraction` is `together_count` over this key's objects; `to_fraction`
//! is over the other key's objects. Under a bbox, `together_count` has no
//! stored aggregate, so it is recomputed by intersecting the two keys'
//! bbox-clipped object-index sets, and keys that no longer co-occur are
//! dropped.

use vstd::prelude::*;
use vstd::utf8::encode_utf8;
use crate::bbox::{clipped_wf, key_together_count_in_bbox, together_spec, KeyBboxIndices};
use crate::cli::Order;
use crate::counts::{count_all, fraction, fraction_ticks, Fraction, TypeCounts};
use crate::endpoints::{opt_str_chars, unknown_sort_name, SortTable, UnknownSortName};
use crate::model::{ComboRow, ComboRowView};
use crate::order::str_equal;
use crate::rank::{arrange, arranged, key_views, rank_order, ranking, views, SortKey};
use crate::bbox::common_count;
use crate::util::{lemma_filter_map_all_some, lemma_filter_map_keeps, lossy, utf8_lossy};

verus! {

/// One stored combination: the other key, how many objects carry both, and
/// the other key's counts (`None` if the other key is not in the index).
pub struct KeyCombination {
    pub other_key: Vec<u8>,
    pub together: u64,
    pub other_counts: Option<TypeCounts>,
}

/// One stored combination under a bbox: the other key and its clipped
/// object-index sets (`None` if the other key is not in the index).
pub struct ClippedKeyCombination {
    pub other_key: Vec<u8>,
    pub other: Option<KeyBboxIndices>,
}

/// What the query layer reports for the key.
pub enum KeyCombinationsSource {
    /// The key is not in the index.
    UnknownKey,
    /// Archive-wide: the key's counts and its stored combinations.
    Archive { counts: TypeCounts, combos: Vec<KeyCombination> },
    /// Under a bbox: the key's clipped sets and its stored combinations.
    Clipped { this: KeyBboxIndices, combos: Vec<ClippedKeyCombination> },
}

/// The fields the key combinations table can be sorted on.
#[derive(Clone, Copy, Debug, PartialEq, Eq, Structural)]
pub enum KeyCombinationsSortField {
    TogetherCount,
    ToFraction,
    FromFraction,
    OtherKey,
}

/// The sort field a `--sortname` names, `together_count` by default; `None`
/// for a name the table does not allow.
pub open spec fn combinations_sort_field(name: Option<Seq<char>>) -> Option<
    KeyCombinationsSortField,
> {
    match name {
        None => Some(KeyCombinationsSortField::TogetherCount),
        Some(n) => if n == "together_count"@ {
            Some(KeyCombinationsSortField::TogetherCount)
        } else if n == "to_fraction"@ {
            Some(KeyCombinationsSortField::ToFraction)
        } else if n == "from_fraction"@ {
            Some(KeyCombinationsSortField::FromFraction)
        } else if n == "other_key"@ {
            Some(KeyCombinationsSortField::OtherKey)
        } else {
            None
        },
    }
}

/// Parse a `--sortname` for the key combinations table.
pub fn parse_sort_field(name: Option<&str>) -> (r: Option<KeyCombinationsSortField>)
    ensures
        r == combinations_sort_field(opt_str_chars(name)),
{
    match name {
        None => Some(KeyCombinationsSortField::TogetherCount),
        Some(n) => if str_equal(n, "together_count") {
            Some(KeyCombinationsSortField::TogetherCount)
        } else if str_equal(n, "to_fraction") {
            Some(KeyCombinationsSortField::ToFraction)
        } else if str_equal(n, "from_fraction") {
            Some(KeyCombinationsSortField::FromFraction)
        } else if str_equal(n, "other_key") {
            Some(KeyCombinationsSortField::OtherKey)
        } else {
            None
        },
    }
}

/// A combination row.
pub open spec fn combo_row(other_key: Seq<u8>, together: int, to_total: int, from_total: int) -> ComboRowView {
    ComboRowView {
        other_key: utf8_lossy(other_key),
        together_count: together as u64,
        to_fraction: Fraction { ten_thousandths: fraction_ticks(together, to_total) as u128 },
        from_fraction: Fraction { ten_thousandths: fraction_ticks(together, from_total) as u128 },
    }
}

/// The other key's object count, 0 if it is not in the index.
pub open spec fn other_total(c: Option<TypeCounts>) -> int {
    match c {
        Some(t) => t.spec_all(),
        None => 0,
    }
}

/// The archive-wide row of one combination.
pub open spec fn archive_row(c: KeyCombination, from_total: int) -> Option<ComboRowView> {
    Some(combo_row(c.other_key@, c.together as int, other_total(c.other_counts), from_total))
}

/// The clipped sets' object count.
pub open spec fn clipped_total(k: KeyBboxIndices) -> int {
    (k.nodes@.len() + k.ways@.len() + k.relations@.len()) as int
}

/// The bbox-clipped row of one combination: dropped when the other key is
/// not in the index or the two keys share no object in the bbox.
pub open spec fn clipped_row(c: ClippedKeyCombination, this: KeyBboxIndices) -> Option<ComboRowView> {
    match c.other {
        None => None,
        Some(o) => {
            let together = together_spec(this.lists(), o.lists());
            if together == 0 {
                None
            } else {
                Some(combo_row(c.other_key@, together, clipped_total(o), clipped_total(this)))
            }
        },
    }
}

/// The rows of the table before sorting.
pub open spec fn unsorted_rows(source: KeyCombinationsSource) -> Seq<ComboRowView> {
    match source {
        KeyCombinationsSource::UnknownKey => Seq::empty(),
        KeyCombinationsSource::Archive { counts, combos } => combos@.filter_map(
            |c: KeyCombination| archive_row(c, counts.spec_all()),
        ),
        KeyCombinationsSource::Clipped { this, combos } => combos@.filter_map(
            |c: ClippedKeyCombination| clipped_row(c, this),
        ),
    }
}

/// What a row is ranked by under `field`, tie-broken by the other key.
pub open spec fn row_rank(r: ComboRowView, field: KeyCombinationsSortField) -> (int, Seq<u8>, Seq<u8>) {
    let primary = match field {
        KeyCombinationsSortField::TogetherCount => r.together_count as int,
        KeyCombinationsSortField::ToFraction => r.to_fraction.ten_thousandths as int,
        KeyCombinationsSortField::FromFraction => r.from_fraction.ten_thousandths as int,
        KeyCombinationsSortField::OtherKey => 0,
    };
    (primary, encode_utf8(r.other_key), Seq::empty())
}

/// The ranking keys of a sequence of rows.
pub open spec fn row_ranks(rows: Seq<ComboRowView>, field: KeyCombinationsSortField) -> Seq<
    (int, Seq<u8>, Seq<u8>),
> {
    Seq::new(rows.len(), |k: int| row_rank(rows[k], field))
}

/// `rows` sorted on `field`, descending when asked.
pub open spec fn ranked_rows(rows: Seq<ComboRowView>, field: KeyCombinationsSortField, order: Order) -> Seq<ComboRowView> {
    arranged(rows, ranking(row_ranks(rows, field)), order == Order::Desc)
}

/// The source's counts and clipped sets are within bounds.
pub open spec fn source_wf(source: KeyCombinationsSource) -> bool {
    match source {
        KeyCombinationsSource::UnknownKey => true,
        KeyCombinationsSource::Archive { counts, combos } => {
            &&& counts.fits()
            &&& forall|i: int|
                0 <= i < combos@.len() ==> ((#[trigger] combos@[i]).other_counts matches Some(t)
                    ==> t.fits())
        },
        KeyCombinationsSource::Clipped { this, combos } => {
            &&& this.wf()
            &&& forall|i: int|
                0 <= i < combos@.len() ==> ((#[trigger] combos@[i]).other matches Some(o) ==> o.wf())
        },
    }
}

fn rank_rows(rows: Vec<ComboRow>, field: KeyCombinationsSortField, order: Order) -> (out: Vec<ComboRow>)
    ensures
        views(out@) == ranked_rows(views(rows@), field, order),
{
    let ghost unsorted = views(rows@);
    let empty: Vec<u8> = Vec::new();
    let mut keys: Vec<SortKey> = Vec::new();
    let mut j: usize = 0;
    while j < rows.len()
        invariant
            j <= rows@.len(),
            empty@.len() == 0,
            unsorted == views(rows@),
            keys@.len() == j,
            key_views(keys@) =~= row_ranks(unsorted, field).take(j as int),
        decreases rows@.len() - j,
    {
        let row = &rows[j];
        let key_bytes = row.other_key.as_str().as_bytes();
        let primary: u128 = match field {
            KeyCombinationsSortField::TogetherCount => row.together_count as u128,
            KeyCombinationsSortField::ToFraction => row.to_fraction.ten_thousandths,
            KeyCombinationsSortField::FromFraction => row.from_fraction.ten_thousandths,
            KeyCombinationsSortField::OtherKey => 0,
        };
        let sk = SortKey { primary, first: key_bytes, second: empty.as_slice() };
        proof {
            assert(unsorted[j as int] == rows@[j as int]@);
            assert(sk.view() == row_rank(row@, field));
        }
        keys.push(sk);
        proof {
            assert(key_views(keys@) =~= row_ranks(unsorted, field).take(j + 1));
        }
        j = j + 1;
    }
    let p = rank_order(&keys);
    proof {
        assert(key_views(keys@) =~= row_ranks(unsorted, field));
        assert forall|m: int| 0 <= m < p@.len() implies #[trigger] p@[m] < rows@.len() by {
            assert(crate::rank::positions(p@)[m] == p@[m] as int);
        }
    }
    arrange(&rows, &p, order == Order::Desc)
}

fn archive_rows(counts: &TypeCounts, combos: &Vec<KeyCombination>) -> (rows: Vec<ComboRow>)
    requires
        source_wf(KeyCombinationsSource::Archive { counts: *counts, combos: *combos }),
    ensures
        views(rows@) == combos@.filter_map(|c: KeyCombination| archive_row(c, counts.spec_all())),
{
    let ghost f = |c: KeyCombination| archive_row(c, counts.spec_all());
    let from_total = count_all(counts);
    let mut rows: Vec<ComboRow> = Vec::new();
    let mut i: usize = 0;
    while i < combos.len()
        invariant
            i <= combos@.len(),
            source_wf(KeyCombinationsSource::Archive { counts: *counts, combos: *combos }),
            from_total == counts.spec_all(),
            f == (|c: KeyCombination| archive_row(c, counts.spec_all())),
            views(rows@) == combos@.take(i as int).filter_map(f),
        decreases combos@.len() - i,
    {
        let c = &combos[i];
        proof {
            combos@.lemma_filter_map_take_succ(f, i as int);
        }
        let to_total = match &c.other_counts {
            Some(t) => count_all(t),
            None => 0,
        };
        rows.push(
            ComboRow {
                other_key: lossy(c.other_key.as_slice()),
                together_count: c.together,
                to_fraction: fraction(c.together, to_total),
                from_fraction: fraction(c.together, from_total),
            },
        );
        proof {
            assert(views(rows@) =~= combos@.take(i + 1).filter_map(f));
        }
        i = i + 1;
    }
    proof {
        assert(combos@.take(combos@.len() as int) =~= combos@);
    }
    rows
}

fn clipped_rows(this: &KeyBboxIndices, combos: &Vec<ClippedKeyCombination>) -> (rows: Vec<ComboRow>)
    requires
        source_wf(KeyCombinationsSource::Clipped { this: *this, combos: *combos }),
    ensures
        views(rows@) == combos@.filter_map(|c: ClippedKeyCombination| clipped_row(c, *this)),
{
    let ghost f = |c: ClippedKeyCombination| clipped_row(c, *this);
    let from_total = this.total();
    let mut rows: Vec<ComboRow> = Vec::new();
    let mut i: usize = 0;
    while i < combos.len()
        invariant
            i <= combos@.len(),
            source_wf(KeyCombinationsSource::Clipped { this: *this, combos: *combos }),
            from_total == clipped_total(*this),
            f == (|c: ClippedKeyCombination| clipped_row(c, *this)),
            views(rows@) == combos@.take(i as int).filter_map(f),
        decreases combos@.len() - i,
    {
        let c = &combos[i];
        proof {
            combos@.lemma_filter_map_take_succ(f, i as int);
        }
        match &c.other {
            None => {},
            Some(other) => {
                let together = key_together_count_in_bbox(this, other);
                if together > 0 {
                    rows.push(
                        ComboRow {
                            other_key: lossy(c.other_key.as_slice()),
                            together_count: together,
                            to_fraction: fraction(together, other.total()),
                            from_fraction: fraction(together, from_total),
                        },
                    );
                }
            },
        }
        proof {
            assert(views(rows@) =~= combos@.take(i + 1).filter_map(f));
        }
        i = i + 1;
    }
    proof {
        assert(combos@.take(combos@.len() as int) =~= combos@);
    }
    rows
}

/// The co-occurring-keys table, sorted on the chosen field with the other
/// key breaking ties, descending when asked. An unknown key gives an empty
/// table, not an error (so does a sidecar built without combinations, whose
/// keys have none); otherwise an unknown sort name is an error.
pub fn rows(source: &KeyCombinationsSource, sortname: Option<&str>, order: Order) -> (r: Result<
    Vec<ComboRow>,
    UnknownSortName,
>)
    requires
        source_wf(*source),
    ensures
        *source is UnknownKey ==> (r matches Ok(v) && v@.len() == 0),
        !(*source is UnknownKey) ==> {
            &&& combinations_sort_field(opt_str_chars(sortname)) is None <==> r is Err
            &&& r matches Err(e) ==> e.table == SortTable::KeyCombinations && Some(e.name@)
                == opt_str_chars(sortname)
            &&& r matches Ok(v) ==> views(v@) == ranked_rows(
                unsorted_rows(*source),
                combinations_sort_field(opt_str_chars(sortname))->0,
                order,
            )
        },
{
    if let KeyCombinationsSource::UnknownKey = source {
        return Ok(Vec::new());
    }
    let field = match parse_sort_field(sortname) {
        Some(f) => f,
        None => {
            let name = match sortname {
                Some(n) => n,
                None => "",
            };
            return Err(unknown_sort_name(SortTable::KeyCombinations, name));
        },
    };
    let unsorted = match source {
        KeyCombinationsSource::UnknownKey => Vec::new(),
        KeyCombinationsSource::Archive { counts, combos } => archive_rows(counts, combos),
        KeyCombinationsSource::Clipped { this, combos } => clipped_rows(this, combos),
    };
    Ok(rank_rows(unsorted, field, order))
}

/// Under a bbox every row of the table is a real co-occurrence and both
/// its fractions lie in `[0, 1]`: the recomputed together-count is positive
/// and at most either side's object count in the box.
pub proof fn lemma_clipped_fractions_within_one(
    this: KeyBboxIndices,
    combos: Vec<ClippedKeyCombination>,
    field: KeyCombinationsSortField,
    order: Order,
)
    requires
        source_wf(KeyCombinationsSource::Clipped { this, combos }),
    ensures
        ({
            let rows = ranked_rows(unsorted_rows(KeyCombinationsSource::Clipped { this, combos }), field, order);
            forall|k: int|
                0 <= k < rows.len() ==> {
                    &&& (#[trigger] rows[k]).together_count > 0
                    &&& rows[k].from_fraction.ten_thousandths <= 10000
                    &&& rows[k].to_fraction.ten_thousandths <= 10000
                }
        }),
{
    let unsorted = unsorted_rows(KeyCombinationsSource::Clipped { this, combos });
    let rank = |r: ComboRowView| row_rank(r, field);
    crate::rank::lemma_arranged_in_rank_order(unsorted, rank, order == Order::Desc);
    assert(Seq::new(unsorted.len(), |i: int| rank(unsorted[i])) =~= row_ranks(unsorted, field));
    let rows = ranked_rows(unsorted, field, order);
    assert forall|k: int| 0 <= k < rows.len() implies {
        &&& (#[trigger] rows[k]).together_count > 0
        &&& rows[k].from_fraction.ten_thousandths <= 10000
        &&& rows[k].to_fraction.ten_thousandths <= 10000
    } by {
        let f = |c: ClippedKeyCombination| clipped_row(c, this);
        assert(unsorted.contains(rows[k]));
        combos@.lemma_filter_map_contains(f, rows[k]);
        let c = choose|c: ClippedKeyCombination| #[trigger] combos@.contains(c) && f(c) == Some(rows[k]);
        let i = choose|i: int| 0 <= i < combos@.len() && combos@[i] == c;
        let o = c.other->0;
        assert(o.wf());
        crate::bbox::lemma_together_symmetric_and_bounded(this.lists(), o.lists());
        let together = together_spec(this.lists(), o.lists());
        crate::counts::lemma_fraction_rounds(together, clipped_total(this));
        crate::counts::lemma_fraction_rounds(together, clipped_total(o));
    }
}

/// Row `r` stands for stored combination `c` of a key with counts
/// `counts`: the other key, the stored together count, `to_fraction` that
/// count over the other key's objects (0 for a key not in the index) and
/// `from_fraction` over this key's.
pub open spec fn is_archive_combination(r: ComboRowView, c: KeyCombination, counts: TypeCounts) -> bool {
    let other_objects = match c.other_counts {
        Some(oc) => oc.nodes + oc.ways + oc.relations,
        None => 0,
    };
    &&& r.other_key == utf8_lossy(c.other_key@)
    &&& r.together_count == c.together
    &&& r.to_fraction.ten_thousandths == fraction_ticks(c.together as int, other_objects) as u128
    &&& r.from_fraction.ten_thousandths == fraction_ticks(
        c.together as int,
        counts.nodes + counts.ways + counts.relations,
    ) as u128
}

/// Whether some row of `t` stands for stored combination `c`.
pub open spec fn has_archive_row(t: Seq<ComboRowView>, c: KeyCombination, counts: TypeCounts) -> bool {
    exists|k: int| 0 <= k < t.len() && is_archive_combination(#[trigger] t[k], c, counts)
}

/// Archive-wide, whatever the sort, there is one row per stored
/// combination: each row stands for one of them (see
/// `is_archive_combination`) and each of them has a row.
pub proof fn lemma_archive_rows_are_combinations(
    counts: TypeCounts,
    combos: Vec<KeyCombination>,
    field: KeyCombinationsSortField,
    order: Order,
)
    requires
        source_wf(KeyCombinationsSource::Archive { counts, combos }),
    ensures
        ({
            let t = ranked_rows(
                unsorted_rows(KeyCombinationsSource::Archive { counts, combos }),
                field,
                order,
            );
            &&& t.len() == combos@.len()
            &&& forall|k: int|
                0 <= k < t.len() ==> exists|m: int|
                    0 <= m < combos@.len() && is_archive_combination(
                        #[trigger] t[k],
                        #[trigger] combos@[m],
                        counts,
                    )
            &&& forall|m: int|
                0 <= m < combos@.len() ==> has_archive_row(t, #[trigger] combos@[m], counts)
        }),
{
    let source = KeyCombinationsSource::Archive { counts, combos };
    let unsorted = unsorted_rows(source);
    let f = |c: KeyCombination| archive_row(c, counts.spec_all());
    let rank = |r: ComboRowView| row_rank(r, field);
    crate::rank::lemma_arranged_in_rank_order(unsorted, rank, order == Order::Desc);
    assert(Seq::new(unsorted.len(), |i: int| rank(unsorted[i])) =~= row_ranks(unsorted, field));
    assert forall|c: KeyCombination| #[trigger] f(c) is Some by {}
    lemma_filter_map_all_some(combos@, f);
    let t = ranked_rows(unsorted, field, order);
    assert forall|k: int| 0 <= k < t.len() implies exists|m: int|
        0 <= m < combos@.len() && is_archive_combination(
            #[trigger] t[k],
            #[trigger] combos@[m],
            counts,
        ) by {
        assert(unsorted.contains(t[k]));
        combos@.lemma_filter_map_contains(f, t[k]);
        let c = choose|c: KeyCombination| #[trigger] combos@.contains(c) && f(c) == Some(t[k]);
        let m = choose|m: int| 0 <= m < combos@.len() && combos@[m] == c;
        assert(is_archive_combination(t[k], combos@[m], counts));
    }
    assert forall|m: int| 0 <= m < combos@.len() implies has_archive_row(
        t,
        #[trigger] combos@[m],
        counts,
    ) by {
        let c = combos@[m];
        lemma_filter_map_keeps(combos@, f, m);
        let r = f(c)->0;
        assert(unsorted.contains(r));
        let i = choose|i: int| 0 <= i < unsorted.len() && unsorted[i] == r;
        assert(t.contains(unsorted[i]));
        let k = choose|k: int| 0 <= k < t.len() && t[k] == r;
        assert(is_archive_combination(t[k], c, counts));
    }
}

/// Row `r` stands for combination `c` of a key with clipped sets `this`:
/// the other key is in the index and shares objects with this key in the
/// box, `together_count` is how many (the objects in both keys' clipped
/// sets, type by type), `to_fraction` is that count over the other key's
/// clipped objects and `from_fraction` over this key's.
pub open spec fn is_clipped_co_occurrence(
    r: ComboRowView,
    c: ClippedKeyCombination,
    this: KeyBboxIndices,
) -> bool {
    match c.other {
        None => false,
        Some(o) => {
            let together = common_count(this.nodes@, o.nodes@) + common_count(this.ways@, o.ways@)
                + common_count(this.relations@, o.relations@);
            &&& r.other_key == utf8_lossy(c.other_key@)
            &&& together > 0
            &&& r.together_count as int == together
            &&& r.to_fraction.ten_thousandths == fraction_ticks(
                together as int,
                (o.nodes@.len() + o.ways@.len() + o.relations@.len()) as int,
            ) as u128
            &&& r.from_fraction.ten_thousandths == fraction_ticks(
                together as int,
                (this.nodes@.len() + this.ways@.len() + this.relations@.len()) as int,
            ) as u128
        },
    }
}

/// Whether the other key of combination `c` is in the index and shares at
/// least one object with this key's clipped sets `this`.
pub open spec fn shares_objects_in_box(c: ClippedKeyCombination, this: KeyBboxIndices) -> bool {
    match c.other {
        None => false,
        Some(o) => common_count(this.nodes@, o.nodes@) + common_count(this.ways@, o.ways@)
            + common_count(this.relations@, o.relations@) > 0,
    }
}

/// Whether some row of `t` stands for combination `c`.
pub open spec fn has_row_for(t: Seq<ComboRowView>, c: ClippedKeyCombination, this: KeyBboxIndices) -> bool {
    exists|k: int| 0 <= k < t.len() && is_clipped_co_occurrence(#[trigger] t[k], c, this)
}

/// Under a bbox, whatever the sort, each row of the table stands for one of
/// the key's stored combinations (see `is_clipped_co_occurrence`), and every
/// stored combination whose other key shares objects with this key in the
/// box has a row.
pub proof fn lemma_clipped_rows_are_co_occurrences(
    this: KeyBboxIndices,
    combos: Vec<ClippedKeyCombination>,
    field: KeyCombinationsSortField,
    order: Order,
)
    requires
        source_wf(KeyCombinationsSource::Clipped { this, combos }),
    ensures
        ({
            let t = ranked_rows(
                unsorted_rows(KeyCombinationsSource::Clipped { this, combos }),
                field,
                order,
            );
            &&& forall|k: int|
                0 <= k < t.len() ==> exists|m: int|
                    0 <= m < combos@.len() && is_clipped_co_occurrence(
                        #[trigger] t[k],
                        #[trigger] combos@[m],
                        this,
                    )
            &&& forall|m: int|
                0 <= m < combos@.len() && shares_objects_in_box(#[trigger] combos@[m], this)
                    ==> has_row_for(t, combos@[m], this)
        }),
{
    let source = KeyCombinationsSource::Clipped { this, combos };
    let unsorted = unsorted_rows(source);
    let f = |c: ClippedKeyCombination| clipped_row(c, this);
    let rank = |r: ComboRowView| row_rank(r, field);
    crate::rank::lemma_arranged_in_rank_order(unsorted, rank, order == Order::Desc);
    assert(Seq::new(unsorted.len(), |i: int| rank(unsorted[i])) =~= row_ranks(unsorted, field));
    let t = ranked_rows(unsorted, field, order);
    assert forall|k: int| 0 <= k < t.len() implies exists|m: int|
        0 <= m < combos@.len() && is_clipped_co_occurrence(
            #[trigger] t[k],
            #[trigger] combos@[m],
            this,
        ) by {
        assert(unsorted.contains(t[k]));
        combos@.lemma_filter_map_contains(f, t[k]);
        let c = choose|c: ClippedKeyCombination| #[trigger] combos@.contains(c) && f(c) == Some(t[k]);
        let m = choose|m: int| 0 <= m < combos@.len() && combos@[m] == c;
        let o = c.other->0;
        assert(o.wf());
        crate::bbox::lemma_together_symmetric_and_bounded(this.lists(), o.lists());
        assert(is_clipped_co_occurrence(t[k], combos@[m], this));
    }
    assert forall|m: int|
        0 <= m < combos@.len() && shares_objects_in_box(#[trigger] combos@[m], this) implies has_row_for(
        t,
        combos@[m],
        this,
    ) by {
        let c = combos@[m];
        let o = c.other->0;
        assert(o.wf());
        crate::bbox::lemma_together_symmetric_and_bounded(this.lists(), o.lists());
        lemma_filter_map_keeps(combos@, f, m);
        let r = f(c)->0;
        assert(unsorted.contains(r));
        let i = choose|i: int| 0 <= i < unsorted.len() && unsorted[i] == r;
        assert(t.contains(unsorted[i]));
        let k = choose|k: int| 0 <= k < t.len() && t[k] == r;
        assert(is_clipped_co_occurrence(t[k], c, this));
    }
}

} // verus!
