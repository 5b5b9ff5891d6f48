//! `tag <KEY> <VALUE> combinations` → taginfo `/api/4/tag/combinations`:
//! other `key=value` tags used by objects that also carry this tag.
//!
//! `from_fraction` is `together_count` over this tag's objects; `to_fraction`
//! is over the other tag's objects, which takes a `(key, value)` lookup per
//! row. Under a bbox, `together_count` is recomputed by intersecting the two
//! tags' bbox-clipped postings, and tags that no longer co-occur are dropped.
//!
//! A popular tag co-occurs with millions of others. So without a bbox,
//! unless sorting by `to_fraction`, and when a page size is given,
//! [`plan_page`] picks the requested page from each combination's cheap sort
//! key first, and only that page's rows need their lookup
//! ([`picked_rows`]); `lemma_picked_page_is_page_of_rows` shows the result
//! is the page of the full table.

use vstd::prelude::*;
use vstd::utf8::encode_utf8;
use crate::bbox::{common_count, tag_together_count_in_bbox, together_spec, ValueBboxIndices};
use crate::cli::Order;
use crate::counts::{count_all, fraction, fraction_ticks, Fraction, TypeCounts};
use crate::endpoints::{opt_str_chars, unknown_sort_name, SortTable, UnknownSortName};
use crate::model::{TagComboRow, TagComboRowView};
use crate::order::str_equal;
use crate::output::{page_bounds, page_range, paged};
use crate::rank::{
    arrange, arranged, is_ranking, key_views, lemma_ranking_exists, positions, rank_order,
    ranking, views, SortKey,
};
use crate::util::{lemma_filter_map_keeps, lossy, utf8_lossy};

verus! {

/// One stored combination: the other tag and how many objects carry both.
pub struct TagCombination {
    pub other_key: Vec<u8>,
    pub other_value: Vec<u8>,
    pub together: u64,
}

/// A tag found in the sidecar: its counts and its stored combinations.
pub struct TagCombos {
    pub counts: TypeCounts,
    pub combos: Vec<TagCombination>,
}

/// One stored combination under a bbox: the other tag and its clipped
/// postings (`None` if the other tag is not in the index).
pub struct ClippedTagCombination {
    pub other_key: Vec<u8>,
    pub other_value: Vec<u8>,
    pub other: Option<ValueBboxIndices>,
}

/// What the query layer reports for the tag.
pub enum TagCombinationsSource {
    /// The tag is not in the index.
    UnknownTag,
    /// Archive-wide: the tag, and for each combination the other tag's
    /// counts (`None` if it is not in the index).
    Archive { tag: TagCombos, other_counts: Vec<Option<TypeCounts>> },
    /// Under a bbox: the tag's clipped postings and its combinations.
    Clipped { this: ValueBboxIndices, combos: Vec<ClippedTagCombination> },
}

/// The fields the tag combinations table can be sorted on.
#[derive(Clone, Copy, Debug, PartialEq, Eq, Structural)]
pub enum TagCombinationsSortField {
    TogetherCount,
    ToFraction,
    FromFraction,
    OtherKey,
    OtherValue,
}

/// The sort field a `--sortname` names, `together_count` by default; `None`
/// for a name the table does not allow.
pub open spec fn tag_sort_field(name: Option<Seq<char>>) -> Option<TagCombinationsSortField> {
    match name {
        None => Some(TagCombinationsSortField::TogetherCount),
        Some(n) => if n == "together_count"@ {
            Some(TagCombinationsSortField::TogetherCount)
        } else if n == "to_fraction"@ {
            Some(TagCombinationsSortField::ToFraction)
        } else if n == "from_fraction"@ {
            Some(TagCombinationsSortField::FromFraction)
        } else if n == "other_key"@ {
            Some(TagCombinationsSortField::OtherKey)
        } else if n == "other_value"@ {
            Some(TagCombinationsSortField::OtherValue)
        } else {
            None
        },
    }
}

/// The sort field, defaulting to `together_count`; `None` for a name the
/// table does not allow.
pub fn sort_field(name: Option<&str>) -> (r: Option<TagCombinationsSortField>)
    ensures
        r == tag_sort_field(opt_str_chars(name)),
{
    match name {
        None => Some(TagCombinationsSortField::TogetherCount),
        Some(n) => if str_equal(n, "together_count") {
            Some(TagCombinationsSortField::TogetherCount)
        } else if str_equal(n, "to_fraction") {
            Some(TagCombinationsSortField::ToFraction)
        } else if str_equal(n, "from_fraction") {
            Some(TagCombinationsSortField::FromFraction)
        } else if str_equal(n, "other_key") {
            Some(TagCombinationsSortField::OtherKey)
        } else if str_equal(n, "other_value") {
            Some(TagCombinationsSortField::OtherValue)
        } else {
            None
        },
    }
}

/// A combination row.
pub open spec fn combo_row(
    other_key: Seq<u8>,
    other_value: Seq<u8>,
    together: int,
    to_total: int,
    from_total: int,
) -> TagComboRowView {
    TagComboRowView {
        other_key: utf8_lossy(other_key),
        other_value: utf8_lossy(other_value),
        together_count: together as u64,
        to_fraction: Fraction { ten_thousandths: fraction_ticks(together, to_total) as u128 },
        from_fraction: Fraction { ten_thousandths: fraction_ticks(together, from_total) as u128 },
    }
}

/// The other tag's object count, 0 if it is not in the index.
pub open spec fn other_total(c: Option<TypeCounts>) -> int {
    match c {
        Some(t) => t.spec_all(),
        None => 0,
    }
}

/// The archive-wide row of one stored combination.
pub open spec fn archive_row(c: TagCombination, other: Option<TypeCounts>, from_total: int) -> TagComboRowView {
    combo_row(c.other_key@, c.other_value@, c.together as int, other_total(other), from_total)
}

/// The archive-wide rows, one per stored combination, before sorting.
pub open spec fn archive_rows_spec(tag: TagCombos, other_counts: Seq<Option<TypeCounts>>) -> Seq<
    TagComboRowView,
> {
    Seq::new(
        tag.combos@.len(),
        |i: int| archive_row(tag.combos@[i], other_counts[i], tag.counts.spec_all()),
    )
}

/// The clipped sets' object count.
pub open spec fn clipped_total(v: ValueBboxIndices) -> int {
    (v.nodes@.len() + v.ways@.len() + v.relations@.len()) as int
}

/// The bbox-clipped row of one combination: dropped when the other tag is
/// not in the index or the two tags share no object in the bbox.
pub open spec fn clipped_row(c: ClippedTagCombination, this: ValueBboxIndices) -> Option<
    TagComboRowView,
> {
    match c.other {
        None => None,
        Some(o) => {
            let together = together_spec(this.lists(), o.lists());
            if together == 0 {
                None
            } else {
                Some(
                    combo_row(
                        c.other_key@,
                        c.other_value@,
                        together,
                        clipped_total(o),
                        clipped_total(this),
                    ),
                )
            }
        },
    }
}

/// The rows of the table before sorting.
pub open spec fn unsorted_rows(source: TagCombinationsSource) -> Seq<TagComboRowView> {
    match source {
        TagCombinationsSource::UnknownTag => Seq::empty(),
        TagCombinationsSource::Archive { tag, other_counts } => archive_rows_spec(
            tag,
            other_counts@,
        ),
        TagCombinationsSource::Clipped { this, combos } => combos@.filter_map(
            |c: ClippedTagCombination| clipped_row(c, this),
        ),
    }
}

/// What a row is ranked by under `field`, tie-broken by the other key and
/// then the other value.
pub open spec fn row_rank(r: TagComboRowView, field: TagCombinationsSortField) -> (
    int,
    Seq<u8>,
    Seq<u8>,
) {
    let primary = match field {
        TagCombinationsSortField::TogetherCount => r.together_count as int,
        TagCombinationsSortField::ToFraction => r.to_fraction.ten_thousandths as int,
        TagCombinationsSortField::FromFraction => r.from_fraction.ten_thousandths as int,
        _ => 0,
    };
    (primary, encode_utf8(r.other_key), encode_utf8(r.other_value))
}

/// The ranking keys of a sequence of rows.
pub open spec fn row_ranks(rows: Seq<TagComboRowView>, field: TagCombinationsSortField) -> Seq<
    (int, Seq<u8>, Seq<u8>),
> {
    Seq::new(rows.len(), |k: int| row_rank(rows[k], field))
}

/// `rows` sorted on `field`, descending when asked.
pub open spec fn ranked_rows(
    rows: Seq<TagComboRowView>,
    field: TagCombinationsSortField,
    order: Order,
) -> Seq<TagComboRowView> {
    arranged(rows, ranking(row_ranks(rows, field)), order == Order::Desc)
}

/// The tag's and other tags' counts add up within a `u64`.
pub open spec fn tag_fits(tag: TagCombos) -> bool {
    tag.counts.fits()
}

/// Every other tag's counts add up within a `u64`.
pub open spec fn others_fit(other_counts: Seq<Option<TypeCounts>>) -> bool {
    forall|i: int|
        0 <= i < other_counts.len() ==> ((#[trigger] other_counts[i]) matches Some(t) ==> t.fits())
}

/// The source's counts and clipped sets are within bounds, and there is one
/// lookup per stored combination.
pub open spec fn source_wf(source: TagCombinationsSource) -> bool {
    match source {
        TagCombinationsSource::UnknownTag => true,
        TagCombinationsSource::Archive { tag, other_counts } => {
            &&& tag_fits(tag)
            &&& other_counts@.len() == tag.combos@.len()
            &&& others_fit(other_counts@)
        },
        TagCombinationsSource::Clipped { this, combos } => {
            &&& this.wf()
            &&& forall|i: int|
                0 <= i < combos@.len() ==> ((#[trigger] combos@[i]).other matches Some(o) ==> o.wf())
        },
    }
}

fn primary_of(row: &TagComboRow, field: TagCombinationsSortField) -> (p: u128)
    ensures
        p == row_rank(row@, field).0,
{
    match field {
        TagCombinationsSortField::TogetherCount => row.together_count as u128,
        TagCombinationsSortField::ToFraction => row.to_fraction.ten_thousandths,
        TagCombinationsSortField::FromFraction => row.from_fraction.ten_thousandths,
        _ => 0,
    }
}

fn rank_keys<'a>(rows: &'a Vec<TagComboRow>, field: TagCombinationsSortField) -> (keys: Vec<
    SortKey<'a>,
>)
    ensures
        key_views(keys@) == row_ranks(views(rows@), field),
{
    let ghost unsorted = views(rows@);
    let mut keys: Vec<SortKey> = Vec::new();
    let mut j: usize = 0;
    while j < rows.len()
        invariant
            j <= rows@.len(),
            unsorted == views(rows@),
            keys@.len() == j,
            key_views(keys@) =~= row_ranks(unsorted, field).take(j as int),
        decreases rows@.len() - j,
    {
        let row = &rows[j];
        let sk = SortKey {
            primary: primary_of(row, field),
            first: row.other_key.as_str().as_bytes(),
            second: row.other_value.as_str().as_bytes(),
        };
        proof {
            assert(unsorted[j as int] == rows@[j as int]@);
            assert(sk.view() == row_rank(row@, field));
        }
        keys.push(sk);
        proof {
            assert(key_views(keys@) =~= row_ranks(unsorted, field).take(j + 1));
        }
        j = j + 1;
    }
    assert(key_views(keys@) =~= row_ranks(unsorted, field));
    keys
}

fn rank_rows(rows: Vec<TagComboRow>, field: TagCombinationsSortField, order: Order) -> (out: Vec<
    TagComboRow,
>)
    ensures
        views(out@) == ranked_rows(views(rows@), field, order),
{
    let keys = rank_keys(&rows, field);
    let p = rank_order(&keys);
    proof {
        assert forall|m: int| 0 <= m < p@.len() implies #[trigger] p@[m] < rows@.len() by {
            assert(positions(p@)[m] == p@[m] as int);
        }
    }
    arrange(&rows, &p, order == Order::Desc)
}

fn build_row(c: &TagCombination, other: &Option<TypeCounts>, from_total: u64) -> (r: TagComboRow)
    requires
        other matches Some(t) ==> t.fits(),
    ensures
        r@ == archive_row(*c, *other, from_total as int),
{
    let to_total = match other {
        Some(t) => count_all(t),
        None => 0,
    };
    TagComboRow {
        other_key: lossy(c.other_key.as_slice()),
        other_value: lossy(c.other_value.as_slice()),
        together_count: c.together,
        to_fraction: fraction(c.together, to_total),
        from_fraction: fraction(c.together, from_total),
    }
}

fn archive_rows(tag: &TagCombos, other_counts: &Vec<Option<TypeCounts>>) -> (rows: Vec<
    TagComboRow,
>)
    requires
        tag_fits(*tag),
        other_counts@.len() == tag.combos@.len(),
        others_fit(other_counts@),
    ensures
        views(rows@) == archive_rows_spec(*tag, other_counts@),
{
    let from_total = count_all(&tag.counts);
    let mut rows: Vec<TagComboRow> = Vec::new();
    let mut i: usize = 0;
    while i < tag.combos.len()
        invariant
            i <= tag.combos@.len(),
            other_counts@.len() == tag.combos@.len(),
            others_fit(other_counts@),
            from_total == tag.counts.spec_all(),
            views(rows@) =~= archive_rows_spec(*tag, other_counts@).take(i as int),
        decreases tag.combos@.len() - i,
    {
        let row = build_row(&tag.combos[i], &other_counts[i], from_total);
        let ghost before = views(rows@);
        rows.push(row);
        proof {
            assert(views(rows@) =~= before.push(row@));
            assert(views(rows@) =~= archive_rows_spec(*tag, other_counts@).take(i + 1));
        }
        i = i + 1;
    }
    assert(archive_rows_spec(*tag, other_counts@).take(i as int) =~= archive_rows_spec(*tag, other_counts@));
    rows
}

fn clipped_rows(this: &ValueBboxIndices, combos: &Vec<ClippedTagCombination>) -> (rows: Vec<
    TagComboRow,
>)
    requires
        source_wf(TagCombinationsSource::Clipped { this: *this, combos: *combos }),
    ensures
        views(rows@) == combos@.filter_map(|c: ClippedTagCombination| clipped_row(c, *this)),
{
    let ghost f = |c: ClippedTagCombination| clipped_row(c, *this);
    let from_total = this.total();
    let mut rows: Vec<TagComboRow> = Vec::new();
    let mut i: usize = 0;
    while i < combos.len()
        invariant
            i <= combos@.len(),
            source_wf(TagCombinationsSource::Clipped { this: *this, combos: *combos }),
            from_total == clipped_total(*this),
            f == (|c: ClippedTagCombination| clipped_row(c, *this)),
            views(rows@) == combos@.take(i as int).filter_map(f),
        decreases combos@.len() - i,
    {
        let c = &combos[i];
        proof {
            combos@.lemma_filter_map_take_succ(f, i as int);
        }
        match &c.other {
            None => {},
            Some(other) => {
                let together = tag_together_count_in_bbox(this, other);
                if together > 0 {
                    rows.push(
                        TagComboRow {
                            other_key: lossy(c.other_key.as_slice()),
                            other_value: lossy(c.other_value.as_slice()),
                            together_count: together,
                            to_fraction: fraction(together, other.total()),
                            from_fraction: fraction(together, from_total),
                        },
                    );
                }
            },
        }
        proof {
            assert(views(rows@) =~= combos@.take(i + 1).filter_map(f));
        }
        i = i + 1;
    }
    proof {
        assert(combos@.take(combos@.len() as int) =~= combos@);
    }
    rows
}

/// The full, sorted co-occurring-tags table: sorted on the chosen field, the
/// other key and then the other value breaking ties, descending when asked.
/// An unknown tag gives an empty table, not an error (so does a sidecar
/// built without combinations); otherwise an unknown sort name is an error.
pub fn rows(source: &TagCombinationsSource, sortname: Option<&str>, order: Order) -> (r: Result<
    Vec<TagComboRow>,
    UnknownSortName,
>)
    requires
        source_wf(*source),
    ensures
        *source is UnknownTag ==> (r matches Ok(v) && v@.len() == 0),
        !(*source is UnknownTag) ==> {
            &&& tag_sort_field(opt_str_chars(sortname)) is None <==> r is Err
            &&& r matches Err(e) ==> e.table == SortTable::TagCombinations && Some(e.name@)
                == opt_str_chars(sortname)
            &&& r matches Ok(v) ==> views(v@) == ranked_rows(
                unsorted_rows(*source),
                tag_sort_field(opt_str_chars(sortname))->0,
                order,
            )
        },
{
    if let TagCombinationsSource::UnknownTag = source {
        return Ok(Vec::new());
    }
    let field = match sort_field(sortname) {
        Some(f) => f,
        None => {
            let name = match sortname {
                Some(n) => n,
                None => "",
            };
            return Err(unknown_sort_name(SortTable::TagCombinations, name));
        },
    };
    let unsorted = match source {
        TagCombinationsSource::UnknownTag => Vec::new(),
        TagCombinationsSource::Archive { tag, other_counts } => archive_rows(tag, other_counts),
        TagCombinationsSource::Clipped { this, combos } => clipped_rows(this, combos),
    };
    Ok(rank_rows(unsorted, field, order))
}

/// How a page will be produced.
pub enum PagePlan {
    /// Every row's sort key needs its lookup (a bbox, a `to_fraction` sort)
    /// or every row is wanted (`rp == 0`): build the full table with
    /// [`rows`] and page it.
    FullTable,
    /// The page is these stored combinations, in this order, out of `total`
    /// rows; only they need their other tag's counts (see [`picked_rows`]).
    Pick { total: usize, picks: Vec<usize> },
}

/// What a combination is ranked by without its lookup: every field but
/// `to_fraction`, with `from_fraction` as the rounded value rows carry.
pub open spec fn candidate_rank(c: TagCombination, from_total: int, field: TagCombinationsSortField) -> (
    int,
    Seq<u8>,
    Seq<u8>,
) {
    let primary = match field {
        TagCombinationsSortField::TogetherCount => c.together as int,
        TagCombinationsSortField::FromFraction => fraction_ticks(c.together as int, from_total),
        _ => 0,
    };
    (primary, encode_utf8(utf8_lossy(c.other_key@)), encode_utf8(utf8_lossy(c.other_value@)))
}

/// The candidates' ranking keys.
pub open spec fn candidate_ranks(tag: TagCombos, field: TagCombinationsSortField) -> Seq<
    (int, Seq<u8>, Seq<u8>),
> {
    Seq::new(
        tag.combos@.len(),
        |i: int| candidate_rank(tag.combos@[i], tag.counts.spec_all(), field),
    )
}

/// Ranking positions in output order: reversed when descending.
pub open spec fn in_order(p: Seq<int>, order: Order) -> Seq<int> {
    if order == Order::Desc {
        p.reverse()
    } else {
        p
    }
}

/// The stored combinations that make up the page, in page order.
pub open spec fn planned_picks(
    tag: TagCombos,
    field: TagCombinationsSortField,
    order: Order,
    page: int,
    rp: int,
) -> Seq<int> {
    let n = tag.combos@.len() as int;
    let (start, end) = page_range(n, page, rp);
    in_order(ranking(candidate_ranks(tag, field)), order).subrange(start, end)
}

fn candidate_keys<'a>(
    tag: &TagCombos,
    strings: &'a Vec<(String, String)>,
    from_total: u64,
    field: TagCombinationsSortField,
) -> (keys: Vec<SortKey<'a>>)
    requires
        strings@.len() == tag.combos@.len(),
        from_total == tag.counts.spec_all(),
        forall|i: int|
            0 <= i < strings@.len() ==> (#[trigger] strings@[i]).0@ == utf8_lossy(
                tag.combos@[i].other_key@,
            ) && strings@[i].1@ == utf8_lossy(tag.combos@[i].other_value@),
    ensures
        key_views(keys@) == candidate_ranks(*tag, field),
{
    let mut keys: Vec<SortKey> = Vec::new();
    let mut j: usize = 0;
    while j < strings.len()
        invariant
            j <= strings@.len(),
            strings@.len() == tag.combos@.len(),
            from_total == tag.counts.spec_all(),
            forall|i: int|
                0 <= i < strings@.len() ==> (#[trigger] strings@[i]).0@ == utf8_lossy(
                    tag.combos@[i].other_key@,
                ) && strings@[i].1@ == utf8_lossy(tag.combos@[i].other_value@),
            keys@.len() == j,
            key_views(keys@) =~= candidate_ranks(*tag, field).take(j as int),
        decreases strings@.len() - j,
    {
        let c = &tag.combos[j];
        let primary: u128 = match field {
            TagCombinationsSortField::TogetherCount => c.together as u128,
            TagCombinationsSortField::FromFraction => fraction(
                c.together,
                from_total,
            ).ten_thousandths,
            _ => 0,
        };
        let pair = &strings[j];
        let sk = SortKey {
            primary,
            first: pair.0.as_str().as_bytes(),
            second: pair.1.as_str().as_bytes(),
        };
        proof {
            assert(sk.view() == candidate_rank(tag.combos@[j as int], tag.counts.spec_all(), field));
        }
        keys.push(sk);
        proof {
            assert(key_views(keys@) =~= candidate_ranks(*tag, field).take(j + 1));
        }
        j = j + 1;
    }
    assert(key_views(keys@) =~= candidate_ranks(*tag, field));
    keys
}

/// Decide how to produce the requested page of the sorted co-occurring-tags
/// table. The sort name is checked first, whatever the tag. With a bbox, a
/// `to_fraction` sort or `rp == 0`, the full table is needed. Otherwise the
/// page is picked from each combination's cheap sort key: none for an
/// unknown tag, else the page's combinations in table order.
pub fn plan_page(
    tag: Option<&TagCombos>,
    clipped: bool,
    sortname: Option<&str>,
    order: Order,
    page: usize,
    rp: usize,
) -> (r: Result<PagePlan, UnknownSortName>)
    requires
        tag matches Some(t) ==> tag_fits(*t),
    ensures
        tag_sort_field(opt_str_chars(sortname)) is None <==> r is Err,
        r matches Err(e) ==> e.table == SortTable::TagCombinations && Some(e.name@)
            == opt_str_chars(sortname),
        r matches Ok(plan) ==> {
            let field = tag_sort_field(opt_str_chars(sortname))->0;
            if clipped || field == TagCombinationsSortField::ToFraction || rp == 0 {
                plan is FullTable
            } else {
                match tag {
                    None => plan matches PagePlan::Pick { total, picks } && total == 0
                        && picks@.len() == 0,
                    Some(t) => plan matches PagePlan::Pick { total, picks } && total
                        == t.combos@.len() && positions(picks@) == planned_picks(
                        *t,
                        field,
                        order,
                        page as int,
                        rp as int,
                    ),
                }
            }
        },
{
    let field = match sort_field(sortname) {
        Some(f) => f,
        None => {
            let name = match sortname {
                Some(n) => n,
                None => "",
            };
            return Err(unknown_sort_name(SortTable::TagCombinations, name));
        },
    };
    if clipped || field == TagCombinationsSortField::ToFraction || rp == 0 {
        return Ok(PagePlan::FullTable);
    }
    let t = match tag {
        None => return Ok(PagePlan::Pick { total: 0, picks: Vec::new() }),
        Some(t) => t,
    };
    let from_total = count_all(&t.counts);
    let mut strings: Vec<(String, String)> = Vec::new();
    let mut i: usize = 0;
    while i < t.combos.len()
        invariant
            i <= t.combos@.len(),
            strings@.len() == i,
            forall|m: int|
                0 <= m < i ==> (#[trigger] strings@[m]).0@ == utf8_lossy(t.combos@[m].other_key@)
                    && strings@[m].1@ == utf8_lossy(t.combos@[m].other_value@),
        decreases t.combos@.len() - i,
    {
        let c = &t.combos[i];
        strings.push((lossy(c.other_key.as_slice()), lossy(c.other_value.as_slice())));
        i = i + 1;
    }
    let keys = candidate_keys(t, &strings, from_total, field);
    let p = rank_order(&keys);
    let total = t.combos.len();
    let (start, end) = page_bounds(total, page, rp);
    let ghost ordered = in_order(positions(p@), order);
    let mut picks: Vec<usize> = Vec::new();
    let mut k: usize = start;
    proof {
        assert(p@.len() == total);
        assert(ordered.len() == total);
        assert((start as int, end as int) == page_range(total as int, page as int, rp as int));
    }
    while k < end
        invariant
            start <= k <= end <= total,
            p@.len() == total,
            ordered == in_order(positions(p@), order),
            ordered.len() == total,
            picks@.len() == k - start,
            forall|m: int| 0 <= m < picks@.len() ==> #[trigger] picks@[m] as int == ordered[start + m],
        decreases end - k,
    {
        let at = if order == Order::Desc { p[total - 1 - k] } else { p[k] };
        proof {
            assert(positions(p@)[k as int] == p@[k as int] as int);
            assert(positions(p@)[total - 1 - k] == p@[total - 1 - k] as int);
        }
        picks.push(at);
        k = k + 1;
    }
    proof {
        assert(positions(picks@) =~= ordered.subrange(start as int, end as int));
    }
    Ok(PagePlan::Pick { total, picks })
}

/// The rows of a picked page: for each picked combination, in order, its
/// row, with the other tag's counts looked up for it (`picked_other[k]` for
/// `picks[k]`, `None` if the other tag is not in the index).
pub fn picked_rows(
    tag: &TagCombos,
    picks: &Vec<usize>,
    picked_other: &Vec<Option<TypeCounts>>,
) -> (rows: Vec<TagComboRow>)
    requires
        tag_fits(*tag),
        picked_other@.len() == picks@.len(),
        others_fit(picked_other@),
        forall|k: int| 0 <= k < picks@.len() ==> #[trigger] picks@[k] < tag.combos@.len(),
    ensures
        views(rows@) == Seq::new(
            picks@.len(),
            |k: int|
                archive_row(tag.combos@[picks@[k] as int], picked_other@[k], tag.counts.spec_all()),
        ),
{
    let from_total = count_all(&tag.counts);
    let mut rows: Vec<TagComboRow> = Vec::new();
    let mut k: usize = 0;
    while k < picks.len()
        invariant
            k <= picks@.len(),
            picked_other@.len() == picks@.len(),
            others_fit(picked_other@),
            forall|m: int| 0 <= m < picks@.len() ==> #[trigger] picks@[m] < tag.combos@.len(),
            from_total == tag.counts.spec_all(),
            rows@.len() == k,
            forall|m: int|
                0 <= m < k ==> #[trigger] rows@[m]@ == archive_row(
                    tag.combos@[picks@[m] as int],
                    picked_other@[m],
                    tag.counts.spec_all(),
                ),
        decreases picks@.len() - k,
    {
        let row = build_row(&tag.combos[picks[k]], &picked_other[k], from_total);
        rows.push(row);
        k = k + 1;
    }
    assert(views(rows@) =~= Seq::new(
        picks@.len(),
        |k: int| archive_row(tag.combos@[picks@[k] as int], picked_other@[k], tag.counts.spec_all()),
    ));
    rows
}

proof fn lemma_ticks_fit(count: int, total: int)
    requires
        0 <= count <= u64::MAX,
        0 <= total <= 4 * u64::MAX,
    ensures
        0 <= fraction_ticks(count, total) <= u128::MAX,
{
    if total > 0 {
        let t = fraction_ticks(count, total);
        assert(t == (20000 * count + total) / (2 * total));
        assert(0 <= t <= 20000 * count + total) by (nonlinear_arith)
            requires t == (20000 * count + total) / (2 * total), total > 0, count >= 0;
    }
}

/// Picking the page from the combinations' cheap sort keys gives exactly
/// the page of the full table: for every sort field but `to_fraction`, both
/// orders, every page and page size, the rows of `planned_picks` (each with
/// its own lookup) are the rows `paged` takes from the sorted table, and the
/// table has one row per stored combination.
pub proof fn lemma_picked_page_is_page_of_rows(
    tag: TagCombos,
    other_counts: Seq<Option<TypeCounts>>,
    field: TagCombinationsSortField,
    order: Order,
    page: int,
    rp: int,
)
    requires
        field != TagCombinationsSortField::ToFraction,
        other_counts.len() == tag.combos@.len(),
        rp >= 0,
    ensures
        archive_rows_spec(tag, other_counts).len() == tag.combos@.len(),
        ({
            let picks = planned_picks(tag, field, order, page, rp);
            Seq::new(
                picks.len(),
                |k: int|
                    archive_row(tag.combos@[picks[k]], other_counts[picks[k]], tag.counts.spec_all()),
            ) == paged(ranked_rows(archive_rows_spec(tag, other_counts), field, order), page, rp)
        }),
{
    let full = archive_rows_spec(tag, other_counts);
    let n = tag.combos@.len() as int;
    let from = tag.counts.spec_all();
    let keys = candidate_ranks(tag, field);
    assert forall|i: int| 0 <= i < n implies #[trigger] row_ranks(full, field)[i] == keys[i] by {
        let c = tag.combos@[i];
        lemma_ticks_fit(c.together as int, from);
        lemma_ticks_fit(c.together as int, other_total(other_counts[i]));
    }
    assert(row_ranks(full, field) =~= keys);
    lemma_ranking_exists(keys);
    let p = ranking(keys);
    let (start, end) = page_range(n, page, rp);
    let picks = planned_picks(tag, field, order, page, rp);
    let lhs = Seq::new(
        picks.len(),
        |k: int| archive_row(tag.combos@[picks[k]], other_counts[picks[k]], from),
    );
    let rhs = paged(ranked_rows(full, field, order), page, rp);
    let arr = arranged(full, p, order == Order::Desc);
    crate::output::lemma_page_start_nonneg(page, rp);
    assert(0 <= start <= end <= n);
    assert(rhs == arr.subrange(start, end));
    assert(lhs.len() == rhs.len());
    assert forall|k: int| 0 <= k < lhs.len() implies lhs[k] == rhs[k] by {
        let at = start + k;
        if order == Order::Desc {
            assert(picks[k] == p[n - 1 - at]);
            assert(arr[at] == full[p[n - 1 - at]]);
        } else {
            assert(picks[k] == p[at]);
            assert(arr[at] == full[p[at]]);
        }
    }
    assert(lhs =~= rhs);
}

/// Under a bbox every row of the table is a real co-occurrence and both
/// its fractions lie in `[0, 1]`: the recomputed together-count is positive
/// and at most either side's object count in the box.
pub proof fn lemma_clipped_fractions_within_one(
    this: ValueBboxIndices,
    combos: Vec<ClippedTagCombination>,
    field: TagCombinationsSortField,
    order: Order,
)
    requires
        source_wf(TagCombinationsSource::Clipped { this, combos }),
    ensures
        ({
            let rows = ranked_rows(unsorted_rows(TagCombinationsSource::Clipped { this, combos }), field, order);
            forall|k: int|
                0 <= k < rows.len() ==> {
                    &&& (#[trigger] rows[k]).together_count > 0
                    &&& rows[k].from_fraction.ten_thousandths <= 10000
                    &&& rows[k].to_fraction.ten_thousandths <= 10000
                }
        }),
{
    let unsorted = unsorted_rows(TagCombinationsSource::Clipped { this, combos });
    let rank = |r: TagComboRowView| row_rank(r, field);
    crate::rank::lemma_arranged_in_rank_order(unsorted, rank, order == Order::Desc);
    assert(Seq::new(unsorted.len(), |i: int| rank(unsorted[i])) =~= row_ranks(unsorted, field));
    let rows = ranked_rows(unsorted, field, order);
    assert forall|k: int| 0 <= k < rows.len() implies {
        &&& (#[trigger] rows[k]).together_count > 0
        &&& rows[k].from_fraction.ten_thousandths <= 10000
        &&& rows[k].to_fraction.ten_thousandths <= 10000
    } by {
        let f = |c: ClippedTagCombination| clipped_row(c, this);
        assert(unsorted.contains(rows[k]));
        combos@.lemma_filter_map_contains(f, rows[k]);
        let c = choose|c: ClippedTagCombination| #[trigger] combos@.contains(c) && f(c) == Some(rows[k]);
        let i = choose|i: int| 0 <= i < combos@.len() && combos@[i] == c;
        let o = c.other->0;
        assert(o.wf());
        crate::bbox::lemma_together_symmetric_and_bounded(this.lists(), o.lists());
        let together = together_spec(this.lists(), o.lists());
        crate::counts::lemma_fraction_rounds(together, clipped_total(this));
        crate::counts::lemma_fraction_rounds(together, clipped_total(o));
    }
}

/// Row `r` stands for stored combination `c` of a tag with counts `counts`,
/// the other tag having counts `other` (`None` if it is not in the index):
/// the other tag, the stored together count, `to_fraction` that count over
/// the other tag's objects (0 for a tag not in the index) and
/// `from_fraction` over this tag's.
pub open spec fn is_archive_combination(
    r: TagComboRowView,
    c: TagCombination,
    other: Option<TypeCounts>,
    counts: TypeCounts,
) -> bool {
    let other_objects = match other {
        Some(oc) => oc.nodes + oc.ways + oc.relations,
        None => 0,
    };
    &&& r.other_key == utf8_lossy(c.other_key@)
    &&& r.other_value == utf8_lossy(c.other_value@)
    &&& r.together_count == c.together
    &&& r.to_fraction.ten_thousandths == fraction_ticks(c.together as int, other_objects) as u128
    &&& r.from_fraction.ten_thousandths == fraction_ticks(
        c.together as int,
        counts.nodes + counts.ways + counts.relations,
    ) as u128
}

/// Row `r` stands for one of the tag's stored combinations (see
/// `is_archive_combination`), the `m`-th having the other tag's counts
/// `other_counts[m]`.
pub open spec fn stands_for_stored_combination(
    r: TagComboRowView,
    tag: TagCombos,
    other_counts: Seq<Option<TypeCounts>>,
) -> bool {
    exists|m: int|
        0 <= m < tag.combos@.len() && is_archive_combination(
            r,
            #[trigger] tag.combos@[m],
            other_counts[m],
            tag.counts,
        )
}

/// Whether some row of `t` stands for stored combination `c`, the other
/// tag having counts `other`.
pub open spec fn has_archive_row(
    t: Seq<TagComboRowView>,
    c: TagCombination,
    other: Option<TypeCounts>,
    counts: TypeCounts,
) -> bool {
    exists|k: int| 0 <= k < t.len() && is_archive_combination(#[trigger] t[k], c, other, counts)
}

/// Archive-wide, whatever the sort, there is one row per stored
/// combination: each row stands for one of them and each of them has a row.
pub proof fn lemma_archive_rows_are_combinations(
    tag: TagCombos,
    other_counts: Vec<Option<TypeCounts>>,
    field: TagCombinationsSortField,
    order: Order,
)
    requires
        source_wf(TagCombinationsSource::Archive { tag, other_counts }),
    ensures
        ({
            let t = ranked_rows(
                unsorted_rows(TagCombinationsSource::Archive { tag, other_counts }),
                field,
                order,
            );
            &&& t.len() == tag.combos@.len()
            &&& forall|k: int|
                0 <= k < t.len() ==> stands_for_stored_combination(
                    #[trigger] t[k],
                    tag,
                    other_counts@,
                )
            &&& forall|m: int|
                0 <= m < tag.combos@.len() ==> has_archive_row(
                    t,
                    #[trigger] tag.combos@[m],
                    other_counts@[m],
                    tag.counts,
                )
        }),
{
    let unsorted = unsorted_rows(TagCombinationsSource::Archive { tag, other_counts });
    let rank = |r: TagComboRowView| row_rank(r, field);
    crate::rank::lemma_arranged_in_rank_order(unsorted, rank, order == Order::Desc);
    assert(Seq::new(unsorted.len(), |i: int| rank(unsorted[i])) =~= row_ranks(unsorted, field));
    let t = ranked_rows(unsorted, field, order);
    assert forall|k: int| 0 <= k < t.len() implies stands_for_stored_combination(
        #[trigger] t[k],
        tag,
        other_counts@,
    ) by {
        assert(unsorted.contains(t[k]));
        let m = choose|m: int| 0 <= m < unsorted.len() && unsorted[m] == t[k];
        assert(is_archive_combination(t[k], tag.combos@[m], other_counts@[m], tag.counts));
    }
    assert forall|m: int| 0 <= m < tag.combos@.len() implies has_archive_row(
        t,
        #[trigger] tag.combos@[m],
        other_counts@[m],
        tag.counts,
    ) by {
        assert(t.contains(unsorted[m]));
        let k = choose|k: int| 0 <= k < t.len() && t[k] == unsorted[m];
        assert(is_archive_combination(t[k], tag.combos@[m], other_counts@[m], tag.counts));
    }
}

/// Row `r` stands for combination `c` of a tag with clipped sets `this`:
/// the other tag is in the index and shares objects with this tag in the
/// box, `together_count` is how many (the objects in both tags' clipped
/// sets, type by type), `to_fraction` is that count over the other tag's
/// clipped objects and `from_fraction` over this tag's.
pub open spec fn is_clipped_co_occurrence(
    r: TagComboRowView,
    c: ClippedTagCombination,
    this: ValueBboxIndices,
) -> bool {
    match c.other {
        None => false,
        Some(o) => {
            let together = common_count(this.nodes@, o.nodes@) + common_count(this.ways@, o.ways@)
                + common_count(this.relations@, o.relations@);
            &&& r.other_key == utf8_lossy(c.other_key@)
            &&& r.other_value == utf8_lossy(c.other_value@)
            &&& together > 0
            &&& r.together_count as int == together
            &&& r.to_fraction.ten_thousandths == fraction_ticks(
                together as int,
                (o.nodes@.len() + o.ways@.len() + o.relations@.len()) as int,
            ) as u128
            &&& r.from_fraction.ten_thousandths == fraction_ticks(
                together as int,
                (this.nodes@.len() + this.ways@.len() + this.relations@.len()) as int,
            ) as u128
        },
    }
}

/// Whether the other tag of combination `c` is in the index and shares
/// at least one object with this tag's clipped sets `this`.
pub open spec fn shares_objects_in_box(c: ClippedTagCombination, this: ValueBboxIndices) -> bool {
    match c.other {
        None => false,
        Some(o) => common_count(this.nodes@, o.nodes@) + common_count(this.ways@, o.ways@)
            + common_count(this.relations@, o.relations@) > 0,
    }
}

/// Whether some row of `t` stands for combination `c`.
pub open spec fn has_row_for(
    t: Seq<TagComboRowView>,
    c: ClippedTagCombination,
    this: ValueBboxIndices,
) -> bool {
    exists|k: int| 0 <= k < t.len() && is_clipped_co_occurrence(#[trigger] t[k], c, this)
}

/// Under a bbox, whatever the sort, each row of the table stands for one of
/// the tag's stored combinations (see `is_clipped_co_occurrence`), and every
/// stored combination whose other tag shares objects with this tag in the
/// box has a row.
pub proof fn lemma_clipped_rows_are_co_occurrences(
    this: ValueBboxIndices,
    combos: Vec<ClippedTagCombination>,
    field: TagCombinationsSortField,
    order: Order,
)
    requires
        source_wf(TagCombinationsSource::Clipped { this, combos }),
    ensures
        ({
            let t = ranked_rows(
                unsorted_rows(TagCombinationsSource::Clipped { this, combos }),
                field,
                order,
            );
            &&& forall|k: int|
                0 <= k < t.len() ==> exists|m: int|
                    0 <= m < combos@.len() && is_clipped_co_occurrence(
                        #[trigger] t[k],
                        #[trigger] combos@[m],
                        this,
                    )
            &&& forall|m: int|
                0 <= m < combos@.len() && shares_objects_in_box(#[trigger] combos@[m], this)
                    ==> has_row_for(t, combos@[m], this)
        }),
{
    let unsorted = unsorted_rows(TagCombinationsSource::Clipped { this, combos });
    let f = |c: ClippedTagCombination| clipped_row(c, this);
    let rank = |r: TagComboRowView| row_rank(r, field);
    crate::rank::lemma_arranged_in_rank_order(unsorted, rank, order == Order::Desc);
    assert(Seq::new(unsorted.len(), |i: int| rank(unsorted[i])) =~= row_ranks(unsorted, field));
    let t = ranked_rows(unsorted, field, order);
    assert forall|k: int| 0 <= k < t.len() implies exists|m: int|
        0 <= m < combos@.len() && is_clipped_co_occurrence(
            #[trigger] t[k],
            #[trigger] combos@[m],
            this,
        ) by {
        assert(unsorted.contains(t[k]));
        combos@.lemma_filter_map_contains(f, t[k]);
        let c = choose|c: ClippedTagCombination| #[trigger] combos@.contains(c) && f(c) == Some(t[k]);
        let m = choose|m: int| 0 <= m < combos@.len() && combos@[m] == c;
        let o = c.other->0;
        assert(o.wf());
        crate::bbox::lemma_together_symmetric_and_bounded(this.lists(), o.lists());
        assert(is_clipped_co_occurrence(t[k], combos@[m], this));
    }
    assert forall|m: int|
        0 <= m < combos@.len() && shares_objects_in_box(#[trigger] combos@[m], this) implies has_row_for(
        t,
        combos@[m],
        this,
    ) by {
        let c = combos@[m];
        let o = c.other->0;
        assert(o.wf());
        crate::bbox::lemma_together_symmetric_and_bounded(this.lists(), o.lists());
        lemma_filter_map_keeps(combos@, f, m);
        let r = f(c)->0;
        assert(unsorted.contains(r));
        let i = choose|i: int| 0 <= i < unsorted.len() && unsorted[i] == r;
        assert(t.contains(unsorted[i]));
        let k = choose|k: int| 0 <= k < t.len() && t[k] == r;
        assert(is_clipped_co_occurrence(t[k], c, this));
    }
}

} // verus!
