//! Pagination, and the picked page of `tag … combinations` against paging
//! the full table.

use osmflat_taginfo::cli::Order;
use osmflat_taginfo::counts::{fraction, TypeCounts};
use osmflat_taginfo::endpoints::tag_combinations::{
    self, PagePlan, TagCombination, TagCombinationsSource, TagCombos,
};
use osmflat_taginfo::model::TagComboRow;
use osmflat_taginfo::output::{page_bounds, paginate, Page};

#[test]
fn paginate_slices_pages() {
    assert_eq!(paginate(vec![0, 1, 2, 3, 4], 2, 2), vec![2, 3]);
    assert_eq!(paginate(vec![0, 1, 2, 3, 4], 1, 0), vec![0, 1, 2, 3, 4]);
    assert_eq!(paginate(vec![0, 1, 2], 99, 2), Vec::<i32>::new());
}

#[test]
fn fraction_rounds_to_4dp_and_guards_zero() {
    assert_eq!(fraction(2, 3).ten_thousandths, 6667);
    assert_eq!(fraction(22, 100).ten_thousandths, 2200);
    assert_eq!(fraction(1, 10_000_000).ten_thousandths, 0);
    assert_eq!(fraction(5, 0).ten_thousandths, 0);
}

fn combo(key: &str, value: &str, together: u64) -> TagCombination {
    TagCombination {
        other_key: key.as_bytes().to_vec(),
        other_value: value.as_bytes().to_vec(),
        together,
    }
}

fn ways(n: u64) -> TypeCounts {
    TypeCounts { nodes: 0, ways: n, relations: 0 }
}

type RowTuple = (String, String, u64, u128, u128);

fn as_tuples(rows: &[TagComboRow]) -> Vec<RowTuple> {
    rows.iter()
        .map(|r| {
            (
                r.other_key.clone(),
                r.other_value.clone(),
                r.together_count,
                r.to_fraction.ten_thousandths,
                r.from_fraction.ten_thousandths,
            )
        })
        .collect()
}

fn full_rows(
    make: &dyn Fn() -> TagCombos,
    others: &[Option<TypeCounts>],
    sortname: Option<&str>,
    order: Order,
) -> Vec<TagComboRow> {
    let source = TagCombinationsSource::Archive { tag: make(), other_counts: others.to_vec() };
    tag_combinations::rows(&source, sortname, order).ok().unwrap()
}

/// What a caller does: plan the page, then look up only the picked rows.
fn picked_page(
    make: &dyn Fn() -> TagCombos,
    others: &[Option<TypeCounts>],
    sortname: Option<&str>,
    order: Order,
    page: usize,
    rp: usize,
) -> Page<TagComboRow> {
    let tag = make();
    match tag_combinations::plan_page(Some(&tag), false, sortname, order, page, rp).ok().unwrap() {
        PagePlan::FullTable => {
            Page::from_rows(full_rows(make, others, sortname, order), page, rp)
        }
        PagePlan::Pick { total, picks } => {
            let looked_up: Vec<Option<TypeCounts>> = picks.iter().map(|&i| others[i]).collect();
            Page { total, rows: tag_combinations::picked_rows(&tag, &picks, &looked_up) }
        }
    }
}

fn assert_page_matches_paged_rows(
    make: &dyn Fn() -> TagCombos,
    others: &[Option<TypeCounts>],
    expected_len: usize,
) {
    let fields = [
        None,
        Some("together_count"),
        Some("from_fraction"),
        Some("to_fraction"),
        Some("other_key"),
        Some("other_value"),
    ];
    for sortname in fields {
        for sortorder in [Order::Asc, Order::Desc] {
            let full = full_rows(make, others, sortname, sortorder);
            assert_eq!(full.len(), expected_len);
            for rp in [0, 1, 2, 3, 5, expected_len, expected_len + 9] {
                for page in 1..=expected_len + 1 {
                    let expected =
                        paginate(full_rows(make, others, sortname, sortorder), page, rp);
                    let got = picked_page(make, others, sortname, sortorder, page, rp);
                    let case = format!("{sortname:?} {sortorder:?} rp={rp} page={page}");
                    assert_eq!(got.total, full.len(), "{case}");
                    assert_eq!(as_tuples(&got.rows), as_tuples(&expected), "{case}");
                }
            }
        }
    }
}

/// `highway=primary` over four ways, co-occurring with eleven tags in
/// count ties, stored in descending count order.
fn paging_tag() -> TagCombos {
    TagCombos {
        counts: ways(4),
        combos: vec![
            combo("surface", "asphalt", 4),
            combo("lanes", "2", 3),
            combo("oneway", "yes", 3),
            combo("name", "Main", 2),
            combo("maxspeed", "50", 2),
            combo("name", "High", 1),
            combo("name", "Low", 1),
            combo("lanes", "4", 1),
            combo("oneway", "no", 1),
            combo("ref", "A1", 1),
            combo("bridge", "yes", 1),
        ],
    }
}

fn paging_others() -> Vec<Option<TypeCounts>> {
    paging_tag().combos.iter().map(|c| Some(ways(c.together))).collect()
}

#[test]
fn tag_combinations_page_matches_paged_rows() {
    assert_page_matches_paged_rows(&paging_tag, &paging_others(), 11);

    match tag_combinations::plan_page(None, false, None, Order::Desc, 1, 10).ok().unwrap() {
        PagePlan::Pick { total, picks } => assert_eq!((total, picks.len()), (0, 0)),
        PagePlan::FullTable => panic!("an unknown tag has no table to build"),
    }
    let tag = paging_tag();
    assert!(
        tag_combinations::plan_page(Some(&tag), false, Some("bogus"), Order::Desc, 1, 10).is_err()
    );
}

const N: u64 = 20_000;

/// `highway=primary` on N ways: counts N-2 and N-3 both round to 0.9999
/// over N, and N-4 to 0.9998; the higher count has the earlier key.
fn tie_tag() -> TagCombos {
    TagCombos {
        counts: ways(N),
        combos: vec![
            combo("alpha", "b", N - 2),
            combo("zeta", "a", N - 3),
            combo("mid", "c", N - 4),
            combo("even", "yes", N / 2),
        ],
    }
}

fn tie_others() -> Vec<Option<TypeCounts>> {
    tie_tag().combos.iter().map(|c| Some(ways(c.together))).collect()
}

#[test]
fn tag_combinations_page_matches_on_rounded_fraction_ties() {
    let rows = full_rows(&tie_tag, &tie_others(), None, Order::Desc);
    let zeta = rows.iter().find(|r| r.other_key == "zeta").unwrap();
    let alpha = rows.iter().find(|r| r.other_key == "alpha").unwrap();
    assert_ne!(zeta.together_count, alpha.together_count);
    assert_eq!(zeta.from_fraction, alpha.from_fraction);

    assert_page_matches_paged_rows(&tie_tag, &tie_others(), 4);
}

#[test]
fn page_bounds_clamp_to_total() {
    assert_eq!(page_bounds(5, 2, 2), (2, 4));
    assert_eq!(page_bounds(5, 3, 2), (4, 5));
    assert_eq!(page_bounds(5, 9, 2), (5, 5));
    assert_eq!(page_bounds(5, 0, 2), (0, 2));
    assert_eq!(page_bounds(5, 4, 0), (0, 5));
    assert_eq!(page_bounds(5, usize::MAX, usize::MAX), (5, 5));
}

#[test]
fn pages_concatenate_to_all_rows() {
    let rows: Vec<u32> = (0..7).collect();
    let mut joined = Vec::new();
    for page in 1..=3 {
        joined.extend(paginate(rows.clone(), page, 3));
    }
    assert_eq!(joined, rows);
    assert_eq!(paginate(rows.clone(), 3, 3), vec![6]);
}

#[test]
fn page_from_rows_keeps_total() {
    let p = Page::from_rows(vec!['a', 'b', 'c', 'd'], 2, 3);
    assert_eq!(p.total, 4);
    assert_eq!(p.rows, vec!['d']);
}

#[test]
fn plan_page_needs_the_full_table_when_every_row_is_ranked_by_lookup() {
    let tag = paging_tag();
    let full = |clipped: bool, sortname: Option<&str>, rp: usize| {
        matches!(
            tag_combinations::plan_page(Some(&tag), clipped, sortname, Order::Desc, 1, rp),
            Ok(PagePlan::FullTable)
        )
    };
    assert!(full(true, None, 10));
    assert!(full(false, Some("to_fraction"), 10));
    assert!(full(false, None, 0));
    assert!(!full(false, Some("other_value"), 10));
    match tag_combinations::plan_page(Some(&tag), false, None, Order::Desc, 2, 3).ok().unwrap() {
        // descending count, then key and value descending:
        // surface=asphalt, oneway=yes, lanes=2 | name=Main, maxspeed=50, ref=A1 | ...
        PagePlan::Pick { total, picks } => {
            assert_eq!(total, 11);
            assert_eq!(picks, vec![3, 4, 9]);
        }
        PagePlan::FullTable => panic!("a count sort with a page size picks"),
    }
}
