//! Endpoint rows against the small fixture archive, as its sidecar reports
//! it:
//!
//! nodes: n0 amenity=cafe + name=A | n1 amenity=cafe | n2 amenity=bench | n3 shop=bakery
//! ways:  w0 highway=primary + name=Main | w1 highway=residential | w2 highway=primary
//! rels:  r0 type=route + name=Loop (member w0)

use osmflat_taginfo::bbox::{KeyBboxIndices, ValueBboxIndices};
use osmflat_taginfo::cli::Order;
use osmflat_taginfo::counts::{tally_values, KeySummary, Totals, TypeCounts, ValuePresence};
use osmflat_taginfo::endpoints::key_combinations::{
    self, ClippedKeyCombination, KeyCombination, KeyCombinationsSource,
};
use osmflat_taginfo::endpoints::key_stats::{self, KeyStats};
use osmflat_taginfo::endpoints::key_values::{self, KeyValues, ValueEntry};
use osmflat_taginfo::endpoints::keys::{self, KeyEntry};
use osmflat_taginfo::endpoints::tag_combinations::{
    self, ClippedTagCombination, TagCombination, TagCombinationsSource, TagCombos,
};
use osmflat_taginfo::endpoints::tag_stats;
use osmflat_taginfo::model::ObjectType;

fn tc(nodes: u64, ways: u64, relations: u64) -> TypeCounts {
    TypeCounts { nodes, ways, relations }
}

fn totals() -> Totals {
    Totals { nodes: 4, ways: 3, relations: 1, objects: 8 }
}

fn round4_ticks(num: u64, den: u64) -> u128 {
    ((num as f64 / den as f64) * 10_000.0).round() as u128
}

fn entry(key: &str, counts: TypeCounts, distinct_values: u64) -> KeyEntry {
    KeyEntry { key: key.as_bytes().to_vec(), summary: KeySummary { counts, distinct_values } }
}

/// Every key archive-wide, in the query layer's string order.
fn all_keys() -> Vec<KeyEntry> {
    vec![
        entry("amenity", tc(3, 0, 0), 2),
        entry("highway", tc(0, 3, 0), 2),
        entry("name", tc(1, 1, 1), 3),
        entry("shop", tc(1, 0, 0), 1),
        entry("type", tc(0, 0, 1), 1),
    ]
}

fn amenity_values() -> KeyValues {
    KeyValues {
        counts: tc(3, 0, 0),
        values: vec![
            ValueEntry { value: b"bench".to_vec(), counts: tc(1, 0, 0) },
            ValueEntry { value: b"cafe".to_vec(), counts: tc(2, 0, 0) },
        ],
    }
}

#[test]
fn keys_counts_fractions_and_stubs() {
    let t = totals();
    let rows = keys::rows(&t, &all_keys(), false, None, Order::Desc).ok().unwrap();
    let highway = rows.iter().find(|r| r.key == "highway").unwrap();
    assert_eq!(highway.count_all, 3);
    assert_eq!(highway.count_ways, 3);
    assert_eq!(highway.count_nodes, 0);
    assert_eq!(highway.count_relations, 0);
    assert_eq!(highway.values_all, 2);
    assert_eq!(highway.count_ways_fraction.ten_thousandths, round4_ticks(3, t.ways));
    assert_eq!(highway.count_all_fraction.ten_thousandths, round4_ticks(3, t.objects));
    assert_eq!(highway.users_all, None);
    assert_eq!(highway.in_wiki, None);
    assert_eq!(highway.projects, None);
}

#[test]
fn keys_default_sort_is_count_all_desc() {
    let rows = keys::rows(&totals(), &all_keys(), false, None, Order::Desc).ok().unwrap();
    assert!(rows.windows(2).all(|w| w[0].count_all >= w[1].count_all));
}

#[test]
fn key_stats_rows_and_per_type_values() {
    // name=A on a node, name=Main on a way, name=Loop on a relation
    let presence = vec![
        ValuePresence { nodes: true, ways: false, relations: false },
        ValuePresence { nodes: false, ways: false, relations: true },
        ValuePresence { nodes: false, ways: true, relations: false },
    ];
    let stats = KeyStats { counts: tc(1, 1, 1), tallies: tally_values(&presence) };
    let rows = key_stats::rows(&totals(), Some(&stats));
    let by_type = |t: ObjectType| rows.iter().find(|r| r.object_type == t).unwrap();
    assert_eq!(by_type(ObjectType::All).count, 3);
    assert_eq!(by_type(ObjectType::All).values, 3);
    assert_eq!(by_type(ObjectType::Nodes).count, 1);
    assert_eq!(by_type(ObjectType::Nodes).values, 1);
    assert_eq!(by_type(ObjectType::Ways).count, 1);
    assert_eq!(by_type(ObjectType::Ways).values, 1);
    assert_eq!(by_type(ObjectType::Relations).count, 1);
    assert_eq!(by_type(ObjectType::Relations).values, 1);
}

#[test]
fn unknown_key_is_empty_not_error() {
    assert!(key_stats::rows(&totals(), None).is_empty());
    assert!(key_values::rows(None, false, None, Order::Desc).ok().unwrap().is_empty());
}

#[test]
fn key_values_counts_fraction_invariant_and_stubs() {
    let rows = key_values::rows(Some(&amenity_values()), false, None, Order::Desc).ok().unwrap();
    let vals: Vec<(&str, u64)> = rows.iter().map(|r| (r.value.as_str(), r.count)).collect();
    assert_eq!(vals, vec![("cafe", 2), ("bench", 1)]);
    let cafe = &rows[0];
    assert_eq!(cafe.fraction.ten_thousandths, round4_ticks(2, 3));
    assert_eq!(cafe.in_wiki, None);
    assert_eq!(cafe.description, None);
    assert_eq!(cafe.desclang, None);
    assert_eq!(cafe.descdir, None);
    let sum: u64 = rows.iter().map(|r| r.count).sum();
    assert_eq!(sum, 3);
}

#[test]
fn key_values_sort_by_value_string() {
    let rows =
        key_values::rows(Some(&amenity_values()), false, Some("value"), Order::Asc).ok().unwrap();
    let vals: Vec<&str> = rows.iter().map(|r| r.value.as_str()).collect();
    assert_eq!(vals, vec!["bench", "cafe"]);
}

#[test]
fn tag_stats_counts_and_omits_values_field() {
    let rows = tag_stats::rows(&totals(), Some(&tc(0, 2, 0)));
    let by_type = |t: ObjectType| rows.iter().find(|r| r.object_type == t).unwrap();
    assert_eq!(by_type(ObjectType::All).count, 2);
    assert_eq!(by_type(ObjectType::Ways).count, 2);
    assert_eq!(by_type(ObjectType::Nodes).count, 0);
    assert_eq!(by_type(ObjectType::Relations).count, 0);
    assert_eq!(by_type(ObjectType::All).object_type.name(), "all");
}

fn highway_key_combos() -> KeyCombinationsSource {
    KeyCombinationsSource::Archive {
        counts: tc(0, 3, 0),
        combos: vec![KeyCombination {
            other_key: b"name".to_vec(),
            together: 1,
            other_counts: Some(tc(1, 1, 1)),
        }],
    }
}

fn primary_tag_combos() -> TagCombinationsSource {
    TagCombinationsSource::Archive {
        tag: TagCombos {
            counts: tc(0, 2, 0),
            combos: vec![TagCombination {
                other_key: b"name".to_vec(),
                other_value: b"Main".to_vec(),
                together: 1,
            }],
        },
        other_counts: vec![Some(tc(0, 1, 0))],
    }
}

#[test]
fn key_combinations_fractions() {
    let rows = key_combinations::rows(&highway_key_combos(), None, Order::Desc).ok().unwrap();
    let name = rows.iter().find(|r| r.other_key == "name").unwrap();
    assert_eq!(name.together_count, 1);
    assert_eq!(name.from_fraction.ten_thousandths, round4_ticks(1, 3));
    assert_eq!(name.to_fraction.ten_thousandths, round4_ticks(1, 3));
}

#[test]
fn tag_combinations_fields() {
    let rows = tag_combinations::rows(&primary_tag_combos(), None, Order::Desc).ok().unwrap();
    let main = rows.iter().find(|r| r.other_key == "name" && r.other_value == "Main").unwrap();
    assert_eq!(main.together_count, 1);
    assert_eq!(main.from_fraction.ten_thousandths, round4_ticks(1, 2));
}

#[test]
fn combinations_empty_without_combinations_sidecar() {
    // a taginfo-only sidecar stores no combinations for any key or tag
    let keys = KeyCombinationsSource::Archive { counts: tc(0, 3, 0), combos: vec![] };
    assert!(key_combinations::rows(&keys, None, Order::Desc).ok().unwrap().is_empty());
    let tags = TagCombinationsSource::Archive {
        tag: TagCombos { counts: tc(0, 2, 0), combos: vec![] },
        other_counts: vec![],
    };
    assert!(tag_combinations::rows(&tags, None, Order::Desc).ok().unwrap().is_empty());
}

#[test]
fn bbox_clips_totals_and_counts() {
    // box (2.5, 2.5)-(3.5, 3.5): only n3 (shop=bakery) and w2 (highway=primary)
    let t = Totals::of_clip(&tc(1, 1, 0));
    assert_eq!(t.nodes, 1);
    assert_eq!(t.ways, 1);
    assert_eq!(t.relations, 0);

    let clipped_keys = vec![
        entry("amenity", tc(0, 0, 0), 0),
        entry("highway", tc(0, 1, 0), 1),
        entry("name", tc(0, 0, 0), 0),
        entry("shop", tc(1, 0, 0), 1),
        entry("type", tc(0, 0, 0), 0),
    ];
    let rows = keys::rows(&t, &clipped_keys, true, None, Order::Desc).ok().unwrap();
    let mut keys_seen: Vec<&str> = rows.iter().map(|r| r.key.as_str()).collect();
    keys_seen.sort_unstable();
    assert_eq!(keys_seen, vec!["highway", "shop"]);

    let shop = rows.iter().find(|r| r.key == "shop").unwrap();
    assert_eq!(shop.count_all, 1);
    assert_eq!(shop.count_nodes, 1);
    assert_eq!(shop.values_all, 1);

    let highway = rows.iter().find(|r| r.key == "highway").unwrap();
    assert_eq!(highway.count_all, 1);
    assert_eq!(highway.count_ways, 1);
    assert_eq!(highway.values_all, 1);

    let highway_values = KeyValues {
        counts: tc(0, 1, 0),
        values: vec![
            ValueEntry { value: b"primary".to_vec(), counts: tc(0, 1, 0) },
            ValueEntry { value: b"residential".to_vec(), counts: tc(0, 0, 0) },
        ],
    };
    let values = key_values::rows(Some(&highway_values), true, None, Order::Desc).ok().unwrap();
    assert_eq!(values.len(), 1);
    assert_eq!(values[0].value, "primary");
    assert_eq!(values[0].count, 1);

    let stats = tag_stats::rows(&t, Some(&tc(0, 1, 0)));
    assert_eq!(stats.iter().find(|r| r.object_type == ObjectType::All).unwrap().count, 1);
}

fn key_idx(nodes: Vec<u64>, ways: Vec<u64>, relations: Vec<u64>) -> KeyBboxIndices {
    KeyBboxIndices { nodes, ways, relations }
}

fn value_idx(nodes: Vec<u64>, ways: Vec<u64>, relations: Vec<u64>) -> ValueBboxIndices {
    ValueBboxIndices { nodes, ways, relations }
}

#[test]
fn bbox_recomputes_combinations() {
    // tight box: only n3 and w2 in scope, neither with a second key
    let tight_keys = KeyCombinationsSource::Clipped {
        this: key_idx(vec![], vec![2], vec![]),
        combos: vec![ClippedKeyCombination {
            other_key: b"name".to_vec(),
            other: Some(key_idx(vec![], vec![], vec![])),
        }],
    };
    assert!(key_combinations::rows(&tight_keys, None, Order::Desc).ok().unwrap().is_empty());
    let tight_tags = TagCombinationsSource::Clipped {
        this: value_idx(vec![], vec![2], vec![]),
        combos: vec![ClippedTagCombination {
            other_key: b"name".to_vec(),
            other_value: b"Main".to_vec(),
            other: Some(value_idx(vec![], vec![], vec![])),
        }],
    };
    assert!(tag_combinations::rows(&tight_tags, None, Order::Desc).ok().unwrap().is_empty());

    // a box covering the whole fixture reproduces the archive-wide counts
    let whole_keys = KeyCombinationsSource::Clipped {
        this: key_idx(vec![], vec![0, 1, 2], vec![]),
        combos: vec![ClippedKeyCombination {
            other_key: b"name".to_vec(),
            other: Some(key_idx(vec![0], vec![0], vec![0])),
        }],
    };
    let rows = key_combinations::rows(&whole_keys, None, Order::Desc).ok().unwrap();
    let name = rows.iter().find(|r| r.other_key == "name").unwrap();
    assert_eq!(name.together_count, 1);
    assert_eq!(name.from_fraction.ten_thousandths, round4_ticks(1, 3));
    assert_eq!(name.to_fraction.ten_thousandths, round4_ticks(1, 3));

    let whole_tags = TagCombinationsSource::Clipped {
        this: value_idx(vec![], vec![0, 2], vec![]),
        combos: vec![ClippedTagCombination {
            other_key: b"name".to_vec(),
            other_value: b"Main".to_vec(),
            other: Some(value_idx(vec![], vec![0], vec![])),
        }],
    };
    let tag_rows = tag_combinations::rows(&whole_tags, None, Order::Desc).ok().unwrap();
    let main = tag_rows.iter().find(|r| r.other_key == "name" && r.other_value == "Main").unwrap();
    assert_eq!(main.together_count, 1);
}
