//! The library's smaller pieces: timestamps, strings, orders, tables,
//! framing, errors and the command surface.

use osmflat_taginfo::bbox::{
    key_together_count_in_bbox, tag_together_count_in_bbox, KeyBboxIndices, ValueBboxIndices,
};
use osmflat_taginfo::cli::{
    endpoint, split_tag, Command, Endpoint, KeyArgs, KeyVerb, KeysArgs, ServeArgs, TagArgs,
    TagVerb, Order,
};
use osmflat_taginfo::counts::{count_all, tally_values, Totals, TypeCounts, ValuePresence};
use osmflat_taginfo::endpoints::key_values::{self, KeyValues, ValueEntry};
use osmflat_taginfo::endpoints::keys::{self, KeyEntry, KeysSortField};
use osmflat_taginfo::endpoints::{SortTable, UnknownSortName};
use osmflat_taginfo::counts::KeySummary;
use osmflat_taginfo::freshness::{format_utc, freshness_secs, replication_secs};
use osmflat_taginfo::order::{compare_bytes, str_equal, Comparison};
use osmflat_taginfo::output::{envelope, envelope_page, Framed, Page};
use osmflat_taginfo::rank::{rank_order, SortKey};
use osmflat_taginfo::routes::{bbox_fields, paging, unpaged, ApiError};
use osmflat_taginfo::table::table_lines;
use osmflat_taginfo::util::lossy;

#[test]
fn format_utc_writes_taginfo_timestamps() {
    assert_eq!(format_utc(0), "1970-01-01T00:00:00Z");
    assert_eq!(format_utc(1_546_300_800), "2019-01-01T00:00:00Z");
    assert_eq!(format_utc(1_782_691_200), "2026-06-29T00:00:00Z");
    assert_eq!(format_utc(86_399), "1970-01-01T23:59:59Z");
    assert_eq!(format_utc(-1), "1969-12-31T23:59:59Z");
    assert_eq!(format_utc(-62_167_219_200), "0000-01-01T00:00:00Z");
    assert_eq!(format_utc(-62_198_755_200), "-001-01-01T00:00:00Z");
}

#[test]
fn format_utc_follows_the_gregorian_calendar() {
    assert_eq!(format_utc(951_782_400), "2000-02-29T00:00:00Z");
    assert_eq!(format_utc(-2_203_891_200), "1900-03-01T00:00:00Z");
    assert_eq!(format_utc(4_107_542_400), "2100-03-01T00:00:00Z");
    assert_eq!(format_utc(253_402_300_799), "9999-12-31T23:59:59Z");
    assert_eq!(format_utc(-377_705_116_800), "-9999-01-01T00:00:00Z");
    // Days-to-civil in 400-year eras of 146097 days, years starting 1 March.
    let mut days: i64 = -3_652_059;
    while days <= 2_932_896 {
        let z = days + 719_468;
        let era = z.div_euclid(146_097);
        let doe = z - era * 146_097;
        let yoe = (doe - doe / 1460 + doe / 36_524 - doe / 146_096) / 365;
        let doy = doe - (365 * yoe + yoe / 4 - yoe / 100);
        let mp = (5 * doy + 2) / 153;
        let d = doy - (153 * mp + 2) / 5 + 1;
        let m = if mp < 10 { mp + 3 } else { mp - 9 };
        let y = yoe + era * 400 + if m <= 2 { 1 } else { 0 };
        let want = format!("{y:04}-{m:02}-{d:02}T01:02:03Z");
        assert_eq!(format_utc(days * 86_400 + 3723), want, "day {days}");
        days += 89;
    }
}

#[test]
fn format_utc_out_of_range_is_the_epoch() {
    assert_eq!(format_utc(i64::MAX), "1970-01-01T00:00:00Z");
    assert_eq!(format_utc(i64::MIN), "1970-01-01T00:00:00Z");
}

#[test]
fn lossy_keeps_valid_and_replaces_invalid_utf8() {
    assert_eq!(lossy("Straße".as_bytes()), "Straße");
    assert_eq!(lossy(b"ab\xffc"), "ab\u{fffd}c");
}

#[test]
fn byte_order_matches_str_order() {
    assert_eq!(compare_bytes(b"abc", b"abd"), Comparison::Less);
    assert_eq!(compare_bytes(b"ab", b"abc"), Comparison::Less);
    assert_eq!(compare_bytes(b"b", b"abc"), Comparison::Greater);
    assert_eq!(compare_bytes(b"", b""), Comparison::Equal);
    assert!(str_equal("name", "name"));
    assert!(!str_equal("name", "names"));
}

#[test]
fn rank_order_is_a_stable_sort() {
    let empty: Vec<u8> = Vec::new();
    let keys = vec![
        SortKey { primary: 2, first: b"b", second: &empty },
        SortKey { primary: 1, first: b"z", second: &empty },
        SortKey { primary: 2, first: b"a", second: &empty },
        SortKey { primary: 2, first: b"b", second: &empty },
    ];
    assert_eq!(rank_order(&keys), vec![1, 2, 0, 3]);
}

#[test]
fn together_counts_intersect_per_type() {
    let a = ValueBboxIndices { nodes: vec![1, 3, 5, 9], ways: vec![2, 4], relations: vec![] };
    let b = ValueBboxIndices { nodes: vec![3, 4, 5, 10], ways: vec![4], relations: vec![7] };
    assert!(a.is_well_formed() && b.is_well_formed());
    assert_eq!(tag_together_count_in_bbox(&a, &b), 3);
    assert_eq!(tag_together_count_in_bbox(&b, &a), 3);
    assert_eq!(a.total(), 6);
    let k = KeyBboxIndices { nodes: vec![], ways: vec![0, 1, 2], relations: vec![] };
    let name = KeyBboxIndices { nodes: vec![0], ways: vec![0], relations: vec![0] };
    assert_eq!(key_together_count_in_bbox(&k, &name), 1);
    assert_eq!(name.total(), 3);
    let unsorted = KeyBboxIndices { nodes: vec![2, 1], ways: vec![], relations: vec![] };
    assert!(!unsorted.is_well_formed());
}

#[test]
fn tallies_count_values_per_type() {
    let t = tally_values(&vec![
        ValuePresence { nodes: true, ways: true, relations: false },
        ValuePresence { nodes: false, ways: false, relations: false },
        ValuePresence { nodes: false, ways: true, relations: true },
    ]);
    assert_eq!((t.nodes, t.ways, t.relations, t.any), (1, 2, 1, 2));
    assert_eq!(count_all(&TypeCounts { nodes: 1, ways: 2, relations: 3 }), 6);
}

#[test]
fn keys_sort_fields_and_errors() {
    let totals = Totals { nodes: 10, ways: 10, relations: 10, objects: 30 };
    let entries = vec![
        KeyEntry {
            key: b"b".to_vec(),
            summary: KeySummary {
                counts: TypeCounts { nodes: 1, ways: 0, relations: 0 },
                distinct_values: 9,
            },
        },
        KeyEntry {
            key: b"a".to_vec(),
            summary: KeySummary {
                counts: TypeCounts { nodes: 0, ways: 5, relations: 0 },
                distinct_values: 1,
            },
        },
    ];
    let by_key = keys::rows(&totals, &entries, false, Some("key"), Order::Asc).ok().unwrap();
    assert_eq!(by_key.iter().map(|r| r.key.as_str()).collect::<Vec<_>>(), vec!["a", "b"]);
    let by_values =
        keys::rows(&totals, &entries, false, Some("values_all"), Order::Desc).ok().unwrap();
    assert_eq!(by_values[0].key, "b");
    assert_eq!(by_values[0].count_nodes_fraction.ten_thousandths, 1000);
    match keys::rows(&totals, &entries, false, Some("bogus"), Order::Desc) {
        Err(UnknownSortName { table, name }) => {
            assert_eq!(table, SortTable::Keys);
            assert_eq!(name, "bogus");
        }
        Ok(_) => panic!("an unknown sort name is an error"),
    }
    assert_eq!(keys::parse_sort_field(Some("count_ways")), Some(KeysSortField::CountWays));
    assert_eq!(keys::parse_sort_field(None), Some(KeysSortField::CountAll));
}

#[test]
fn values_table_invariants_hold() {
    let entry = |v: &str, n: u64, w: u64, r: u64| ValueEntry {
        value: v.as_bytes().to_vec(),
        counts: TypeCounts { nodes: n, ways: w, relations: r },
    };
    let key = KeyValues {
        counts: TypeCounts { nodes: 6, ways: 3, relations: 1 },
        values: vec![entry("a", 1, 0, 0), entry("b", 3, 2, 0), entry("c", 1, 1, 1), entry("d", 1, 0, 0)],
    };
    let rows = key_values::rows(Some(&key), false, None, Order::Desc).ok().unwrap();
    assert_eq!(rows.len(), 4);
    assert_eq!(rows.iter().map(|r| r.count).sum::<u64>(), 10);
    assert!(rows.iter().all(|r| r.fraction.ten_thousandths <= 10_000));
    assert!(rows.windows(2).all(|w| w[0].count >= w[1].count));
    let counts: Vec<u64> = rows.iter().map(|r| r.count).collect();
    assert_eq!(counts, vec![5, 3, 1, 1]);
    assert_eq!(rows[0].fraction.ten_thousandths, 5000);
}

#[test]
fn envelope_reports_page_one_for_all_rows() {
    match envelope("u".to_string(), "x", 3, 0, false, vec![1, 2, 3]) {
        Framed::Enveloped(e) => {
            assert_eq!((e.page, e.rp, e.total), (1, 0, 3));
            assert_eq!(e.data, vec![1, 2, 3]);
        }
        Framed::Bare(_) => panic!("enveloped by default"),
    }
    match envelope("u".to_string(), "x", 0, 2, false, vec![1, 2, 3]) {
        Framed::Enveloped(e) => assert_eq!((e.page, e.data), (1, vec![1, 2])),
        Framed::Bare(_) => panic!("enveloped by default"),
    }
    match envelope_page("u".to_string(), "x", 7, 0, false, Page { total: 2, rows: vec![1, 2] }) {
        Framed::Enveloped(e) => assert_eq!((e.page, e.rp), (1, 0)),
        Framed::Bare(_) => panic!("enveloped by default"),
    }
}

#[test]
fn huge_page_past_the_end_is_empty() {
    match envelope("u".to_string(), "x", usize::MAX, 10, false, vec![1, 2, 3]) {
        Framed::Enveloped(e) => {
            assert_eq!((e.page, e.rp, e.total), (usize::MAX, 10, 3));
            assert!(e.data.is_empty());
        }
        Framed::Bare(_) => panic!("enveloped by default"),
    }
    let p = Page::from_rows(vec![1, 2, 3], usize::MAX / 2, 7);
    assert_eq!((p.total, p.rows.len()), (3, 0));
}

#[test]
fn envelope_wraps_or_bares_the_page() {
    match envelope("u".to_string(), "1970-01-01T00:00:00Z", 2, 2, false, vec![1, 2, 3, 4, 5]) {
        Framed::Enveloped(e) => {
            assert_eq!(e.url, "u");
            assert_eq!(e.data_until, "1970-01-01T00:00:00Z");
            assert_eq!((e.page, e.rp, e.total), (2, 2, 5));
            assert_eq!(e.data, vec![3, 4]);
        }
        Framed::Bare(_) => panic!("enveloped by default"),
    }
    match envelope("u".to_string(), "x", 1, 0, true, vec![1, 2]) {
        Framed::Bare(d) => assert_eq!(d, vec![1, 2]),
        Framed::Enveloped(_) => panic!("no envelope asked"),
    }
    match envelope_page("u".to_string(), "x", 3, 1, false, Page { total: 9, rows: vec!['q'] }) {
        Framed::Enveloped(e) => assert_eq!((e.total, e.data), (9, vec!['q'])),
        Framed::Bare(_) => panic!("enveloped by default"),
    }
}

#[test]
fn table_aligns_columns() {
    let cols = vec!["key".to_string(), "count_all".to_string()];
    let rows = vec![
        vec!["highway".to_string(), "3".to_string()],
        vec!["é".to_string(), "12".to_string()],
    ];
    let lines = table_lines(&cols, &rows);
    assert_eq!(
        lines,
        vec![
            "key      count_all".to_string(),
            "highway  3        ".to_string(),
            "é        12       ".to_string(),
        ]
    );
}

#[test]
fn api_errors_map_to_status_codes() {
    let (status, msg) = ApiError::BadRequest("bad bbox".to_string()).status_and_message();
    assert_eq!((status, msg.as_str()), (400, "bad bbox"));
    let (status, msg) = ApiError::NoTaginfoIndex.status_and_message();
    assert_eq!(status, 503);
    assert_eq!(msg, "sidecar has no taginfo index (rebuild with `osmflat-extc --taginfo`)");
    let (status, msg) = ApiError::from(anyhow::Error::msg("boom")).status_and_message();
    assert_eq!((status, msg.as_str()), (500, "boom"));
}

#[test]
fn query_defaults_follow_taginfo() {
    let p = paging(None, None, None, None);
    assert_eq!((p.page, p.rp, p.sortorder, p.no_envelope), (1, 0, Order::Desc, false));
    let p = paging(Some(3), Some(20), Some(Order::Asc), Some(true));
    assert_eq!((p.page, p.rp, p.sortorder, p.no_envelope), (3, 20, Order::Asc, true));
    let p = unpaged(Some(true));
    assert_eq!((p.page, p.rp, p.no_envelope), (1, 0, true));
}

#[test]
fn bbox_query_splits_into_four_fields() {
    let f = bbox_fields("-74.02,40.70, -73.97 ,40.75").unwrap();
    assert_eq!(f, vec!["-74.02", "40.70", " -73.97 ", "40.75"]);
    let f = bbox_fields(",,,").unwrap();
    assert_eq!(f, vec!["", "", "", ""]);
    assert!(bbox_fields("1,2,3").is_none());
    assert!(bbox_fields("1,2,3,4,5").is_none());
    assert!(bbox_fields("").is_none());
    assert!(bbox_fields("1 2 3 4").is_none());
}

#[test]
fn tag_token_splits_at_first_equals() {
    let (k, v) = split_tag("highway=primary", None).ok().unwrap();
    assert_eq!((k.as_str(), v.as_str()), ("highway", "primary"));
    let (k, v) = split_tag("a=b=c", None).ok().unwrap();
    assert_eq!((k.as_str(), v.as_str()), ("a", "b=c"));
    let (k, v) = split_tag("highway", Some("primary")).ok().unwrap();
    assert_eq!((k.as_str(), v.as_str()), ("highway", "primary"));
    assert!(split_tag("highway", None).is_err());
}

#[test]
fn commands_resolve_to_endpoints() {
    let stats = endpoint(Command::Key(KeyArgs { key: "highway".to_string(), verb: None }));
    assert!(matches!(stats, Ok(Endpoint::KeyStats { ref key }) if key == "highway"));
    let values = endpoint(Command::Key(KeyArgs {
        key: "highway".to_string(),
        verb: Some(KeyVerb::Values),
    }));
    assert!(matches!(values, Ok(Endpoint::KeyValues { .. })));
    let combos = endpoint(Command::Tag(TagArgs {
        key: "highway=primary".to_string(),
        value: None,
        verb: Some(TagVerb::Combinations),
    }));
    assert!(
        matches!(combos, Ok(Endpoint::TagCombinations { ref key, ref value }) if key == "highway" && value == "primary")
    );
    let tag = endpoint(Command::Tag(TagArgs {
        key: "highway".to_string(),
        value: Some("primary".to_string()),
        verb: None,
    }));
    assert!(matches!(tag, Ok(Endpoint::TagStats { .. })));
    assert!(endpoint(Command::Keys(KeysArgs { search: Some("na".to_string()) })).is_ok());
    let serve = endpoint(Command::Serve(ServeArgs { bind_addr: "127.0.0.1:8080".to_string() }));
    assert!(matches!(serve, Ok(Endpoint::Serve { .. })));
    assert!(endpoint(Command::Tag(TagArgs {
        key: "highway".to_string(),
        value: None,
        verb: None
    }))
    .is_err());
}

#[test]
fn data_until_prefers_replication_then_mtime_then_now() {
    assert_eq!(replication_secs(0), None);
    assert_eq!(replication_secs(-3), None);
    assert_eq!(replication_secs(1_546_300_800), Some(1_546_300_800));
    assert_eq!(freshness_secs(Some(7), Some(8), 9), 7);
    assert_eq!(freshness_secs(None, Some(8), 9), 8);
    assert_eq!(freshness_secs(None, None, 9), 9);
}
