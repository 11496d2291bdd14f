use akin::records::{
    canonical_pair, embedding_plan, merge_code_unit, plan_requests, CodeUnitRecord, EmbeddingPlan,
    PairStatus,
};

fn unit(name: &str, structure: &str, embedding: Option<Vec<u8>>, group: Option<i64>) -> CodeUnitRecord {
    CodeUnitRecord {
        qualified_name: name.to_string(),
        project_id: 1,
        file_path: "/path/src/lib.rs".to_string(),
        kind: "function".to_string(),
        range_start: 10,
        range_end: 20,
        content_hash: "abc123".to_string(),
        structure_hash: structure.to_string(),
        embedding,
        group_id: group,
    }
}

#[test]
fn test_pair_status_conversion() {
    assert_eq!(PairStatus::New.as_str(), "new");
    assert_eq!(PairStatus::Confirmed.as_str(), "confirmed");
    assert_eq!(PairStatus::Redundant.as_str(), "redundant");
    assert_eq!(PairStatus::Ignored.as_str(), "ignored");

    assert_eq!(PairStatus::from_str("new"), Some(PairStatus::New));
    assert_eq!(PairStatus::from_str("confirmed"), Some(PairStatus::Confirmed));
    assert_eq!(PairStatus::from_str("invalid"), None);
}

#[test]
fn pair_status_round_trips_every_variant() {
    for s in [PairStatus::New, PairStatus::Confirmed, PairStatus::Redundant, PairStatus::Ignored] {
        assert_eq!(PairStatus::from_str(s.as_str()), Some(s));
    }
    assert_eq!(PairStatus::from_str("Ignored"), None);
    assert_eq!(PairStatus::from_str(""), None);
}

#[test]
fn canonical_pair_orders_both_ways() {
    let (a, b) = canonical_pair("rust::b", "rust::a");
    assert_eq!(a, "rust::a");
    assert_eq!(b, "rust::b");
    let (c, d) = canonical_pair("rust::a", "rust::b");
    assert_eq!((c, d), (a, b));
}

#[test]
fn canonical_pair_prefix_comes_first() {
    let (a, b) = canonical_pair("rust::ab", "rust::a");
    assert_eq!(a, "rust::a");
    assert_eq!(b, "rust::ab");
    let (c, d) = canonical_pair("swift:x", "rust:x");
    assert_eq!(c, "rust:x");
    assert_eq!(d, "swift:x");
}

#[test]
fn merge_new_unit_inherits_group_of_same_structure() {
    let incoming = unit("rust::test::bar", "struct_hash", None, None);
    let r = merge_code_unit(None, Some(7), incoming);
    assert_eq!(r.group_id, Some(7));
    assert_eq!(r.qualified_name, "rust::test::bar");
}

#[test]
fn merge_existing_unit_keeps_its_group_and_embedding() {
    let stored = unit("rust::test::foo", "old", Some(vec![1, 2, 3, 4]), Some(3));
    let incoming = unit("rust::test::foo", "new", None, None);
    let r = merge_code_unit(Some(stored), Some(9), incoming);
    assert_eq!(r.group_id, Some(3));
    assert_eq!(r.embedding, Some(vec![1, 2, 3, 4]));
    assert_eq!(r.structure_hash, "new");
}

#[test]
fn merge_existing_unit_takes_new_embedding() {
    let stored = unit("rust::test::foo", "s", Some(vec![1, 2, 3, 4]), None);
    let incoming = unit("rust::test::foo", "s", Some(vec![5, 6, 7, 8]), None);
    let r = merge_code_unit(Some(stored), Some(4), incoming);
    assert_eq!(r.embedding, Some(vec![5, 6, 7, 8]));
    assert_eq!(r.group_id, Some(4));
}

#[test]
fn merge_without_any_group_stays_ungrouped() {
    let incoming = unit("rust::test::foo", "s", None, None);
    let r = merge_code_unit(None, None, incoming);
    assert_eq!(r.group_id, None);
    let incoming = unit("rust::test::foo", "s", None, Some(2));
    let r = merge_code_unit(None, None, incoming);
    assert_eq!(r.group_id, Some(2));
}

#[test]
fn cached_embedding_is_reused() {
    match embedding_plan(Some(vec![0, 0, 128, 63])) {
        EmbeddingPlan::Reuse(b) => assert_eq!(b, vec![0, 0, 128, 63]),
        EmbeddingPlan::Request => panic!("a cached blob must be reused"),
    }
}

#[test]
fn missing_or_broken_cache_requests_embedding() {
    assert!(matches!(embedding_plan(None), EmbeddingPlan::Request));
    assert!(matches!(embedding_plan(Some(vec![1, 2, 3])), EmbeddingPlan::Request));
}

#[test]
fn merge_new_unit_keeps_its_own_group() {
    let incoming = unit("rust::test::bar", "struct_hash", None, Some(1));
    let r = merge_code_unit(None, Some(2), incoming);
    assert_eq!(r.group_id, Some(1));
    let stored = unit("rust::test::bar", "struct_hash", None, None);
    let incoming = unit("rust::test::bar", "struct_hash", None, Some(1));
    let r = merge_code_unit(Some(stored), Some(2), incoming);
    assert_eq!(r.group_id, Some(1));
}

#[test]
fn one_request_per_distinct_uncached_content() {
    let hashes: Vec<String> = ["h1", "h2", "h1", "h3", "h2"].iter().map(|s| s.to_string()).collect();
    let first = plan_requests(&hashes, &vec![false; 5]);
    assert_eq!(first, vec![true, true, false, true, false]);
    let second = plan_requests(&hashes, &vec![true, true, true, true, true]);
    assert_eq!(second, vec![false; 5]);
    let mixed = plan_requests(&hashes, &vec![true, false, true, false, false]);
    assert_eq!(mixed, vec![false, true, false, true, false]);
    assert!(plan_requests(&vec![], &vec![]).is_empty());
}
