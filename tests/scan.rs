use akin::scan::{collect_scan_pairs, ScanHit};

fn names() -> Vec<String> {
    vec!["rust::b".to_string(), "rust::a".to_string(), "swift::c".to_string()]
}

#[test]
fn scan_pairs_are_canonical_and_distinct() {
    let projects = vec![Some(1), Some(1), Some(2)];
    let hits = vec![
        ScanHit { query: 0, target: 0, similarity: 1.0_f32 },
        ScanHit { query: 0, target: 1, similarity: 0.95_f32 },
        ScanHit { query: 1, target: 0, similarity: 0.94_f32 },
        ScanHit { query: 1, target: 2, similarity: 0.9_f32 },
    ];
    let pairs = collect_scan_pairs(&names(), &projects, &hits, false);
    assert_eq!(pairs.len(), 2);
    assert_eq!(pairs[0], ("rust::a".to_string(), "rust::b".to_string(), 0.95_f32));
    assert_eq!(pairs[1], ("rust::a".to_string(), "swift::c".to_string(), 0.9_f32));
}

#[test]
fn scan_cross_only_drops_same_project() {
    let projects = vec![Some(1), Some(1), Some(2)];
    let hits = vec![
        ScanHit { query: 0, target: 1, similarity: 0.95_f32 },
        ScanHit { query: 2, target: 0, similarity: 0.9_f32 },
        ScanHit { query: 7, target: 0, similarity: 0.9_f32 },
    ];
    let pairs = collect_scan_pairs(&names(), &projects, &hits, true);
    assert_eq!(pairs.len(), 1);
    assert_eq!(pairs[0].0, "rust::b");
    assert_eq!(pairs[0].1, "swift::c");
}

#[test]
fn scan_with_no_hits_finds_nothing() {
    let hits: Vec<ScanHit<f32>> = vec![];
    assert!(collect_scan_pairs(&names(), &vec![None, None, None], &hits, false).is_empty());
}

#[test]
fn scan_pair_named_twice_is_kept_once() {
    let projects = vec![Some(1), Some(1), Some(1)];
    let hits = vec![
        ScanHit { query: 0, target: 2, similarity: 0.91_f32 },
        ScanHit { query: 2, target: 0, similarity: 0.92_f32 },
        ScanHit { query: 1, target: 2, similarity: 0.93_f32 },
    ];
    let pairs = collect_scan_pairs(&names(), &projects, &hits, false);
    assert_eq!(pairs.len(), 2);
    assert_eq!(pairs[0], ("rust::b".to_string(), "swift::c".to_string(), 0.91_f32));
    assert_eq!(pairs[1], ("rust::a".to_string(), "swift::c".to_string(), 0.93_f32));
}
