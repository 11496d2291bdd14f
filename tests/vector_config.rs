use akin::vector_config::{grown_capacity, rebuild_capacity, VectorIndexConfig, VectorIndexError};

#[test]
fn default_and_test_configs() {
    let d = VectorIndexConfig::default();
    assert_eq!((d.dimensions, d.connectivity, d.expansion_add, d.expansion_search), (1024, 16, 128, 64));
    let t = VectorIndexConfig::for_test(10);
    assert_eq!((t.dimensions, t.connectivity, t.expansion_add, t.expansion_search), (10, 8, 64, 32));
}

#[test]
fn dimension_check() {
    let c = VectorIndexConfig::for_test(3);
    assert!(c.check_dimensions(3).is_ok());
    match c.check_dimensions(4) {
        Err(VectorIndexError::DimensionMismatch { expected, got }) => {
            assert_eq!(expected, 3);
            assert_eq!(got, 4);
        }
        other => panic!("unexpected {:?}", other),
    }
}

#[test]
fn capacity_growth() {
    assert_eq!(grown_capacity(5, 10), None);
    assert_eq!(grown_capacity(10, 10), Some(1010));
    assert_eq!(grown_capacity(0, 0), Some(1000));
    assert_eq!(rebuild_capacity(3), 1003);
    assert_eq!(rebuild_capacity(usize::MAX), usize::MAX);
}
