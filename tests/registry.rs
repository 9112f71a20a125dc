use drone_fusion::registry::{Module, Registry, FRESHNESS_WINDOW_NS};

const MS: u64 = 1_000_000;

fn report(range: u64, drone: bool, at_ms: u64) -> Module<u64> {
    Module { reading: range, drone, coords_finite: true, updated: at_ms * MS }
}

fn ids(r: &Registry<u64>) -> Vec<String> {
    r.snapshot().into_iter().map(|e| e.id).collect()
}

#[test]
fn freshness_eviction_keeps_only_updated_sensor() {
    let mut r = Registry::new();
    r.insert("A".to_string(), report(1, true, 0));
    r.insert("B".to_string(), report(2, true, 0));
    r.insert("C".to_string(), report(3, true, 0));
    r.insert("A".to_string(), report(4, true, 300));
    r.evict_stale(320 * MS);
    let snap = r.snapshot();
    assert_eq!(snap.len(), 1);
    assert_eq!(snap[0].id, "A");
    assert_eq!(snap[0].module.reading, 4);
}

#[test]
fn eviction_boundary_is_exclusive() {
    let mut r = Registry::new();
    r.insert("old".to_string(), report(1, false, 0));
    r.insert("young".to_string(), Module { reading: 2, drone: false, coords_finite: true, updated: 1 });
    r.evict_stale(FRESHNESS_WINDOW_NS);
    assert_eq!(ids(&r), vec!["young".to_string()]);
}

#[test]
fn eviction_drops_non_finite_coordinates() {
    let mut r = Registry::new();
    r.insert("bad".to_string(), Module { reading: 1, drone: true, coords_finite: false, updated: 10 });
    r.insert("good".to_string(), report(2, true, 0));
    r.evict_stale(20);
    assert_eq!(ids(&r), vec!["good".to_string()]);
}

#[test]
fn report_from_the_future_counts_as_fresh() {
    let mut r = Registry::new();
    r.insert("A".to_string(), report(1, true, 900));
    r.evict_stale(100 * MS);
    assert_eq!(r.len(), 1);
}

#[test]
fn insert_replaces_in_place_and_appends_new() {
    let mut r = Registry::new();
    r.insert("A".to_string(), report(1, false, 0));
    r.insert("B".to_string(), report(2, false, 0));
    r.insert("A".to_string(), report(9, true, 5));
    let snap = r.snapshot();
    assert_eq!(snap.len(), 2);
    assert_eq!(snap[0].id, "A");
    assert_eq!(snap[0].module.reading, 9);
    assert!(snap[0].module.drone);
    assert_eq!(snap[1].id, "B");
}

#[test]
fn empty_registry_evicts_to_empty() {
    let mut r: Registry<u64> = Registry::new();
    r.evict_stale(0);
    assert_eq!(r.len(), 0);
    assert!(r.snapshot().is_empty());
}

#[test]
fn module_freshness_predicate() {
    let m = report(1, true, 0);
    assert!(m.is_fresh(249 * MS));
    assert!(!m.is_fresh(250 * MS));
}
