use hubless::registry::Registry;

fn keys(mut v: Vec<(u64, u64)>) -> Vec<(u64, u64)> {
    v.sort();
    v
}

#[test]
fn register_and_get() {
    let mut reg: Registry<u64> = Registry::new();
    reg.register(0, 1, 100);
    reg.register(1, 2, 200);
    assert_eq!(reg.get(0, 1), Some(&100));
    assert_eq!(reg.get(1, 2), Some(&200));
    assert_eq!(reg.get(0, 2), None);
    assert_eq!(reg.get(2, 1), None);
}

#[test]
fn register_replaces_existing_entry() {
    let mut reg: Registry<u64> = Registry::new();
    reg.register(3, 7, 100);
    reg.register(3, 7, 999);
    assert_eq!(reg.get(3, 7), Some(&999));
    // still exactly one entry for the pair: it is the only broadcast target
    // seen from any other connection
    assert_eq!(reg.targets_except(42), vec![(3, 7)]);
}

#[test]
fn unregister_removes_entry() {
    let mut reg: Registry<u64> = Registry::new();
    reg.register(0, 1, 100);
    reg.register(0, 2, 101);
    reg.unregister(0, 1);
    assert_eq!(reg.get(0, 1), None);
    assert_eq!(reg.get(0, 2), Some(&101));
}

#[test]
fn unregister_twice_is_a_noop() {
    let mut reg: Registry<u64> = Registry::new();
    reg.register(0, 1, 100);
    reg.register(1, 2, 200);
    reg.unregister(0, 1);
    reg.unregister(0, 1);
    assert_eq!(reg.get(0, 1), None);
    assert_eq!(reg.get(1, 2), Some(&200));
    assert_eq!(reg.targets_except(0), vec![(1, 2)]);
}

#[test]
fn unregister_absent_pair_is_a_noop() {
    let mut reg: Registry<u64> = Registry::new();
    reg.unregister(5, 5);
    assert_eq!(reg.get(5, 5), None);
    reg.register(5, 5, 1);
    reg.unregister(5, 6);
    assert_eq!(reg.get(5, 5), Some(&1));
}

#[test]
fn broadcast_targets_exclude_origin_connection() {
    // channels C1 = (A, 1), C2 = (B, 2), C3 = (B, 3)
    let a = 0;
    let b = 1;
    let mut reg: Registry<u64> = Registry::new();
    reg.register(a, 1, 100);
    reg.register(b, 2, 200);
    reg.register(b, 3, 300);
    // data from connection A reaches C2 and C3 but not C1
    assert_eq!(keys(reg.targets_except(a)), vec![(b, 2), (b, 3)]);
    // data from connection B reaches C1 only, never B's other channel
    assert_eq!(keys(reg.targets_except(b)), vec![(a, 1)]);
}

#[test]
fn close_connection_removes_all_its_channels() {
    let mut reg: Registry<u64> = Registry::new();
    reg.register(7, 1, 1);
    reg.register(7, 2, 2);
    reg.register(8, 3, 3);
    reg.close_connection(7);
    assert_eq!(reg.get(7, 1), None);
    assert_eq!(reg.get(7, 2), None);
    assert_eq!(reg.get(8, 3), Some(&3));
    assert_eq!(reg.targets_except(99), vec![(8, 3)]);
}

#[test]
fn close_connection_on_empty_registry_is_a_noop() {
    let mut reg: Registry<u64> = Registry::new();
    reg.close_connection(0);
    assert_eq!(reg.targets_except(1), vec![]);
}
