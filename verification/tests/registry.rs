use lfs_locks::registry::{Holding, LockRegistry};

fn holding(path: &str, owner: &str, id: u32) -> Holding {
    Holding { path: path.to_string(), owner: owner.to_string(), id }
}

fn s(text: &str) -> String {
    text.to_string()
}

#[test]
fn new_registry_is_empty() {
    let registry = LockRegistry::new();
    assert_eq!(registry.len(), 0);
    assert!(!registry.contains(&s("a")));
    assert_eq!(registry.get(&s("a")), None);
    assert!(!registry.holds_id(0));
}

#[test]
fn insert_records_owner_and_number() {
    let mut registry = LockRegistry::new();
    registry.insert(s("a.bin"), s("bob"), 7);
    assert_eq!(registry.len(), 1);
    assert!(registry.contains(&s("a.bin")));
    assert_eq!(registry.get(&s("a.bin")), Some((s("bob"), 7)));
    assert!(registry.holds_id(7));
    assert!(!registry.holds_id(8));
    assert!(!registry.contains(&s("A.bin")));
}

#[test]
fn insert_on_a_known_path_replaces() {
    let mut registry = LockRegistry::new();
    registry.insert(s("a.bin"), s("bob"), 7);
    registry.insert(s("b.bin"), s("eve"), 8);
    registry.insert(s("a.bin"), s("eve"), 9);
    assert_eq!(registry.len(), 2);
    assert_eq!(registry.get(&s("a.bin")), Some((s("eve"), 9)));
    assert_eq!(registry.get(&s("b.bin")), Some((s("eve"), 8)));
    assert!(!registry.holds_id(7));
}

#[test]
fn remove_id_forgets_every_lock_of_that_number() {
    let mut registry = LockRegistry::new();
    registry.insert(s("a.bin"), s("bob"), 7);
    registry.insert(s("b.bin"), s("eve"), 8);
    registry.insert(s("c.bin"), s("bob"), 7);
    registry.remove_id(7);
    assert_eq!(registry.len(), 1);
    assert!(!registry.contains(&s("a.bin")));
    assert!(!registry.contains(&s("c.bin")));
    assert_eq!(registry.get(&s("b.bin")), Some((s("eve"), 8)));
}

#[test]
fn remove_id_of_an_unknown_number_changes_nothing() {
    let mut registry = LockRegistry::new();
    registry.insert(s("a.bin"), s("bob"), 7);
    registry.remove_id(8);
    assert_eq!(registry.len(), 1);
    assert_eq!(registry.get(&s("a.bin")), Some((s("bob"), 7)));
}

#[test]
fn from_holdings_lets_the_last_of_a_path_count() {
    let registry = LockRegistry::from_holdings(&vec![
        holding("a.bin", "bob", 1),
        holding("b.bin", "eve", 2),
        holding("a.bin", "eve", 3),
    ]);
    assert_eq!(registry.len(), 2);
    assert_eq!(registry.get(&s("a.bin")), Some((s("eve"), 3)));
    assert_eq!(registry.get(&s("b.bin")), Some((s("eve"), 2)));
    assert_eq!(LockRegistry::from_holdings(&Vec::new()).len(), 0);
}

#[test]
fn insert_then_remove_leaves_the_path_as_before() {
    let mut registry = LockRegistry::new();
    registry.insert(s("other"), s("eve"), 2);
    assert!(!registry.contains(&s("a.bin")));
    registry.insert(s("a.bin"), s("bob"), 7);
    registry.remove_id(7);
    assert!(!registry.contains(&s("a.bin")));
    assert_eq!(registry.get(&s("other")), Some((s("eve"), 2)));
}

#[test]
fn holding_clone_is_equal() {
    let h = holding("a.bin", "bob", 7);
    assert_eq!(h.clone(), h);
}

#[test]
fn remove_forgets_the_path_only() {
    let mut registry = LockRegistry::new();
    registry.insert(s("a.bin"), s("bob"), 7);
    registry.insert(s("b.bin"), s("eve"), 7);
    registry.insert(s("c.bin"), s("eve"), 9);
    registry.remove(&s("b.bin"));
    assert_eq!(registry.len(), 2);
    assert!(!registry.contains(&s("b.bin")));
    assert_eq!(registry.get(&s("a.bin")), Some((s("bob"), 7)));
    assert_eq!(registry.get(&s("c.bin")), Some((s("eve"), 9)));
    registry.remove(&s("zzz"));
    assert_eq!(registry.len(), 2);
}

#[test]
fn entries_hold_each_path_once() {
    let mut registry = LockRegistry::new();
    registry.insert(s("a.bin"), s("bob"), 7);
    registry.insert(s("b.bin"), s("eve"), 8);
    registry.insert(s("a.bin"), s("eve"), 9);
    let mut entries = registry.entries();
    entries.sort_by(|x, y| x.path.cmp(&y.path));
    assert_eq!(entries, vec![holding("a.bin", "eve", 9), holding("b.bin", "eve", 8)]);
    assert_eq!(LockRegistry::new().entries(), Vec::<Holding>::new());
}
