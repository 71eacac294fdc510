use nexo_plugin_email::instance_registry::InstanceRegistry;

#[test]
fn register_then_lookup_finds_handle() {
    let mut reg: InstanceRegistry<u32> = InstanceRegistry::new();
    assert_eq!(reg.len(), 0);
    reg.register("a", 1);
    assert_eq!(reg.lookup("a"), Some(&1));
    assert_eq!(reg.lookup("b"), None);
    assert_eq!(reg.len(), 1);
}

#[test]
fn register_overwrites_prior_entry() {
    let mut reg = InstanceRegistry::new();
    reg.register("a", 1);
    reg.register("a", 2);
    assert_eq!(reg.len(), 1);
    assert_eq!(reg.lookup("a"), Some(&2));
}

#[test]
fn unregister_returns_prior_handle() {
    let mut reg = InstanceRegistry::new();
    reg.register("a", 1);
    reg.register("b", 2);
    assert_eq!(reg.unregister("a"), Some(1));
    assert_eq!(reg.unregister("a"), None);
    assert_eq!(reg.lookup("a"), None);
    assert_eq!(reg.lookup("b"), Some(&2));
    assert_eq!(reg.len(), 1);
}

#[test]
fn entries_lists_each_label_once() {
    let mut reg = InstanceRegistry::new();
    reg.register("x", 10);
    reg.register("y", 20);
    reg.register("x", 30);
    let mut pairs: Vec<(String, u32)> = reg.entries().into_iter().map(|(k, v)| (k, *v)).collect();
    pairs.sort();
    assert_eq!(pairs, vec![("x".to_string(), 30), ("y".to_string(), 20)]);
}

#[test]
fn clear_drops_everything() {
    let mut reg = InstanceRegistry::new();
    reg.register("x", 'a');
    reg.register("y", 'b');
    reg.clear();
    assert_eq!(reg.len(), 0);
    assert!(reg.entries().is_empty());
    assert_eq!(reg.lookup("x"), None);
}

#[test]
fn lookup_follows_last_operation_on_label() {
    let mut reg = InstanceRegistry::new();
    reg.register("a", 1);
    reg.register("b", 2);
    reg.unregister("a");
    assert_eq!(reg.lookup("a"), None);
    reg.register("a", 3);
    reg.register("c", 4);
    reg.unregister("c");
    assert_eq!(reg.lookup("a"), Some(&3));
    assert_eq!(reg.lookup("b"), Some(&2));
    reg.clear();
    reg.register("b", 5);
    assert_eq!(reg.lookup("a"), None);
    assert_eq!(reg.lookup("b"), Some(&5));
    assert_eq!(reg.lookup("c"), None);
}
