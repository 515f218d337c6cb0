use maintenance_planner::Store;

fn plan_with_items(store: &mut Store, name: &str, items: &[&str]) -> u128 {
    store
        .create_plan(
            name.to_string(),
            Some(items.iter().map(|s| s.to_string()).collect()),
        )
        .expect("create_plan")
}

#[test]
fn ensure_action_is_idempotent_and_id_stable() {
    let mut store = Store::new();
    let first = store.ensure_action(&"Check oil level".to_string()).unwrap();
    let second = store.ensure_action(&"Check oil level".to_string()).unwrap();
    assert_eq!(first, second);
    assert_eq!(store.actions.len(), 1);
    assert_eq!(store.actions[0].id, first);
    assert_eq!(store.actions[0].name, "Check oil level");
}

#[test]
fn ensure_action_is_case_sensitive() {
    let mut store = Store::new();
    let a = store.ensure_action(&"Oil Change".to_string()).unwrap();
    let b = store.ensure_action(&"oil change".to_string()).unwrap();
    assert_ne!(a, b);
    assert_eq!(store.actions.len(), 2);
}

#[test]
fn sweep_removes_only_unreferenced_actions() {
    let mut store = Store::new();
    let plan_id = plan_with_items(&mut store, "Car", &["A", "B"]);
    // orphan an action that no plan item references any more
    store
        .replace_items(plan_id, Some(vec!["A".to_string()]))
        .unwrap();
    assert_eq!(store.actions.len(), 2);
    let removed = store.sweep_unreferenced();
    assert_eq!(removed.len(), 1);
    assert_eq!(removed[0].name, "B");
    assert_eq!(store.actions.len(), 1);
    assert_eq!(store.actions[0].name, "A");
}

#[test]
fn sweep_keeps_actions_referenced_by_executions_alone() {
    let mut store = Store::new();
    let plan_id = plan_with_items(&mut store, "Car", &["A", "B"]);
    store.create_execution(plan_id, 100).unwrap();
    // the template drops B, but the running checklist still references it
    store
        .replace_items(plan_id, Some(vec!["A".to_string()]))
        .unwrap();
    let removed = store.sweep_unreferenced();
    assert!(removed.is_empty());
    assert_eq!(store.actions.len(), 2);
}

#[test]
fn sweep_on_empty_store_removes_nothing() {
    let mut store = Store::new();
    let removed = store.sweep_unreferenced();
    assert!(removed.is_empty());
    assert!(store.actions.is_empty());
}

#[test]
fn plans_share_actions_by_name() {
    let mut store = Store::new();
    plan_with_items(&mut store, "Car", &["X", "Y"]);
    plan_with_items(&mut store, "Bike", &["X"]);
    assert_eq!(store.actions.len(), 2);
}
