use maintenance_planner::{Store, StoreError};

fn names(v: &[&str]) -> Option<Vec<String>> {
    Some(v.iter().map(|s| s.to_string()).collect())
}

fn item_id_by_name(store: &Store, execution_id: u128, name: &str) -> u128 {
    let view = store.get_execution(execution_id, 0).unwrap();
    view.items
        .iter()
        .find(|it| it.name == name)
        .expect("item by name")
        .id
}

fn checklist(store: &Store, execution_id: u128) -> Vec<(String, bool)> {
    store
        .get_execution(execution_id, 0)
        .unwrap()
        .items
        .into_iter()
        .map(|it| (it.name, it.is_finished))
        .collect()
}

#[test]
fn create_execution_copies_the_template_unchecked() {
    let mut store = Store::new();
    let plan_id = store
        .create_plan("Car".to_string(), names(&["A", "B"]))
        .unwrap();
    let execution_id = store.create_execution(plan_id, 100).unwrap();
    let view = store.get_execution(execution_id, 100).unwrap();
    assert_eq!(view.action_plan_id, plan_id);
    assert_eq!(view.started, 100);
    assert_eq!(view.finished, None);
    assert_eq!(
        checklist(&store, execution_id),
        vec![("A".to_string(), false), ("B".to_string(), false)]
    );
    assert_eq!(store.create_execution(999, 100), Err(StoreError::NotFound));
}

#[test]
fn a_deleted_plan_can_still_be_executed() {
    let mut store = Store::new();
    let plan_id = store.create_plan("Car".to_string(), names(&["A"])).unwrap();
    store.soft_delete_plan(plan_id, 50).unwrap();
    assert!(store.create_execution(plan_id, 100).is_ok());
}

#[test]
fn toggling_items_sets_and_clears_their_timestamp() {
    let mut store = Store::new();
    let plan_id = store.create_plan("Car".to_string(), names(&["A"])).unwrap();
    let execution_id = store.create_execution(plan_id, 100).unwrap();
    let item = item_id_by_name(&store, execution_id, "A");
    assert_eq!(
        store.set_execution_item_finished(item, true, 150),
        Ok(Some(150))
    );
    assert_eq!(checklist(&store, execution_id), vec![("A".to_string(), true)]);
    assert_eq!(store.set_execution_item_finished(item, false, 160), Ok(None));
    assert_eq!(checklist(&store, execution_id), vec![("A".to_string(), false)]);
    assert_eq!(
        store.set_execution_item_finished(424242, true, 150),
        Err(StoreError::NotFound)
    );
}

#[test]
fn complete_requires_every_item_checked() {
    let mut store = Store::new();
    let plan_id = store
        .create_plan("Car".to_string(), names(&["A", "B"]))
        .unwrap();
    let execution_id = store.create_execution(plan_id, 100).unwrap();
    let a = item_id_by_name(&store, execution_id, "A");
    let b = item_id_by_name(&store, execution_id, "B");
    store.set_execution_item_finished(a, true, 110).unwrap();
    assert_eq!(
        store.complete_execution(execution_id, 200),
        Err(StoreError::Conflict)
    );
    store.set_execution_item_finished(b, true, 120).unwrap();
    store.complete_execution(execution_id, 200).unwrap();
    let view = store.get_execution(execution_id, 200).unwrap();
    assert_eq!(view.finished, Some(200));
    assert_eq!(store.complete_execution(999, 200), Err(StoreError::NotFound));
}

#[test]
fn completing_an_already_completed_execution_is_a_silent_no_op() {
    let mut store = Store::new();
    let plan_id = store.create_plan("Car".to_string(), None).unwrap();
    let execution_id = store.create_execution(plan_id, 100).unwrap();
    store.complete_execution(execution_id, 200).unwrap();
    // a second completion succeeds and keeps the first timestamp
    store.complete_execution(execution_id, 999).unwrap();
    let view = store.get_execution(execution_id, 999).unwrap();
    assert_eq!(view.finished, Some(200));
}

#[test]
fn an_empty_checklist_can_be_completed() {
    let mut store = Store::new();
    let plan_id = store.create_plan("Car".to_string(), None).unwrap();
    let execution_id = store.create_execution(plan_id, 100).unwrap();
    assert!(store.complete_execution(execution_id, 200).is_ok());
}

#[test]
fn reopen_works_inside_and_fails_outside_the_window() {
    let mut store = Store::new();
    let plan_id = store.create_plan("Car".to_string(), None).unwrap();
    let execution_id = store.create_execution(plan_id, 100).unwrap();
    store.complete_execution(execution_id, 1_000_000).unwrap();
    // one second short of 24 hours after completion: allowed
    store
        .reopen_execution(execution_id, 1_000_000 + 24 * 60 * 60 - 1)
        .unwrap();
    assert_eq!(store.get_execution(execution_id, 0).unwrap().finished, None);
    store.complete_execution(execution_id, 2_000_000).unwrap();
    // one second past 24 hours after completion: refused
    assert_eq!(
        store.reopen_execution(execution_id, 2_000_000 + 24 * 60 * 60 + 1),
        Err(StoreError::Conflict)
    );
}

#[test]
fn reopen_refuses_open_and_missing_executions() {
    let mut store = Store::new();
    let plan_id = store.create_plan("Car".to_string(), None).unwrap();
    let execution_id = store.create_execution(plan_id, 100).unwrap();
    assert_eq!(
        store.reopen_execution(execution_id, 200),
        Err(StoreError::Conflict)
    );
    assert_eq!(store.reopen_execution(999, 200), Err(StoreError::NotFound));
}

#[test]
fn delete_removes_open_executions_only() {
    let mut store = Store::new();
    let plan_id = store.create_plan("Car".to_string(), names(&["A"])).unwrap();
    let open_execution = store.create_execution(plan_id, 100).unwrap();
    store.delete_execution(open_execution).unwrap();
    assert_eq!(
        store.get_execution(open_execution, 0).err(),
        Some(StoreError::NotFound)
    );
    let done = store.create_execution(plan_id, 200).unwrap();
    let item = item_id_by_name(&store, done, "A");
    store.set_execution_item_finished(item, true, 210).unwrap();
    store.complete_execution(done, 250).unwrap();
    // once completed, deletion is refused, whatever happened before
    assert_eq!(store.delete_execution(done), Err(StoreError::Conflict));
    assert_eq!(store.delete_execution(999), Err(StoreError::NotFound));
}

#[test]
fn view_flags_follow_the_state_machine() {
    let mut store = Store::new();
    let plan_id = store.create_plan("Car".to_string(), names(&["A"])).unwrap();
    let execution_id = store.create_execution(plan_id, 100).unwrap();
    let view = store.get_execution(execution_id, 100).unwrap();
    assert!(!view.is_completed && !view.can_reopen && !view.can_complete);
    let item = item_id_by_name(&store, execution_id, "A");
    store.set_execution_item_finished(item, true, 110).unwrap();
    let view = store.get_execution(execution_id, 110).unwrap();
    assert!(view.can_complete);
    store.complete_execution(execution_id, 200).unwrap();
    let inside = store.get_execution(execution_id, 200 + 60).unwrap();
    assert!(inside.is_completed && inside.can_reopen);
    let outside = store
        .get_execution(execution_id, 200 + 24 * 60 * 60 + 1)
        .unwrap();
    assert!(outside.is_completed && !outside.can_reopen);
}

#[test]
fn reconciliation_carries_progress_over_by_name() {
    let mut store = Store::new();
    let plan_id = store
        .create_plan("Car".to_string(), names(&["A", "B", "C"]))
        .unwrap();
    let execution_id = store.create_execution(plan_id, 100).unwrap();
    let a = item_id_by_name(&store, execution_id, "A");
    let c = item_id_by_name(&store, execution_id, "C");
    store.set_execution_item_finished(a, true, 110).unwrap();
    store.set_execution_item_finished(c, true, 120).unwrap();
    store
        .edit_plan(
            plan_id,
            "Car".to_string(),
            names(&["B", "C", "D"]),
            Some(execution_id),
        )
        .unwrap();
    assert_eq!(
        checklist(&store, execution_id),
        vec![
            ("B".to_string(), false),
            ("C".to_string(), true),
            ("D".to_string(), false),
        ]
    );
    // the carried line keeps its original timestamp
    let view = store.get_execution(execution_id, 0).unwrap();
    assert_eq!(view.items[1].finished, Some(120));
}

#[test]
fn reconciliation_survives_pure_reordering() {
    let mut store = Store::new();
    let plan_id = store
        .create_plan("Car".to_string(), names(&["A", "B"]))
        .unwrap();
    let execution_id = store.create_execution(plan_id, 100).unwrap();
    let a = item_id_by_name(&store, execution_id, "A");
    store.set_execution_item_finished(a, true, 110).unwrap();
    store
        .edit_plan(
            plan_id,
            "Car".to_string(),
            names(&["B", "A"]),
            Some(execution_id),
        )
        .unwrap();
    assert_eq!(
        checklist(&store, execution_id),
        vec![("B".to_string(), false), ("A".to_string(), true)]
    );
}

#[test]
fn reconciliation_with_unknown_execution_is_not_found() {
    let mut store = Store::new();
    let plan_id = store.create_plan("Car".to_string(), names(&["A"])).unwrap();
    assert_eq!(
        store.edit_plan(plan_id, "Car".to_string(), names(&["A"]), Some(999)),
        Err(StoreError::NotFound)
    );
    // and nothing changed
    assert_eq!(
        store
            .get_plan(plan_id)
            .unwrap()
            .items
            .into_iter()
            .map(|it| it.name)
            .collect::<Vec<_>>(),
        vec!["A"]
    );
}

#[test]
fn items_can_be_toggled_while_completed() {
    let mut store = Store::new();
    let plan_id = store.create_plan("Car".to_string(), names(&["A"])).unwrap();
    let execution_id = store.create_execution(plan_id, 100).unwrap();
    let item = item_id_by_name(&store, execution_id, "A");
    store.set_execution_item_finished(item, true, 110).unwrap();
    store.complete_execution(execution_id, 200).unwrap();
    // no state restriction on toggling: unchecking works on a completed run
    store.set_execution_item_finished(item, false, 210).unwrap();
    assert_eq!(checklist(&store, execution_id), vec![("A".to_string(), false)]);
    let view = store.get_execution(execution_id, 210).unwrap();
    assert_eq!(view.finished, Some(200));
}
