use maintenance_planner::{
    ActionPlanListQuery, Store, StoreError, normalize_items,
};

fn names(v: &[&str]) -> Option<Vec<String>> {
    Some(v.iter().map(|s| s.to_string()).collect())
}

fn template_of(store: &Store, plan_id: u128) -> Vec<String> {
    store
        .get_plan(plan_id)
        .unwrap()
        .items
        .into_iter()
        .map(|it| it.name)
        .collect()
}

#[test]
fn normalize_trims_and_drops_empty_names() {
    let out = normalize_items(Some(vec![
        "  Check oil  ".to_string(),
        "".to_string(),
        "   ".to_string(),
        "Rotate tires".to_string(),
    ]));
    assert_eq!(out, vec!["Check oil".to_string(), "Rotate tires".to_string()]);
    assert!(normalize_items(None).is_empty());
}

#[test]
fn create_plan_records_template_in_order() {
    let mut store = Store::new();
    let plan_id = store
        .create_plan("Car".to_string(), names(&["A", "B", "C"]))
        .unwrap();
    assert_eq!(template_of(&store, plan_id), vec!["A", "B", "C"]);
    let view = store.get_plan(plan_id).unwrap();
    assert!(!view.is_deleted);
    assert_eq!(view.name, "Car");
}

#[test]
fn create_plan_accepts_empty_item_list() {
    let mut store = Store::new();
    let plan_id = store.create_plan("Empty".to_string(), None).unwrap();
    assert!(template_of(&store, plan_id).is_empty());
}

#[test]
fn replace_items_is_idempotent_on_the_template() {
    let mut store = Store::new();
    let plan_id = store
        .create_plan("Car".to_string(), names(&[" A ", "", "B"]))
        .unwrap();
    assert_eq!(template_of(&store, plan_id), vec!["A", "B"]);
    let actions_before = store.actions.len();
    store.replace_items(plan_id, names(&[" A ", "", "B"])).unwrap();
    assert_eq!(template_of(&store, plan_id), vec!["A", "B"]);
    assert_eq!(store.actions.len(), actions_before);
}

#[test]
fn replace_items_unknown_plan_is_not_found() {
    let mut store = Store::new();
    assert_eq!(
        store.replace_items(42, names(&["A"])),
        Err(StoreError::NotFound)
    );
}

#[test]
fn soft_delete_and_undelete_round_trip() {
    let mut store = Store::new();
    let plan_id = store.create_plan("Car".to_string(), None).unwrap();
    assert_eq!(store.undelete_plan(plan_id), Err(StoreError::Conflict));
    store.soft_delete_plan(plan_id, 50).unwrap();
    assert!(store.get_plan(plan_id).unwrap().is_deleted);
    assert_eq!(store.soft_delete_plan(plan_id, 60), Err(StoreError::Conflict));
    store.undelete_plan(plan_id).unwrap();
    assert!(!store.get_plan(plan_id).unwrap().is_deleted);
    assert_eq!(store.soft_delete_plan(9999, 50), Err(StoreError::NotFound));
    assert_eq!(store.undelete_plan(9999), Err(StoreError::NotFound));
}

#[test]
fn edit_plan_renames_and_rewrites_the_template() {
    let mut store = Store::new();
    let plan_id = store
        .create_plan("Car".to_string(), names(&["A", "B"]))
        .unwrap();
    store
        .edit_plan(plan_id, "Truck".to_string(), names(&["B", "C"]), None)
        .unwrap();
    let view = store.get_plan(plan_id).unwrap();
    assert_eq!(view.name, "Truck");
    assert_eq!(template_of(&store, plan_id), vec!["B", "C"]);
}

#[test]
fn edit_plan_refuses_deleted_or_missing_plans() {
    let mut store = Store::new();
    let plan_id = store.create_plan("Car".to_string(), None).unwrap();
    store.soft_delete_plan(plan_id, 50).unwrap();
    assert_eq!(
        store.edit_plan(plan_id, "X".to_string(), None, None),
        Err(StoreError::NotFound)
    );
    assert_eq!(
        store.edit_plan(777, "X".to_string(), None, None),
        Err(StoreError::NotFound)
    );
}

#[test]
fn list_plans_filters_by_deletion_state() {
    let mut store = Store::new();
    let keep = store.create_plan("Keep".to_string(), None).unwrap();
    let gone = store.create_plan("Gone".to_string(), None).unwrap();
    store.soft_delete_plan(gone, 50).unwrap();
    let active = store.list_plans(&ActionPlanListQuery { sort: None, deleted: None });
    assert_eq!(active.len(), 1);
    assert_eq!(active[0].id, keep);
    let deleted = store.list_plans(&ActionPlanListQuery { sort: None, deleted: Some(true) });
    assert_eq!(deleted.len(), 1);
    assert_eq!(deleted[0].id, gone);
}

#[test]
fn list_plans_sorts_by_name_case_insensitively() {
    let mut store = Store::new();
    store.create_plan("apple".to_string(), None).unwrap();
    store.create_plan("Banana".to_string(), None).unwrap();
    let rows = store.list_plans(&ActionPlanListQuery { sort: None, deleted: None });
    // byte order would put "Banana" first; the lowercased keys put "apple"
    // first
    assert_eq!(rows[0].name, "apple");
    assert_eq!(rows[1].name, "Banana");
}

#[test]
fn list_plans_sorts_by_last_execution() {
    let mut store = Store::new();
    let early = store.create_plan("Early".to_string(), None).unwrap();
    let late = store.create_plan("Late".to_string(), None).unwrap();
    let never = store.create_plan("Never".to_string(), None).unwrap();
    store.create_execution(early, 100).unwrap();
    store.create_execution(late, 200).unwrap();
    let desc = store.list_plans(&ActionPlanListQuery {
        sort: Some("last_execution_desc".to_string()),
        deleted: None,
    });
    assert_eq!(
        desc.iter().map(|r| r.id).collect::<Vec<_>>(),
        vec![late, early, never]
    );
    let asc = store.list_plans(&ActionPlanListQuery {
        sort: Some("last_execution_asc".to_string()),
        deleted: None,
    });
    assert_eq!(
        asc.iter().map(|r| r.id).collect::<Vec<_>>(),
        vec![never, early, late]
    );
}

#[test]
fn list_plans_reports_the_latest_open_execution() {
    let mut store = Store::new();
    let plan_id = store.create_plan("Car".to_string(), None).unwrap();
    let first = store.create_execution(plan_id, 100).unwrap();
    let second = store.create_execution(plan_id, 200).unwrap();
    let rows = store.list_plans(&ActionPlanListQuery { sort: None, deleted: None });
    assert_eq!(rows[0].active_execution_id, Some(second));
    assert_eq!(rows[0].last_execution_at, Some(200));
    assert_eq!(rows[0].last_finished_at, None);
    // completing the newer one leaves the older as the open link
    store.complete_execution(second, 300).unwrap();
    let rows = store.list_plans(&ActionPlanListQuery { sort: None, deleted: None });
    assert_eq!(rows[0].active_execution_id, Some(first));
    assert_eq!(rows[0].last_finished_at, Some(300));
}
