use maintenance_planner::backup::{
    BackupActionPlan, BackupExecution, BackupExecutionItem, BackupFile, BackupPlanItem,
};
use maintenance_planner::{BackupNotice, Store, StoreError};

fn names(v: &[&str]) -> Option<Vec<String>> {
    Some(v.iter().map(|s| s.to_string()).collect())
}

fn populated_store() -> Store {
    let mut store = Store::new();
    let car = store
        .create_plan("Car".to_string(), names(&["Oil", "Tires"]))
        .unwrap();
    let bike = store
        .create_plan("Bike".to_string(), names(&["Chain"]))
        .unwrap();
    store.soft_delete_plan(bike, 77).unwrap();
    let run = store.create_execution(car, 100).unwrap();
    let view = store.get_execution(run, 0).unwrap();
    store
        .set_execution_item_finished(view.items[0].id, true, 150)
        .unwrap();
    store
}

#[test]
fn export_lists_plans_by_name_and_executions_latest_first() {
    let mut store = Store::new();
    let b = store.create_plan("Beta".to_string(), None).unwrap();
    let a = store.create_plan("Alpha".to_string(), None).unwrap();
    store.create_execution(a, 100).unwrap();
    store.create_execution(b, 300).unwrap();
    store.create_execution(a, 200).unwrap();
    let doc = store.export_snapshot(999).unwrap();
    assert_eq!(doc.version, 1);
    assert_eq!(doc.exported_at_unix, 999);
    let plan_names: Vec<&str> = doc.action_plans.iter().map(|p| p.name.as_str()).collect();
    assert_eq!(plan_names, vec!["Alpha", "Beta"]);
    let starts: Vec<i64> = doc
        .action_plan_executions
        .iter()
        .map(|e| e.started)
        .collect();
    assert_eq!(starts, vec![300, 200, 100]);
}

#[test]
fn export_import_round_trip_restores_the_document() {
    let store = populated_store();
    let doc = store.export_snapshot(5000).unwrap();
    // import into an unrelated, populated store
    let mut other = Store::new();
    other.create_plan("Junk".to_string(), names(&["X"])).unwrap();
    let (plans_restored, executions_restored) = other.import_snapshot(&doc).unwrap();
    assert_eq!(plans_restored, 2);
    assert_eq!(executions_restored, 1);
    // a second export yields the exported document again (same plan and
    // execution ids, same names, same order, same progress)
    let doc2 = other.export_snapshot(5000).unwrap();
    assert_eq!(doc, doc2);
    // actions were recreated on demand: one per distinct name
    assert_eq!(other.actions.len(), 3);
    let mut action_names: Vec<&str> = other.actions.iter().map(|a| a.name.as_str()).collect();
    action_names.sort();
    assert_eq!(action_names, vec!["Chain", "Oil", "Tires"]);
}

#[test]
fn import_keeps_item_progress_and_deletion_marks() {
    let store = populated_store();
    let doc = store.export_snapshot(5000).unwrap();
    let mut other = Store::new();
    other.import_snapshot(&doc).unwrap();
    let rows = other.list_plans(&maintenance_planner::ActionPlanListQuery {
        sort: None,
        deleted: Some(true),
    });
    let deleted: Vec<&str> = rows.iter().map(|r| r.name.as_str()).collect();
    assert_eq!(deleted, vec!["Bike"]);
    let run = doc.action_plan_executions[0].id;
    let view = other.get_execution(run, 0).unwrap();
    assert_eq!(view.items.len(), 2);
    assert_eq!(view.items[0].name, "Oil");
    assert_eq!(view.items[0].finished, Some(150));
    assert!(!view.items[1].is_finished);
}

#[test]
fn import_rejects_unsupported_versions_untouched() {
    let mut store = populated_store();
    let actions_before = store.actions.len();
    let doc = BackupFile {
        version: 2,
        exported_at_unix: 0,
        action_plans: vec![],
        action_plan_executions: vec![],
    };
    assert_eq!(store.import_snapshot(&doc), Err(StoreError::Validation));
    assert_eq!(store.actions.len(), actions_before);
    assert_eq!(store.plans.len(), 2);
}

#[test]
fn import_rejects_duplicate_plan_ids_before_any_change() {
    let mut store = populated_store();
    let plans_before = store.plans.len();
    let twin = BackupActionPlan {
        id: 7,
        name: "Twin".to_string(),
        deleted_at: None,
        items: vec![BackupPlanItem { order_index: 0, action_name: "A".to_string() }],
    };
    let twin_again = BackupActionPlan {
        id: 7,
        name: "Twin again".to_string(),
        deleted_at: None,
        items: vec![],
    };
    let doc = BackupFile {
        version: 1,
        exported_at_unix: 0,
        action_plans: vec![twin, twin_again],
        action_plan_executions: vec![],
    };
    assert_eq!(store.import_snapshot(&doc), Err(StoreError::Validation));
    assert_eq!(store.plans.len(), plans_before);
    assert!(store.get_plan(7).is_err());
}

#[test]
fn import_rejects_executions_of_unknown_plans() {
    let mut store = Store::new();
    let doc = BackupFile {
        version: 1,
        exported_at_unix: 0,
        action_plans: vec![],
        action_plan_executions: vec![BackupExecution {
            id: 1,
            action_plan: 2,
            started: 10,
            finished: None,
            items: vec![],
        }],
    };
    assert_eq!(store.import_snapshot(&doc), Err(StoreError::Validation));
}

#[test]
fn import_rejects_gapped_item_order() {
    let mut store = Store::new();
    let doc = BackupFile {
        version: 1,
        exported_at_unix: 0,
        action_plans: vec![BackupActionPlan {
            id: 1,
            name: "P".to_string(),
            deleted_at: None,
            items: vec![BackupPlanItem { order_index: 1, action_name: "A".to_string() }],
        }],
        action_plan_executions: vec![],
    };
    assert_eq!(store.import_snapshot(&doc), Err(StoreError::Validation));
}

#[test]
fn import_replaces_the_whole_store() {
    let mut store = populated_store();
    let doc = BackupFile {
        version: 1,
        exported_at_unix: 0,
        action_plans: vec![BackupActionPlan {
            id: 11,
            name: "Only".to_string(),
            deleted_at: Some(5),
            items: vec![
                BackupPlanItem { order_index: 0, action_name: "One".to_string() },
                BackupPlanItem { order_index: 1, action_name: "Two".to_string() },
            ],
        }],
        action_plan_executions: vec![BackupExecution {
            id: 12,
            action_plan: 11,
            started: 20,
            finished: Some(30),
            items: vec![BackupExecutionItem {
                order_index: 0,
                action_name: "One".to_string(),
                finished: Some(25),
            }],
        }],
    };
    store.import_snapshot(&doc).unwrap();
    assert_eq!(store.plans.len(), 1);
    assert_eq!(store.executions.len(), 1);
    assert_eq!(store.actions.len(), 2);
    let view = store.get_execution(12, 0).unwrap();
    assert_eq!(view.started, 20);
    assert_eq!(view.finished, Some(30));
    assert_eq!(view.items[0].finished, Some(25));
}

#[test]
fn backup_notices_carry_their_severity() {
    let ok = BackupNotice::success("done".to_string());
    assert!(!ok.is_error);
    assert_eq!(ok.message, "done");
    let bad = BackupNotice::error("broken".to_string());
    assert!(bad.is_error);
    assert_eq!(bad.message, "broken");
}
