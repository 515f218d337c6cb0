use maintenance_planner::executions::set_item_finished_response;
use maintenance_planner::{
    ActionPlanForm, SetItemFinishedRequest, Store, format_unix_timestamp, unix_now,
};

fn names(v: &[&str]) -> Option<Vec<String>> {
    Some(v.iter().map(|s| s.to_string()).collect())
}

#[test]
fn unset_timestamps_render_as_unknown() {
    assert_eq!(format_unix_timestamp(0), "Unknown");
    assert_eq!(format_unix_timestamp(-5), "Unknown");
}

#[test]
fn toggle_responses_mirror_the_timestamp() {
    assert!(set_item_finished_response(None).finished_display.is_none());
    assert!(set_item_finished_response(Some(1_000_000)).finished_display.is_some());
}

#[test]
fn the_clock_reads_a_nonnegative_time() {
    assert!(unix_now() >= 0);
}

#[test]
fn forms_and_requests_carry_plain_values() {
    let form = ActionPlanForm {
        name: "Car".to_string(),
        items: names(&["A"]),
    };
    assert_eq!(form.name, "Car");
    assert_eq!(form.items.unwrap().len(), 1);
    let request = SetItemFinishedRequest { finished: true };
    assert!(request.finished);
}

#[test]
fn the_plan_page_orders_executions_latest_first() {
    let mut store = Store::new();
    let plan_id = store.create_plan("Car".to_string(), names(&["A"])).unwrap();
    let e1 = store.create_execution(plan_id, 100).unwrap();
    let e2 = store.create_execution(plan_id, 300).unwrap();
    let e3 = store.create_execution(plan_id, 200).unwrap();
    let line = store.get_execution(e3, 0).unwrap().items[0].id;
    store.set_execution_item_finished(line, true, 350).unwrap();
    store.complete_execution(e3, 400).unwrap();
    let view = store.get_plan(plan_id).unwrap();
    assert_eq!(
        view.active_executions.iter().map(|r| r.id).collect::<Vec<_>>(),
        vec![e2, e1]
    );
    assert_eq!(view.finished_executions.len(), 1);
    assert_eq!(view.finished_executions[0].id, e3);
    assert_eq!(view.finished_executions[0].finished, 400);
    assert_eq!(view.active_execution_link, Some(e2));
    assert_eq!(
        view.items.iter().map(|it| it.name.as_str()).collect::<Vec<_>>(),
        vec!["A"]
    );
}

#[test]
fn the_executions_page_splits_and_orders_both_lists() {
    let mut store = Store::new();
    let car = store.create_plan("Car".to_string(), None).unwrap();
    let bike = store.create_plan("Bike".to_string(), None).unwrap();
    let open_old = store.create_execution(car, 100).unwrap();
    let open_new = store.create_execution(bike, 300).unwrap();
    let done_early = store.create_execution(car, 150).unwrap();
    let done_late = store.create_execution(bike, 160).unwrap();
    store.complete_execution(done_early, 500).unwrap();
    store.complete_execution(done_late, 900).unwrap();
    let (open, done) = store.list_executions();
    assert_eq!(
        open.iter().map(|r| r.id).collect::<Vec<_>>(),
        vec![open_new, open_old]
    );
    assert_eq!(open[0].action_plan_name, "Bike");
    assert_eq!(
        done.iter().map(|r| r.id).collect::<Vec<_>>(),
        vec![done_late, done_early]
    );
    assert_eq!(done[1].action_plan_name, "Car");
    assert_eq!(done[1].finished, 500);
}
