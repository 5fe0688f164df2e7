use rcsync::operations::{OpRegistry, CANCELLED};

#[test]
fn cancel_while_queued_stops_the_operation_before_it_spawns() {
    let mut ops = OpRegistry::new();
    let name = "test-queued";
    let _op = ops.start_op(name).unwrap();
    assert!(ops.request_cancel(name), "an in-flight operation should accept a cancel");
    assert!(
        ops.check_cancelled(name).is_err(),
        "an operation cancelled while queued must refuse to start rclone"
    );
    assert_eq!(ops.check_cancelled(name).unwrap_err(), CANCELLED);
}

#[test]
fn a_finished_operation_does_not_leak_its_cancel_onto_the_next_one() {
    let mut ops = OpRegistry::new();
    let name = "test-stale";
    {
        let op = ops.start_op(name).unwrap();
        ops.request_cancel(name);
        ops.finish_op(op);
    }
    let _op = ops.start_op(name).unwrap();
    assert!(ops.check_cancelled(name).is_ok(), "a fresh operation must start clean");
}

#[test]
fn cancelling_an_idle_project_cannot_poison_its_next_run() {
    let mut ops = OpRegistry::new();
    let name = "test-idle";
    assert!(!ops.request_cancel(name), "nothing was running to cancel");
    let _op = ops.start_op(name).unwrap();
    assert!(
        ops.check_cancelled(name).is_ok(),
        "a cancel for an idle project must not block the run that follows it"
    );
}

#[test]
fn a_second_operation_on_the_same_project_is_refused() {
    let mut ops = OpRegistry::new();
    let name = "test-double";
    let _op = ops.start_op(name).unwrap();
    assert!(
        ops.start_op(name).is_err(),
        "two rclone runs over the same directory pair must never overlap"
    );
    assert_eq!(
        ops.start_op(name).err().unwrap(),
        "An operation is already running for 'test-double'"
    );
}

#[test]
fn a_cancel_reaches_a_started_child() {
    let mut ops = OpRegistry::new();
    let op = ops.start_op("p").unwrap();
    assert!(!ops.child_started("p"), "no cancel was pending at spawn");
    assert!(ops.is_running("p"));
    assert!(ops.request_cancel("p"));
    ops.child_exited("p");
    assert!(!ops.is_running("p"));
    ops.finish_op(op);
    assert!(!ops.is_active("p"));
}

#[test]
fn a_cancel_that_lands_before_the_child_starts_stops_it_at_once() {
    let mut ops = OpRegistry::new();
    let op = ops.start_op("p").unwrap();
    assert!(ops.request_cancel("p"));
    assert!(ops.child_started("p"), "the runner must stop a child started after a cancel");
    ops.child_exited("p");
    assert!(!ops.is_running("p"));
    assert_eq!(ops.check_cancelled("p").unwrap_err(), CANCELLED);
    ops.finish_op(op);
    assert!(!ops.is_active("p"));
}

#[test]
fn a_running_child_is_reported_to_the_cancel() {
    let mut ops = OpRegistry::new();
    let op = ops.start_op("p").unwrap();
    assert!(!ops.child_started("p"));
    assert!(ops.is_running("p"));
    assert!(ops.request_cancel("p"), "a cancel reaches a running child");
    assert!(ops.check_cancelled("p").is_err());
    ops.finish_op(op);
    assert!(!ops.is_running("p") && !ops.is_active("p"));
    assert!(ops.check_cancelled("p").is_ok());
}
