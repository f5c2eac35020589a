use cursor_optimizer::json::Value;
use cursor_optimizer::operations::{classify_action, operation_title, OperationAccess, OperationCoordinator};

#[test]
fn classifies_database_actions() {
    assert!(matches!(classify_action("overview"), OperationAccess::Read));
    assert!(matches!(classify_action("lightCleanRun"), OperationAccess::Write));
    assert!(matches!(classify_action("windowState"), OperationAccess::Neutral));
}

#[test]
fn blocks_write_while_read_is_active() {
    let mut coordinator = OperationCoordinator::new("/tmp/read-active.json".to_string(), false);
    let read_ticket = match coordinator.begin(1, "overview", 0) {
        Ok(ticket) => ticket,
        Err(message) => {
            assert!(message.is_empty());
            return;
        }
    };
    assert!(coordinator.begin(2, "toolVacuum", 0).is_err());
    read_ticket.finish(&mut coordinator, true);
    assert!(coordinator.begin(3, "toolVacuum", 0).is_ok());
}

fn recovery_pending(coordinator: &OperationCoordinator) -> Option<bool> {
    coordinator.status_value(Value::Null, 0).get("recoveryPending").and_then(Value::as_boolean)
}

#[test]
fn write_blocks_reads_and_close_until_finished() {
    let mut coordinator = OperationCoordinator::new("/tmp/write-active.json".to_string(), false);
    let write_ticket = match coordinator.begin(1, "toolVacuum", 0) {
        Ok(ticket) => ticket,
        Err(message) => {
            assert!(message.is_empty());
            return;
        }
    };
    assert!(coordinator.has_running_write());
    assert_eq!(recovery_pending(&coordinator), Some(true));
    assert!(coordinator.begin(2, "overview", 0).is_err());
    let remove_journal = write_ticket.finish(&mut coordinator, true);
    assert!(!coordinator.has_running_write());
    assert!(remove_journal);
    assert_eq!(recovery_pending(&coordinator), Some(false));
}

#[test]
fn an_interrupted_write_allows_only_recovery() {
    let mut coordinator = OperationCoordinator::new("/tmp/j.json".to_string(), true);
    assert_eq!(
        coordinator.begin(1, "overview", 0).err(),
        Some("A previous task was interrupted and needs recovery.".to_string())
    );
    assert!(coordinator.begin(2, "initialize", 0).is_ok());
    let ticket = coordinator.begin(3, "recoverOperations", 0).ok().unwrap();
    assert!(!ticket.finish(&mut coordinator, false));
    assert_eq!(recovery_pending(&coordinator), Some(false));
}

#[test]
fn a_failed_write_leaves_recovery_pending() {
    let mut coordinator = OperationCoordinator::new("/tmp/k.json".to_string(), false);
    let ticket = coordinator.begin(7, "toolFlushDatabase", 0).ok().unwrap();
    assert!(!ticket.finish(&mut coordinator, false));
    assert_eq!(recovery_pending(&coordinator), Some(true));
}

#[test]
fn reads_run_side_by_side() {
    let mut coordinator = OperationCoordinator::new("/tmp/r.json".to_string(), false);
    let first = coordinator.begin(1, "overview", 0).ok().unwrap();
    let second = coordinator.begin(2, "quickSummary", 0).ok().unwrap();
    assert_eq!(
        coordinator.begin(3, "deepCleanRun", 0).err(),
        Some("Another task is running. Please wait for it to finish.".to_string())
    );
    first.finish(&mut coordinator, true);
    second.finish(&mut coordinator, true);
    assert!(coordinator.begin(4, "deepCleanRun", 0).is_ok());
}

#[test]
fn titles_name_the_running_task() {
    assert_eq!(operation_title("deepCleanRun"), "Deleting old conversations");
    assert_eq!(operation_title("somethingElse"), "Working");
}

#[test]
fn close_is_blocked_exactly_while_a_write_is_unfinished() {
    let close_blocked = |coordinator: &OperationCoordinator| {
        coordinator.status_value(Value::Null, 0).get("closeBlocked").and_then(Value::as_boolean)
    };
    let mut coordinator = OperationCoordinator::new("/tmp/history.json".to_string(), false);
    let read = coordinator.begin(1, "overview", 0).ok().unwrap();
    assert!(coordinator.begin(2, "toolVacuum", 0).is_err());
    assert_eq!(close_blocked(&coordinator), Some(false));
    read.finish(&mut coordinator, true);
    let write = coordinator.begin(3, "toolVacuum", 0).ok().unwrap();
    let neutral = coordinator.begin(4, "initialize", 0).ok().unwrap();
    assert!(coordinator.has_running_write());
    assert_eq!(close_blocked(&coordinator), Some(true));
    neutral.finish(&mut coordinator, true);
    assert!(coordinator.has_running_write());
    write.finish(&mut coordinator, false);
    assert!(!coordinator.has_running_write());
    assert_eq!(close_blocked(&coordinator), Some(false));
}
