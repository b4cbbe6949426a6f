use diesel_d1::connection::{batch_outcome, execute_count_outcome, load_outcome};
use diesel_d1::statement::{render_statement, Fragment};
use diesel_d1::transaction_manager::{D1TransactionManager, TransactionStatus};
use diesel_d1::utils::AdapterError;

fn stmt(sql: &str) -> diesel_d1::statement::RenderedStatement {
    render_statement(&vec![Fragment::Raw(String::from(sql))]).unwrap()
}

#[test]
fn commit_without_begin_is_a_state_error() {
    let mut tm = D1TransactionManager::new();
    assert!(matches!(tm.commit_transaction(), Err(AdapterError::TransactionState)));
    assert!(!tm.is_in_transaction);
    assert_eq!(tm.status, TransactionStatus::Valid);
}

#[test]
fn begin_then_rollback_clears_flag_and_queue() {
    let mut tm = D1TransactionManager::new();
    tm.begin_transaction().unwrap();
    assert!(tm.is_in_transaction);
    tm.queue_statement(stmt("DELETE FROM t"));
    tm.rollback_transaction().unwrap();
    assert!(!tm.is_in_transaction);
    assert!(tm.queue.is_empty());
    assert_eq!(tm.status, TransactionStatus::Valid);
}

#[test]
fn commit_batches_queued_statements_in_order() {
    let mut tm = D1TransactionManager::new();
    tm.begin_transaction().unwrap();
    tm.queue_statement(stmt("INSERT INTO t VALUES (1)"));
    tm.queue_statement(stmt("INSERT INTO t VALUES (2)"));
    let batch = tm.commit_transaction().unwrap().expect("a nonempty queue is batched");
    assert_eq!(batch.len(), 2);
    assert_eq!(batch[0].sql, "INSERT INTO t VALUES (1)");
    assert_eq!(batch[1].sql, "INSERT INTO t VALUES (2)");
    assert!(tm.queue.is_empty());
    tm.finish_commit(None).unwrap();
    assert!(!tm.is_in_transaction);
    assert!(tm.queue.is_empty());
    assert_eq!(tm.status, TransactionStatus::Valid);
}

#[test]
fn commit_with_empty_queue_is_a_no_op_success() {
    let mut tm = D1TransactionManager::new();
    tm.begin_transaction().unwrap();
    let batch = tm.commit_transaction().unwrap();
    assert!(batch.is_none());
    assert!(!tm.is_in_transaction);
}

#[test]
fn failed_commit_batch_poisons_the_manager() {
    let mut tm = D1TransactionManager::new();
    tm.begin_transaction().unwrap();
    tm.queue_statement(stmt("INSERT INTO t VALUES (1)"));
    let _batch = tm.commit_transaction().unwrap().unwrap();
    let err = tm.finish_commit(Some(String::from("disk full"))).unwrap_err();
    match err {
        AdapterError::Host(e) => assert_eq!(e.message(), "disk full"),
        other => panic!("unexpected error {:?}", other),
    }
    assert!(!tm.is_in_transaction);
    assert_eq!(tm.status, TransactionStatus::InError);
}

#[test]
fn status_accessor_exposes_the_status_mutably() {
    let mut tm = D1TransactionManager::new();
    assert_eq!(*tm.transaction_manager_status_mut(), TransactionStatus::Valid);
    *tm.transaction_manager_status_mut() = TransactionStatus::InError;
    assert_eq!(tm.status, TransactionStatus::InError);
}

#[test]
fn host_errors_surface_with_message_only() {
    match batch_outcome(Some(String::from("boom"))) {
        Err(AdapterError::Host(e)) => {
            assert_eq!(e.message(), "boom");
            assert_eq!(e.details(), None);
            assert_eq!(e.hint(), None);
            assert_eq!(e.table_name(), None);
            assert_eq!(e.column_name(), None);
            assert_eq!(e.constraint_name(), None);
            assert_eq!(e.statement_position(), None);
        }
        other => panic!("unexpected outcome {:?}", other),
    }
    assert!(batch_outcome(None).is_ok());
}

#[test]
fn execute_outcome_reads_the_change_count() {
    assert_eq!(execute_count_outcome(None, 3).unwrap(), 3);
    assert!(matches!(
        execute_count_outcome(Some(String::from("nope")), 3),
        Err(AdapterError::Host(_))
    ));
}

#[test]
fn load_outcome_wraps_host_errors() {
    let r = load_outcome(Some(String::from("bad sql")), vec![]);
    assert!(matches!(r, Err(AdapterError::Host(_))));
}
