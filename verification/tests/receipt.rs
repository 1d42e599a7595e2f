use chain_sync::receipt::{ExecutionStatus, TxnExecutionStatus, TxnFinalityStatus, TxnStatus};

#[test]
fn txn_status_received() {
    assert_eq!(TxnStatus::Received.serialize(), "RECEIVED");
}

#[test]
fn txn_status_rejected() {
    assert_eq!(TxnStatus::Rejected.serialize(), "REJECTED");
}

#[test]
fn txn_status_accepted_on_l2() {
    assert_eq!(TxnStatus::AcceptedOnL2.serialize(), "ACCEPTED_ON_L2");
}

#[test]
fn txn_status_accepted_on_l1() {
    assert_eq!(TxnStatus::AcceptedOnL1.serialize(), "ACCEPTED_ON_L1");
}

#[test]
fn txn_finality_status_accepted_on_l2() {
    assert_eq!(TxnFinalityStatus::AcceptedOnL2.serialize(), "ACCEPTED_ON_L2");
}

#[test]
fn txn_finality_status_accepted_on_l1() {
    assert_eq!(TxnFinalityStatus::AcceptedOnL1.serialize(), "ACCEPTED_ON_L1");
}

#[test]
fn txn_execution_status_succeeded() {
    assert_eq!(TxnExecutionStatus::Succeeded.serialize(), "SUCCEEDED");
}

#[test]
fn txn_execution_status_reverted() {
    assert_eq!(TxnExecutionStatus::Reverted.serialize(), "REVERTED");
}

#[test]
fn execution_status_is_told_without_the_reason() {
    assert_eq!(
        TxnExecutionStatus::from(&ExecutionStatus::Succeeded),
        TxnExecutionStatus::Succeeded
    );
    let reverted = ExecutionStatus::Reverted { reason: String::from("out of gas") };
    assert_eq!(TxnExecutionStatus::from(&reverted), TxnExecutionStatus::Reverted);
    let silent = ExecutionStatus::Reverted { reason: String::new() };
    assert_eq!(TxnExecutionStatus::from(&silent), TxnExecutionStatus::Reverted);
}
