//! The status of a transaction as clients are told it.

use vstd::prelude::*;

verus! {

/// The status of a transaction as clients are told it.
#[derive(Copy, Clone, Debug, PartialEq, Eq, Structural)]
pub enum TxnStatus {
    Received,
    Rejected,
    AcceptedOnL2,
    AcceptedOnL1,
}

/// How the execution of a transaction ended, as clients are told it.
#[derive(Copy, Clone, Debug, PartialEq, Eq, Structural)]
pub enum TxnExecutionStatus {
    Succeeded,
    Reverted,
}

/// How final a transaction is, as clients are told it.
#[derive(Copy, Clone, Debug, PartialEq, Eq, Structural)]
pub enum TxnFinalityStatus {
    AcceptedOnL2,
    AcceptedOnL1,
}

/// How the execution of a transaction ended, as a receipt records it.
#[derive(Clone, Debug, PartialEq, Eq)]
pub enum ExecutionStatus {
    Succeeded,
    Reverted { reason: String },
}

impl From<&ExecutionStatus> for TxnExecutionStatus {
    fn from(value: &ExecutionStatus) -> (status: Self) {
        match value {
            ExecutionStatus::Succeeded => TxnExecutionStatus::Succeeded,
            ExecutionStatus::Reverted { .. } => TxnExecutionStatus::Reverted,
        }
    }
}

impl vstd::std_specs::convert::FromSpecImpl<&ExecutionStatus> for TxnExecutionStatus {
    open spec fn obeys_from_spec() -> bool {
        true
    }

    /// A revert is told without its reason.
    open spec fn from_spec(value: &ExecutionStatus) -> Self {
        match value {
            ExecutionStatus::Succeeded => TxnExecutionStatus::Succeeded,
            ExecutionStatus::Reverted { .. } => TxnExecutionStatus::Reverted,
        }
    }
}

impl TxnStatus {
    /// The name of the status on the wire.
    pub open spec fn name(self) -> Seq<char> {
        match self {
            TxnStatus::Received => "RECEIVED"@,
            TxnStatus::Rejected => "REJECTED"@,
            TxnStatus::AcceptedOnL2 => "ACCEPTED_ON_L2"@,
            TxnStatus::AcceptedOnL1 => "ACCEPTED_ON_L1"@,
        }
    }

    /// The status as it is written on the wire.
    pub fn serialize(&self) -> (name: &'static str)
        ensures
            name@ == self.name(),
    {
        match self {
            TxnStatus::Received => "RECEIVED",
            TxnStatus::Rejected => "REJECTED",
            TxnStatus::AcceptedOnL2 => "ACCEPTED_ON_L2",
            TxnStatus::AcceptedOnL1 => "ACCEPTED_ON_L1",
        }
    }
}

impl TxnExecutionStatus {
    /// The name of the status on the wire.
    pub open spec fn name(self) -> Seq<char> {
        match self {
            TxnExecutionStatus::Succeeded => "SUCCEEDED"@,
            TxnExecutionStatus::Reverted => "REVERTED"@,
        }
    }

    /// The status as it is written on the wire.
    pub fn serialize(&self) -> (name: &'static str)
        ensures
            name@ == self.name(),
    {
        match self {
            TxnExecutionStatus::Succeeded => "SUCCEEDED",
            TxnExecutionStatus::Reverted => "REVERTED",
        }
    }
}

impl TxnFinalityStatus {
    /// The name of the status on the wire.
    pub open spec fn name(self) -> Seq<char> {
        match self {
            TxnFinalityStatus::AcceptedOnL2 => "ACCEPTED_ON_L2"@,
            TxnFinalityStatus::AcceptedOnL1 => "ACCEPTED_ON_L1"@,
        }
    }

    /// The status as it is written on the wire.
    pub fn serialize(&self) -> (name: &'static str)
        ensures
            name@ == self.name(),
    {
        match self {
            TxnFinalityStatus::AcceptedOnL2 => "ACCEPTED_ON_L2",
            TxnFinalityStatus::AcceptedOnL1 => "ACCEPTED_ON_L1",
        }
    }
}

} // verus!
