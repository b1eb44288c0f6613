//! Operations, results and histories of a Jepsen test run.
//!
//! Times are nanoseconds since the Unix epoch; operation identifiers are
//! the 128-bit values of their UUIDs.

use vstd::prelude::*;
use crate::json::{Json, JsonValue};

verus! {

/// One step of a multi-key transaction.
#[derive(Debug, Clone)]
pub enum TransactionOp {
    /// Read a key.
    Read { key: String },
    /// Write a value to a key.
    Write { key: String, value: JsonValue },
}

/// An operation issued against the system under test.
#[derive(Debug, Clone)]
pub enum OperationType {
    /// Read a key.
    Read { key: String },
    /// Write a value to a key.
    Write { key: String, value: JsonValue },
    /// Compare-and-swap on a key.
    Cas { key: String, old: JsonValue, new: JsonValue },
    /// A multi-key transaction.
    Transaction { ops: Vec<TransactionOp> },
    /// Append a value to a list key.
    Append { key: String, value: JsonValue },
    /// Add an element to a set key.
    SetAdd { key: String, element: JsonValue },
    /// Add a delta to a counter key.
    Increment { key: String, delta: i64 },
}

/// The successful outcome of an operation.
#[derive(Debug, Clone)]
pub enum OperationResult {
    /// A read succeeded with the value found (if any).
    ReadOk { value: Option<JsonValue> },
    /// A write succeeded.
    WriteOk,
    /// A compare-and-swap completed; `success` tells whether it swapped.
    CasOk { success: bool },
    /// A transaction completed with one result per step.
    TransactionOk { results: Vec<Option<JsonValue>> },
    /// An append succeeded.
    AppendOk,
    /// A set addition succeeded.
    SetAddOk,
    /// An increment succeeded, giving the new value.
    IncrementOk { value: i64 },
}

/// One operation of a test history.
#[derive(Debug, Clone)]
pub struct Operation {
    /// Unique operation identifier.
    pub id: u128,
    /// The process (client) that issued it.
    pub process: usize,
    /// What was issued.
    pub op: OperationType,
    /// When it was invoked.
    pub invoke_time: u64,
    /// When it completed, if it did.
    pub complete_time: Option<u64>,
    /// Its result, if it succeeded.
    pub result: Option<OperationResult>,
    /// Its error message, if it failed.
    pub error: Option<String>,
}

/// Kinds of network partition.
#[derive(Debug, Clone, Copy, PartialEq, Eq, Structural)]
pub enum PartitionType {
    /// Majority/minority partition.
    MajorityMinority,
    /// One node isolated from all others.
    Complete,
    /// A random split.
    Random,
    /// A ring partition.
    Ring,
}

/// Kinds of injected fault.
#[derive(Debug, Clone, Copy, PartialEq, Eq, Structural)]
pub enum FaultType {
    /// A network partition.
    Partition(PartitionType),
    /// A node crash.
    Crash,
    /// A paused node.
    Pause,
    /// Clock skew.
    ClockSkew,
    /// Network delay.
    Delay,
}

/// A fault injected during a test.
#[derive(Debug, Clone)]
pub struct FaultEvent {
    /// What was injected.
    pub fault_type: FaultType,
    /// When it started.
    pub start_time: u64,
    /// When it ended, if it has.
    pub end_time: Option<u64>,
    /// The nodes it affected.
    pub affected_nodes: Vec<usize>,
}

/// Summary information about a history.
#[derive(Debug, Clone)]
pub struct HistoryMetadata {
    /// When the test started.
    pub start_time: u64,
    /// When the test ended.
    pub end_time: u64,
    /// Number of operations.
    pub total_ops: usize,
    /// Number of operations with a result.
    pub successful_ops: usize,
    /// Number of operations without a result.
    pub failed_ops: usize,
    /// Faults injected during the test.
    pub faults_injected: Vec<FaultEvent>,
}

/// The record of a test run.
#[derive(Debug, Clone)]
pub struct History {
    /// All operations, in the order they were recorded.
    pub operations: Vec<Operation>,
    /// Summary information.
    pub metadata: HistoryMetadata,
}

/// Consistency models a checker can validate.
#[derive(Debug, Clone, Copy, PartialEq, Eq, Structural)]
pub enum ConsistencyModel {
    /// Linearizability, the strongest single-object guarantee.
    Linearizable,
    /// Linearizability (alias).
    Linearizability,
    /// Sequential consistency.
    Sequential,
    /// Sequential consistency (alias).
    SequentialConsistency,
    /// Strict serializability.
    StrictSerializability,
    /// Serializability.
    Serializability,
    /// Eventual consistency.
    Eventual,
    /// Causal consistency.
    CausalConsistency,
}

/// Kinds of consistency violation.
#[derive(Debug, Clone, Copy, PartialEq, Eq, Structural)]
pub enum ViolationType {
    ReadAfterWrite,
    WriteAfterRead,
    ConcurrentWrites,
    StaleRead,
    LostUpdate,
    LinearizabilityViolation,
    StrictSerializabilityViolation,
    SerializabilityViolation,
}

/// A consistency violation found by a checker.
#[derive(Debug, Clone)]
pub struct Violation {
    /// What kind of violation.
    pub violation_type: ViolationType,
    /// The operations involved.
    pub operations: Vec<u128>,
    /// A human-readable description.
    pub description: String,
    /// Additional context.
    pub context: Vec<(String, JsonValue)>,
}

/// Bookkeeping of a check.
#[derive(Debug, Clone)]
pub struct CheckerMetadata {
    /// How long the check took, in nanoseconds (filled in by the caller
    /// that measures it).
    pub check_duration_nanos: u64,
    /// Number of operations the checker looked at.
    pub operations_analyzed: usize,
    /// Additional statistics.
    pub stats: Vec<(String, JsonValue)>,
}

/// The outcome of a check.
#[derive(Debug, Clone)]
pub struct CheckerResult {
    /// Whether the history satisfies the model.
    pub valid: bool,
    /// The model that was checked.
    pub model: ConsistencyModel,
    /// The violations found.
    pub violations: Vec<Violation>,
    /// Bookkeeping.
    pub metadata: CheckerMetadata,
}

/// The key a single-key operation acts on (transactions act on none).
pub open spec fn op_key(op: OperationType) -> Option<Seq<char>> {
    match op {
        OperationType::Read { key } => Some(key@),
        OperationType::Write { key, .. } => Some(key@),
        OperationType::Cas { key, .. } => Some(key@),
        OperationType::Append { key, .. } => Some(key@),
        OperationType::SetAdd { key, .. } => Some(key@),
        OperationType::Increment { key, .. } => Some(key@),
        OperationType::Transaction { .. } => None,
    }
}

/// The key of a transaction step.
pub open spec fn txn_op_key(op: TransactionOp) -> Seq<char> {
    match op {
        TransactionOp::Read { key } => key@,
        TransactionOp::Write { key, .. } => key@,
    }
}

impl OperationType {
    /// The key of a single-key operation; `None` for a transaction.
    pub fn key(&self) -> (r: Option<&String>)
        ensures
            match r {
                Some(k) => op_key(*self) == Some(k@),
                None => op_key(*self) is None,
            },
    {
        match self {
            OperationType::Read { key } => Some(key),
            OperationType::Write { key, .. } => Some(key),
            OperationType::Cas { key, .. } => Some(key),
            OperationType::Append { key, .. } => Some(key),
            OperationType::SetAdd { key, .. } => Some(key),
            OperationType::Increment { key, .. } => Some(key),
            OperationType::Transaction { .. } => None,
        }
    }
}

impl TransactionOp {
    /// The key this step touches.
    pub fn key(&self) -> (r: &String)
        ensures
            r@ == txn_op_key(*self),
    {
        match self {
            TransactionOp::Read { key } => key,
            TransactionOp::Write { key, .. } => key,
        }
    }
}

} // verus!
