//! Running a Jepsen test, less the clients, the clock and the tasks: what
//! each client issues, how an outcome is recorded, what a history's
//! summary counts, and how the results of a test suite are collected.

use vstd::prelude::*;
use crate::text::{decimal, push_decimal, decimal_string};
use crate::types::{RTDBError, error_message};
use crate::random::{random_u64_in};
use rand::rngs::StdRng;
use crate::jepsen::model::{Operation, OperationType, OperationResult, History, HistoryMetadata};
use crate::jepsen::analyzer::{JepsenOperation, TimedOperationResult, HistoryAnalyzer, stable_by_start};

verus! {

/// The key client `i` reads.
pub open spec fn client_key(i: nat) -> Seq<char> {
    "key-"@ + decimal(i)
}

/// The operation client `i` issues: a read of its own key.
pub fn client_read(i: usize) -> (r: OperationType)
    ensures
        r matches OperationType::Read { key } && key@ == client_key(i as nat),
{
    let mut key = "key-".to_owned();
    push_decimal(&mut key, i as u64);
    OperationType::Read { key }
}

/// The record of an operation from its outcome: the result when it
/// succeeded, the error's message when it failed.
pub fn record_operation(
    id: u128,
    process: usize,
    op: OperationType,
    invoke_time: u64,
    complete_time: u64,
    outcome: Result<OperationResult, RTDBError>,
) -> (r: Operation)
    ensures
        r.id == id,
        r.process == process,
        r.op == op,
        r.invoke_time == invoke_time,
        r.complete_time == Some(complete_time),
        match outcome {
            Ok(x) => r.result == Some(x) && r.error is None,
            Err(e) => r.result is None && (r.error matches Some(m) && m@ == error_message(e)),
        },
{
    let (result, error) = match outcome {
        Ok(x) => (Some(x), None),
        Err(e) => (None, Some(e.message())),
    };
    Operation { id, process, op, invoke_time, complete_time: Some(complete_time), result, error }
}

/// Whether an operation succeeded.
pub open spec fn succeeded() -> spec_fn(Operation) -> bool {
    |op: Operation| op.result is Some
}

/// The history of a run: the operations as collected, with a summary of
/// how many there are and how many succeeded and failed.
pub fn assemble_history(operations: Vec<Operation>, start_time: u64, end_time: u64) -> (r: History)
    ensures
        r.operations@ == operations@,
        r.metadata.start_time == start_time,
        r.metadata.end_time == end_time,
        r.metadata.total_ops == operations@.len(),
        r.metadata.successful_ops == operations@.filter(succeeded()).len(),
        r.metadata.failed_ops == operations@.len() - operations@.filter(succeeded()).len(),
        r.metadata.faults_injected@.len() == 0,
{
    let mut successful: usize = 0;
    let mut i: usize = 0;
    assert(operations@.take(0).filter(succeeded()) =~= Seq::<Operation>::empty()) by {
        reveal(Seq::filter);
    }
    while i < operations.len()
        invariant
            i <= operations.len(),
            successful == operations@.take(i as int).filter(succeeded()).len(),
            successful <= i,
        decreases operations.len() - i,
    {
        assert(operations@.take(i + 1) =~= operations@.take(i as int).push(operations@[i as int]));
        proof {
            operations@.take(i as int).lemma_filter_push(operations@[i as int], succeeded());
        }
        if operations[i].result.is_some() {
            successful += 1;
        }
        i += 1;
    }
    assert(operations@.take(operations.len() as int) =~= operations@);
    let total = operations.len();
    History {
        operations,
        metadata: HistoryMetadata {
            start_time,
            end_time,
            total_ops: total,
            successful_ops: successful,
            failed_ops: total - successful,
            faults_injected: Vec::new(),
        },
    }
}

/// What one operation of a client came to: its identifier, when it was
/// invoked and completed, and what the client answered.
pub struct ClientOutcome {
    pub id: u128,
    pub invoke_time: u64,
    pub complete_time: u64,
    pub outcome: Result<OperationResult, RTDBError>,
}

/// `op` is the record of client `process`'s outcome `o`: a read of the
/// client's key, with the outcome's identifier and times, and its result
/// or its error's message.
pub open spec fn outcome_recorded(op: Operation, process: int, o: ClientOutcome) -> bool {
    &&& op.id == o.id
    &&& op.process == process
    &&& op.op matches OperationType::Read { key } && key@ == client_key(process as nat)
    &&& op.invoke_time == o.invoke_time
    &&& op.complete_time == Some(o.complete_time)
    &&& match o.outcome {
        Ok(x) => op.result == Some(x) && op.error is None,
        Err(e) => op.result is None && (op.error matches Some(m) && m@ == error_message(e)),
    }
}

/// The number of outcomes of the first `i` clients.
pub open spec fn outcomes_before(outcomes: Seq<Vec<ClientOutcome>>, i: int) -> int
    decreases i,
{
    if i <= 0 { 0 } else { outcomes_before(outcomes, i - 1) + outcomes[i - 1]@.len() }
}

/// The history of a run from each client's outcomes (client `i` read
/// `key-i`): the records of client 0's outcomes in order, then client 1's,
/// and so on, with the summary of how many there are and how many
/// succeeded and failed.
pub fn gather_history(outcomes: Vec<Vec<ClientOutcome>>, start_time: u64, end_time: u64) -> (r: History)
    ensures
        r.operations@.len() == outcomes_before(outcomes@, outcomes@.len() as int),
        forall|i: int, j: int| 0 <= i < outcomes@.len() && 0 <= j < outcomes@[i]@.len() ==>
            outcome_recorded(#[trigger] r.operations@[outcomes_before(outcomes@, i) + j], i, outcomes@[i]@[j]),
        forall|k: int| 0 <= k < r.operations@.len() ==> (#[trigger] r.operations@[k]).process < outcomes@.len(),
        forall|j: int, k: int| 0 <= j <= k < r.operations@.len() ==>
            (#[trigger] r.operations@[j]).process <= (#[trigger] r.operations@[k]).process,
        r.metadata.start_time == start_time,
        r.metadata.end_time == end_time,
        r.metadata.total_ops == r.operations@.len(),
        r.metadata.successful_ops == r.operations@.filter(succeeded()).len(),
        r.metadata.failed_ops == r.operations@.len() - r.operations@.filter(succeeded()).len(),
        r.metadata.faults_injected@.len() == 0,
{
    let ghost ov = outcomes@;
    let n = outcomes.len();
    let mut rest = outcomes;
    let mut operations: Vec<Operation> = Vec::new();
    let mut i: usize = 0;
    while i < n
        invariant
            i <= n,
            n == ov.len(),
            rest@ == ov.skip(i as int),
            operations@.len() == outcomes_before(ov, i as int),
            forall|a: int, b: int| 0 <= a < i && 0 <= b < ov[a]@.len() ==>
                outcome_recorded(#[trigger] operations@[outcomes_before(ov, a) + b], a, ov[a]@[b]),
            forall|k: int| 0 <= k < operations@.len() ==> (#[trigger] operations@[k]).process < i,
            forall|j: int, k: int| 0 <= j <= k < operations@.len() ==>
                (#[trigger] operations@[j]).process <= (#[trigger] operations@[k]).process,
            forall|a: int, b: int| 0 <= a <= b <= i ==> outcomes_before(ov, a) <= outcomes_before(ov, b),
        decreases n - i,
    {
        let mut ops = rest.remove(0);
        assert(ops@ == ov[i as int]@);
        assert(rest@ =~= ov.skip(i + 1));
        let ghost base = operations@.len() as int;
        assert(outcomes_before(ov, 0) <= outcomes_before(ov, i as int));
        let ghost cv = ops@;
        let m = ops.len();
        let mut j: usize = 0;
        while j < m
            invariant
                j <= m,
                m == cv.len(),
                cv == ov[i as int]@,
                i < n,
                n == ov.len(),
                ops@ == cv.skip(j as int),
                base == outcomes_before(ov, i as int),
                base >= 0,
                operations@.len() == base + j,
                forall|a: int, b: int| 0 <= a < i && 0 <= b < ov[a]@.len() ==>
                    outcome_recorded(#[trigger] operations@[outcomes_before(ov, a) + b], a, ov[a]@[b]),
                forall|b: int| 0 <= b < j ==> outcome_recorded(#[trigger] operations@[base + b], i as int, cv[b]),
                forall|k: int| 0 <= k < operations@.len() ==> (#[trigger] operations@[k]).process <= i,
                forall|k: int| base <= k < operations@.len() ==> (#[trigger] operations@[k]).process == i,
                forall|j2: int, k: int| 0 <= j2 <= k < operations@.len() ==>
                    (#[trigger] operations@[j2]).process <= (#[trigger] operations@[k]).process,
                forall|a: int, b: int| 0 <= a <= b <= i ==> outcomes_before(ov, a) <= outcomes_before(ov, b),
            decreases m - j,
        {
            let o = ops.remove(0);
            assert(o == cv[j as int]);
            assert(ops@ =~= cv.skip(j + 1));
            let op = client_read(i);
            let rec = record_operation(o.id, i, op, o.invoke_time, o.complete_time, o.outcome);
            let ghost before = operations@;
            let ghost recv = rec;
            operations.push(rec);
            proof {
                assert(operations@ =~= before.push(recv));
                assert(before.len() == base + j);
                assert forall|a: int, b: int| 0 <= a < i && 0 <= b < ov[a]@.len() implies
                    outcome_recorded(#[trigger] operations@[outcomes_before(ov, a) + b], a, ov[a]@[b]) by {
                    assert(outcomes_before(ov, a + 1) <= outcomes_before(ov, i as int));
                    assert(outcomes_before(ov, a) + b < base);
                    assert(outcomes_before(ov, 0) <= outcomes_before(ov, a));
                    assert(before.push(recv)[outcomes_before(ov, a) + b] == before[outcomes_before(ov, a) + b]);
                }
                assert forall|b: int| 0 <= b < j + 1 implies outcome_recorded(#[trigger] operations@[base + b], i as int, cv[b]) by {
                    if b < j {
                        assert(before.push(recv)[base + b] == before[base + b]);
                    }
                }
            }
            j += 1;
        }
        proof {
            assert(outcomes_before(ov, i + 1) == base + cv.len());
            assert forall|a: int, b: int| 0 <= a < i + 1 && 0 <= b < ov[a]@.len() implies
                outcome_recorded(#[trigger] operations@[outcomes_before(ov, a) + b], a, ov[a]@[b]) by {
                if a == i {
                    assert(operations@[base + b] == operations@[outcomes_before(ov, a) + b]);
                }
            }
            assert forall|a: int, b: int| 0 <= a <= b <= i + 1 implies outcomes_before(ov, a) <= outcomes_before(ov, b) by {
                if b == i + 1 && a <= i {
                    assert(outcomes_before(ov, a) <= outcomes_before(ov, i as int));
                }
            }
        }
        i += 1;
    }
    assemble_history(operations, start_time, end_time)
}

/// The number of pooled clients a suite opens: two per worker.
pub fn pool_size(client_count: usize) -> (r: usize)
    requires
        client_count * 2 <= usize::MAX,
    ensures
        r == client_count * 2,
{
    client_count * 2
}

/// The vector an operation of a suite works on: the client's block of a
/// thousand, and the operation's number modulo a hundred within it.
pub open spec fn suite_vector_id(operation_id: u64, client_id: usize) -> int {
    client_id * 1000 + operation_id % 100
}

/// The operation of kind `kind` (0 read, 1 write, 2 search, 3 delete,
/// 4 compare-and-swap) a suite's client issues as its operation number
/// `operation_id`. Writes store `first`; searches look for `first`, ten
/// results at most; compare-and-swaps expect `first` and store `second`.
pub fn suite_operation(kind: u64, operation_id: u64, client_id: usize, first: Vec<u32>, second: Vec<u32>) -> (r: JepsenOperation)
    requires
        kind < 5,
        client_id * 1000 + 99 <= u64::MAX,
    ensures
        match r {
            JepsenOperation::Read { id, vector_id } => kind == 0 && id == operation_id
                && vector_id@ == decimal(suite_vector_id(operation_id, client_id) as nat),
            JepsenOperation::Write { id, vector_id, vector } => kind == 1 && id == operation_id
                && vector_id@ == decimal(suite_vector_id(operation_id, client_id) as nat) && vector@ == first@,
            JepsenOperation::Search { id, query, limit } => kind == 2 && id == operation_id && query@ == first@ && limit == 10,
            JepsenOperation::Delete { id, vector_id } => kind == 3 && id == operation_id
                && vector_id@ == decimal(suite_vector_id(operation_id, client_id) as nat),
            JepsenOperation::CompareAndSwap { id, vector_id, expected, new } => kind == 4 && id == operation_id
                && vector_id@ == decimal(suite_vector_id(operation_id, client_id) as nat)
                && expected@ == first@ && new@ == second@,
        },
{
    let numeric_id = (client_id as u64) * 1000 + operation_id % 100;
    let vector_id = decimal_string(numeric_id);
    if kind == 0 {
        JepsenOperation::Read { id: operation_id, vector_id }
    } else if kind == 1 {
        JepsenOperation::Write { id: operation_id, vector_id, vector: first }
    } else if kind == 2 {
        JepsenOperation::Search { id: operation_id, query: first, limit: 10 }
    } else if kind == 3 {
        JepsenOperation::Delete { id: operation_id, vector_id }
    } else {
        JepsenOperation::CompareAndSwap { id: operation_id, vector_id, expected: first, new: second }
    }
}

/// A random operation of a suite's client, its kind drawn uniformly from
/// the five; `first` and `second` are the vectors it may carry.
pub fn generate_random_operation(
    rng: &mut StdRng,
    operation_id: u64,
    client_id: usize,
    first: Vec<u32>,
    second: Vec<u32>,
) -> (r: JepsenOperation)
    requires
        client_id * 1000 + 99 <= u64::MAX,
    ensures
        match r {
            JepsenOperation::Read { id, vector_id } => id == operation_id
                && vector_id@ == decimal(suite_vector_id(operation_id, client_id) as nat),
            JepsenOperation::Write { id, vector_id, vector } => id == operation_id
                && vector_id@ == decimal(suite_vector_id(operation_id, client_id) as nat) && vector@ == first@,
            JepsenOperation::Search { id, query, limit } => id == operation_id && query@ == first@ && limit == 10,
            JepsenOperation::Delete { id, vector_id } => id == operation_id
                && vector_id@ == decimal(suite_vector_id(operation_id, client_id) as nat),
            JepsenOperation::CompareAndSwap { id, vector_id, expected, new } => id == operation_id
                && vector_id@ == decimal(suite_vector_id(operation_id, client_id) as nat)
                && expected@ == first@ && new@ == second@,
        },
{
    let kind = random_u64_in(rng, 0, 4);
    suite_operation(kind, operation_id, client_id, first, second)
}

/// What happens while a suite's results come in.
#[derive(Debug)]
pub enum CollectorEvent {
    /// A client reported an operation's result.
    Received(TimedOperationResult),
    /// A wait passed without a result; whether every client has finished.
    Tick { all_clients_finished: bool },
}

/// What the collection does next.
#[derive(Debug, Clone, Copy, PartialEq, Eq, Structural)]
pub enum CollectorAction {
    Continue,
    Stop,
}

/// The collection of a suite's results into its history analyzer.
pub struct ResultCollector {
    pub analyzer: HistoryAnalyzer,
    pub operations_collected: usize,
}

impl ResultCollector {
    /// A collection into `analyzer`, nothing collected yet.
    pub fn new(analyzer: HistoryAnalyzer) -> (r: Self)
        ensures
            r.analyzer == analyzer,
            r.operations_collected == 0,
    {
        ResultCollector { analyzer, operations_collected: 0 }
    }

    /// Takes one event: a result goes to the analyzer and is counted; a
    /// wait ends the collection once every client has finished.
    pub fn step(&mut self, event: CollectorEvent) -> (r: CollectorAction)
        requires
            old(self).operations_collected < usize::MAX,
        ensures
            match event {
                CollectorEvent::Received(result) => {
                    &&& r == CollectorAction::Continue
                    &&& final(self).operations_collected == old(self).operations_collected + 1
                    &&& final(self).analyzer.model() == old(self).analyzer.model()
                    &&& final(self).analyzer.simdx() == old(self).analyzer.simdx()
                    &&& final(self).analyzer.history() == (if old(self).analyzer.simdx()
                        && (old(self).analyzer.history().len() + 1) % 64 == 0 {
                        stable_by_start(old(self).analyzer.history().push(result))
                    } else {
                        old(self).analyzer.history().push(result)
                    })
                },
                CollectorEvent::Tick { all_clients_finished } => {
                    &&& r == (if all_clients_finished { CollectorAction::Stop } else { CollectorAction::Continue })
                    &&& *final(self) == *old(self)
                },
            },
    {
        match event {
            CollectorEvent::Received(result) => {
                self.analyzer.add_operation(result);
                self.operations_collected = self.operations_collected + 1;
                CollectorAction::Continue
            },
            CollectorEvent::Tick { all_clients_finished } => {
                if all_clients_finished {
                    CollectorAction::Stop
                } else {
                    CollectorAction::Continue
                }
            },
        }
    }
}

} // verus!
