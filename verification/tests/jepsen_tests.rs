use rtdb::json::{json_eq, JsonNumber, JsonValue};
use rtdb::jepsen::analyzer::{HistoryAnalyzer, JepsenOperation, TimedOperationResult};
use rtdb::jepsen::history::{analyze_error_rates, analyze_latencies};
use rtdb::jepsen::model::{ConsistencyModel, History, HistoryMetadata, Operation, OperationResult, OperationType};
use rtdb::jepsen::runner::{
    assemble_history, client_read, pool_size, record_operation, suite_operation, CollectorAction, CollectorEvent,
    ResultCollector,
};
use rtdb::jepsen::store::UltraFastJepsenClient;
use rtdb::jepsen::direct::{DirectJepsenClient, HighThroughputWriteClient, OptimizedClientConfig};
use rtdb::jepsen::model::TransactionOp;
use rtdb::jepsen::workloads::BankWorkload;
use rand::rngs::StdRng;
use rand::SeedableRng;

fn seeded_rng(seed: u64) -> StdRng {
    StdRng::seed_from_u64(seed)
}
use rtdb::types::RTDBError;

fn num(n: u64) -> JsonValue {
    JsonValue::Number(JsonNumber::PosInt(n))
}

#[test]
fn test_ultra_fast_basic() {
    let mut client = UltraFastJepsenClient::new(0);
    client.write("key1".to_string(), num(42)).unwrap();
    let value = client.read("key1".to_string());
    assert!(json_eq(&value.unwrap(), &num(42)));
    assert!(client.read("nonexistent".to_string()).is_none());
}

#[test]
fn test_batch_writes() {
    let mut client = UltraFastJepsenClient::new(0);
    let batch_size = 10000;
    let batch: Vec<(String, JsonValue)> = (0..batch_size).map(|i| (format!("batch_key_{}", i), num(i as u64))).collect();
    client.write_batch(batch).unwrap();
    let value = client.read("batch_key_9999".to_string()).unwrap();
    assert!(json_eq(&value, &num(9999)));
}

fn write_op(invoke: u64, complete: u64) -> Operation {
    Operation {
        id: 1,
        process: 0,
        op: OperationType::Write { key: "x".to_string(), value: num(1) },
        invoke_time: invoke,
        complete_time: Some(complete),
        result: Some(OperationResult::WriteOk),
        error: None,
    }
}

#[test]
fn test_history_analysis() {
    let start: u64 = 1_700_000_000_000_000_000;
    let ten_ms: u64 = 10_000_000;
    let history = History {
        operations: vec![write_op(start, start + ten_ms)],
        metadata: HistoryMetadata {
            start_time: start,
            end_time: start + 1_000_000_000,
            total_ops: 1,
            successful_ops: 1,
            failed_ops: 0,
            faults_injected: Vec::new(),
        },
    };
    let latency = analyze_latencies(&history);
    assert_eq!(latency.count, 1);
    assert!(latency.min >= ten_ms);

    let rates = analyze_error_rates(&history);
    let write = rates.iter().find(|(name, _)| name == "write").expect("write rate");
    assert_eq!(write.1.successes, 1);
    assert_eq!(write.1.errors, 0);
}

#[test]
fn test_workload_generators() {
    let mut rng = seeded_rng(7);
    let bank = BankWorkload::new(5, 100);
    for _ in 0..5 {
        match bank.generate_operation(&mut rng) {
            OperationType::Read { .. } | OperationType::Transaction { .. } => {}
            _ => panic!("Bank workload should only generate reads and transactions"),
        }
    }
}

#[test]
fn client_reads_its_own_key() {
    match client_read(7) {
        OperationType::Read { key } => assert_eq!(key, "key-7"),
        _ => panic!("a client issues reads"),
    }
}

#[test]
fn recording_keeps_result_or_error_message() {
    let ok = record_operation(5, 2, client_read(2), 10, 20, Ok(OperationResult::WriteOk));
    assert!(ok.result.is_some());
    assert!(ok.error.is_none());
    assert_eq!(ok.complete_time, Some(20));
    let failed = record_operation(6, 2, client_read(2), 10, 20, Err(RTDBError::Network("down".to_string())));
    assert!(failed.result.is_none());
    assert_eq!(failed.error.as_deref(), Some("Network error: down"));
}

#[test]
fn history_summary_counts_successes_and_failures() {
    let mut failed = write_op(1, 2);
    failed.result = None;
    failed.error = Some("boom".to_string());
    let history = assemble_history(vec![write_op(1, 2), failed, write_op(3, 4)], 0, 9);
    assert_eq!(history.metadata.total_ops, 3);
    assert_eq!(history.metadata.successful_ops, 2);
    assert_eq!(history.metadata.failed_ops, 1);
    assert_eq!(history.metadata.start_time, 0);
    assert_eq!(history.metadata.end_time, 9);
}

#[test]
fn suite_operations_address_the_clients_vectors() {
    assert_eq!(pool_size(4), 8);
    match suite_operation(0, 1234, 3, Vec::new(), Vec::new()) {
        JepsenOperation::Read { id, vector_id } => {
            assert_eq!(id, 1234);
            assert_eq!(vector_id, "3034");
        }
        _ => panic!("kind 0 is a read"),
    }
    match suite_operation(2, 7, 1, vec![1, 2], Vec::new()) {
        JepsenOperation::Search { query, limit, .. } => {
            assert_eq!(query, vec![1, 2]);
            assert_eq!(limit, 10);
        }
        _ => panic!("kind 2 is a search"),
    }
    match suite_operation(4, 7, 1, vec![1], vec![2]) {
        JepsenOperation::CompareAndSwap { vector_id, expected, new, .. } => {
            assert_eq!(vector_id, "1007");
            assert_eq!(expected, vec![1]);
            assert_eq!(new, vec![2]);
        }
        _ => panic!("kind 4 is a compare-and-swap"),
    }
}

fn timed(id: u64, start: u64) -> TimedOperationResult {
    TimedOperationResult {
        operation: JepsenOperation::Read { id, vector_id: "1".to_string() },
        start_time: start,
        end_time: start + 1,
        success: true,
        error: None,
        result_data: None,
        node_id: "pooled_client_0".to_string(),
    }
}

#[test]
fn collector_counts_results_and_stops_when_clients_finish() {
    let mut collector = ResultCollector::new(HistoryAnalyzer::new(ConsistencyModel::Linearizable, false));
    assert_eq!(collector.step(CollectorEvent::Received(timed(1, 5))), CollectorAction::Continue);
    assert_eq!(collector.step(CollectorEvent::Received(timed(2, 3))), CollectorAction::Continue);
    assert_eq!(collector.step(CollectorEvent::Tick { all_clients_finished: false }), CollectorAction::Continue);
    assert_eq!(collector.operations_collected, 2);
    assert_eq!(collector.analyzer.operations().len(), 2);
    assert_eq!(collector.step(CollectorEvent::Tick { all_clients_finished: true }), CollectorAction::Stop);
}

fn read_value(client: &mut DirectJepsenClient, key: &str) -> Option<JsonValue> {
    match client.execute(OperationType::Read { key: key.to_string() }).unwrap() {
        OperationResult::ReadOk { value } => value,
        other => panic!("unexpected {:?}", other),
    }
}

#[test]
fn test_direct_client_basic_operations() {
    let mut client = DirectJepsenClient::new(0, 128);
    let written = client.execute(OperationType::Write { key: "test_key".to_string(), value: num(42) }).unwrap();
    assert!(matches!(written, OperationResult::WriteOk));
    assert!(json_eq(&read_value(&mut client, "test_key").unwrap(), &num(42)));
    assert!(client.is_healthy());
    assert_eq!(client.collection_name(), "jepsen_direct_0");
}

#[test]
fn test_direct_client_cas() {
    let mut client = DirectJepsenClient::new(0, 128);
    client.execute(OperationType::Write { key: "cas_key".to_string(), value: num(100) }).unwrap();
    match client.execute(OperationType::Cas { key: "cas_key".to_string(), old: num(100), new: num(200) }).unwrap() {
        OperationResult::CasOk { success: true } => {}
        other => panic!("Expected successful CAS, got {:?}", other),
    }
    match client.execute(OperationType::Cas { key: "cas_key".to_string(), old: num(100), new: num(300) }).unwrap() {
        OperationResult::CasOk { success: false } => {}
        other => panic!("Expected failed CAS, got {:?}", other),
    }
    assert!(json_eq(&read_value(&mut client, "cas_key").unwrap(), &num(200)));
    match client.execute(OperationType::Cas { key: "fresh".to_string(), old: JsonValue::Null, new: num(1) }).unwrap() {
        OperationResult::CasOk { success: true } => {}
        other => panic!("an unset key swaps from null, got {:?}", other),
    }
}

#[test]
fn direct_client_counters_lists_and_sets() {
    let mut client = DirectJepsenClient::new(1, 1);
    match client.execute(OperationType::Increment { key: "c".to_string(), delta: 5 }).unwrap() {
        OperationResult::IncrementOk { value } => assert_eq!(value, 5),
        other => panic!("unexpected {:?}", other),
    }
    match client.execute(OperationType::Increment { key: "c".to_string(), delta: -8 }).unwrap() {
        OperationResult::IncrementOk { value } => assert_eq!(value, -3),
        other => panic!("unexpected {:?}", other),
    }
    client.execute(OperationType::Append { key: "l".to_string(), value: num(1) }).unwrap();
    client.execute(OperationType::Append { key: "l".to_string(), value: num(2) }).unwrap();
    assert!(json_eq(&read_value(&mut client, "l").unwrap(), &JsonValue::Array(vec![num(1), num(2)])));
    client.execute(OperationType::SetAdd { key: "s".to_string(), element: num(7) }).unwrap();
    client.execute(OperationType::SetAdd { key: "s".to_string(), element: num(7) }).unwrap();
    assert!(json_eq(&read_value(&mut client, "s").unwrap(), &JsonValue::Array(vec![num(7)])));
    let ops = vec![
        TransactionOp::Write { key: "t".to_string(), value: num(9) },
        TransactionOp::Read { key: "t".to_string() },
        TransactionOp::Read { key: "missing".to_string() },
    ];
    match client.execute(OperationType::Transaction { ops }).unwrap() {
        OperationResult::TransactionOk { results } => {
            assert_eq!(results.len(), 3);
            assert!(json_eq(results[0].as_ref().unwrap(), &JsonValue::Bool(true)));
            assert!(json_eq(results[1].as_ref().unwrap(), &num(9)));
            assert!(results[2].is_none());
        }
        other => panic!("unexpected {:?}", other),
    }
}

#[test]
fn high_throughput_client_stores_batches() {
    let mut client = HighThroughputWriteClient::new(3);
    client.write_batch(vec![("a".to_string(), num(1)), ("a".to_string(), num(2))]).unwrap();
    let config = OptimizedClientConfig::default();
    assert_eq!(config.vector_dim, 1);
    assert_eq!(config.batch_size, 100);
    assert_eq!(config.flush_interval_ms, 10);
}

use rtdb::jepsen::history::find_concurrent_operations;
use rtdb::jepsen::runner::{gather_history, ClientOutcome};

fn timed_op(id: u128, invoke_ms: u64, complete_ms: u64) -> Operation {
    let ms: u64 = 1_000_000;
    Operation {
        id,
        process: 0,
        op: OperationType::Read { key: "k".to_string() },
        invoke_time: invoke_ms * ms,
        complete_time: Some(complete_ms * ms),
        result: Some(OperationResult::ReadOk { value: None }),
        error: None,
    }
}

#[test]
fn concurrent_operations_are_grouped_by_overlap() {
    let ms: u64 = 1_000_000;
    let history = History {
        operations: vec![
            timed_op(1, 1000, 1100),
            timed_op(2, 1010, 1020),
            timed_op(3, 1050, 1060),
            timed_op(4, 1200, 1210),
            timed_op(5, 1205, 1300),
        ],
        metadata: HistoryMetadata {
            start_time: 0,
            end_time: 0,
            total_ops: 5,
            successful_ops: 5,
            failed_ops: 0,
            faults_injected: Vec::new(),
        },
    };
    let groups = find_concurrent_operations(&history);
    assert_eq!(groups.len(), 2);
    assert_eq!(groups[0].operations, vec![1, 2, 3]);
    assert_eq!(groups[0].start_time, 1000 * ms);
    assert_eq!(groups[0].end_time, 1100 * ms);
    assert_eq!(groups[1].operations, vec![4, 5]);
    assert_eq!(groups[1].start_time, 1200 * ms);
    assert_eq!(groups[1].end_time, 1300 * ms);
}

#[test]
fn a_run_lists_each_clients_reads_in_client_order() {
    let outcomes = vec![
        vec![
            ClientOutcome { id: 10, invoke_time: 1, complete_time: 2, outcome: Ok(OperationResult::ReadOk { value: None }) },
            ClientOutcome { id: 11, invoke_time: 3, complete_time: 4, outcome: Err(RTDBError::Network("down".to_string())) },
        ],
        Vec::new(),
        vec![ClientOutcome { id: 20, invoke_time: 2, complete_time: 5, outcome: Ok(OperationResult::ReadOk { value: Some(num(7)) }) }],
    ];
    let history = gather_history(outcomes, 0, 9);
    assert_eq!(history.metadata.total_ops, 3);
    assert_eq!(history.metadata.successful_ops, 2);
    assert_eq!(history.metadata.failed_ops, 1);
    assert_eq!(history.metadata.start_time, 0);
    assert_eq!(history.metadata.end_time, 9);
    let ids: Vec<u128> = history.operations.iter().map(|o| o.id).collect();
    assert_eq!(ids, vec![10, 11, 20]);
    let processes: Vec<usize> = history.operations.iter().map(|o| o.process).collect();
    assert_eq!(processes, vec![0, 0, 2]);
    match &history.operations[2].op {
        OperationType::Read { key } => assert_eq!(key, "key-2"),
        other => panic!("unexpected {:?}", other),
    }
    assert!(history.operations[1].result.is_none());
    assert!(history.operations[1].error.as_deref().unwrap().contains("down"));
    assert_eq!(history.operations[2].complete_time, Some(5));
}

use rtdb::jepsen::checkers::SerializabilityChecker;

fn txn_op(id: u128, key: &str) -> Operation {
    Operation {
        id,
        process: 0,
        op: OperationType::Transaction { ops: vec![TransactionOp::Read { key: key.to_string() }] },
        invoke_time: id as u64,
        complete_time: Some(id as u64 + 1),
        result: None,
        error: None,
    }
}

#[test]
fn serializability_finds_no_cycle_among_distinct_transactions() {
    let history = History {
        operations: vec![txn_op(1, "a"), txn_op(2, "a"), txn_op(3, "a"), txn_op(4, "b")],
        metadata: HistoryMetadata {
            start_time: 0,
            end_time: 10,
            total_ops: 4,
            successful_ops: 0,
            failed_ops: 4,
            faults_injected: Vec::new(),
        },
    };
    let result = SerializabilityChecker::new().check(&history);
    assert!(result.valid);
    assert!(result.violations.is_empty());
    assert_eq!(result.metadata.operations_analyzed, 4);
}

#[test]
fn latency_statistics_are_ordered() {
    let ops: Vec<Operation> = [5u64, 1, 9, 3, 7, 2, 8, 4, 6, 10]
        .iter()
        .enumerate()
        .map(|(i, d)| { let mut op = write_op(100, 100 + d); op.id = i as u128; op })
        .collect();
    let n = ops.len();
    let history = History {
        operations: ops,
        metadata: HistoryMetadata { start_time: 0, end_time: 0, total_ops: n, successful_ops: n, failed_ops: 0, faults_injected: Vec::new() },
    };
    let a = analyze_latencies(&history);
    assert_eq!((a.count, a.min, a.max, a.mean, a.median, a.p95, a.p99), (10, 1, 10, 5, 6, 10, 10));
    assert!(a.min <= a.median && a.median <= a.p95 && a.p95 <= a.p99 && a.p99 <= a.max);
}
