use rtdb::jepsen::batched::{
    BatchedDirectJepsenClient, OptimizedDirectJepsenClient, SyncBatchedDirectJepsenClient, WriteBatcher,
};
use rtdb::jepsen::direct::OptimizedClientConfig;
use rtdb::jepsen::generators::{BurstSchedule, DataGenerator};
use rtdb::jepsen::model::{OperationResult, OperationType};
use rtdb::jepsen::store::UltraFastJepsenClient;
use rtdb::jepsen::workloads::{custom_bank_workload, custom_set_workload, param_u64};
use rtdb::json::{json_eq, JsonNumber, JsonValue};
use rtdb::types::RTDBError;
use std::time::Instant;

fn num(n: u64) -> JsonValue {
    JsonValue::Number(JsonNumber::PosInt(n))
}

fn write(key: &str, n: u64) -> OperationType {
    OperationType::Write { key: key.to_string(), value: num(n) }
}

fn read(key: &str) -> OperationType {
    OperationType::Read { key: key.to_string() }
}

fn read_value(result: OperationResult) -> Option<JsonValue> {
    match result {
        OperationResult::ReadOk { value } => value,
        other => panic!("unexpected {:?}", other),
    }
}

#[test]
fn test_optimized_client_basic() {
    let mut client = OptimizedDirectJepsenClient::new(0);
    let result = client.execute(write("test_key", 42)).unwrap();
    assert!(matches!(result, OperationResult::WriteOk));
    client.flush().unwrap();
    match client.execute(read("test_key")).unwrap() {
        OperationResult::ReadOk { value: Some(v) } => assert!(json_eq(&v, &num(42))),
        _ => panic!("Expected ReadOk with value 42"),
    }
}

#[test]
fn optimized_client_refuses_other_operations() {
    let mut client = OptimizedDirectJepsenClient::with_config(
        3,
        OptimizedClientConfig { vector_dim: 4, batch_size: 2, flush_interval_ms: 5, enable_pooling: false, in_memory_only: true },
    );
    assert_eq!(client.id(), 3);
    assert!(client.is_healthy());
    match client.execute(OperationType::Increment { key: "k".to_string(), delta: 1 }) {
        Err(RTDBError::Query(m)) => assert_eq!(m, "Operation not optimized yet"),
        other => panic!("unexpected {:?}", other),
    }
}

#[test]
fn test_batched_performance() {
    let operations = 1000;
    let mut batched = BatchedDirectJepsenClient::new(0, 128);
    let start = Instant::now();
    for i in 0..operations {
        batched.execute(write(&format!("key_{}", i), i)).unwrap();
    }
    batched.flush().unwrap();
    let duration = start.elapsed();
    println!("Batched: {:.2} ops/sec", operations as f64 / duration.as_secs_f64());
    assert!(json_eq(&read_value(batched.execute(read("key_999")).unwrap()).unwrap(), &num(999)));
    // The flush marker is itself a stored write of null.
    assert!(json_eq(&read_value(batched.execute(read("__flush__")).unwrap()).unwrap(), &JsonValue::Null));
    match batched.execute(OperationType::Append { key: "k".to_string(), value: num(1) }) {
        Err(RTDBError::Query(m)) => assert_eq!(m, "Operation not supported"),
        other => panic!("unexpected {:?}", other),
    }
}

#[test]
fn test_sync_batched_performance() {
    let operations = 1000;
    for batch_size in [10, 50, 100, 200] {
        let mut client = SyncBatchedDirectJepsenClient::new(0, 128, batch_size);
        let start = Instant::now();
        for i in 0..operations {
            client.execute(write(&format!("key_{}", i), i)).unwrap();
        }
        client.flush().unwrap();
        let duration = start.elapsed();
        println!("Batch size {}: {:.2} ops/sec", batch_size, operations as f64 / duration.as_secs_f64());
        assert!(json_eq(&read_value(client.execute(read("key_0")).unwrap()).unwrap(), &num(0)));
        assert!(json_eq(&read_value(client.execute(read("key_999")).unwrap()).unwrap(), &num(999)));
    }
}

#[test]
fn sync_batched_reads_see_buffered_writes() {
    let mut client = SyncBatchedDirectJepsenClient::new(1, 2, 3);
    client.execute(write("a", 1)).unwrap();
    client.execute(write("a", 2)).unwrap();
    // Two writes wait in the buffer; a read stores them first.
    assert!(json_eq(&read_value(client.execute(read("a")).unwrap()).unwrap(), &num(2)));
    assert_eq!(read_value(client.execute(read("missing")).unwrap()).is_none(), true);
    match client.execute(OperationType::SetAdd { key: "s".to_string(), element: num(1) }) {
        Err(RTDBError::Query(m)) => assert_eq!(m, "Not supported"),
        other => panic!("unexpected {:?}", other),
    }
}

#[test]
fn write_batcher_hands_out_full_batches_in_order() {
    let mut batcher = WriteBatcher::new(2);
    assert!(batcher.push("a".to_string(), num(1)).is_none());
    let batch = batcher.push("b".to_string(), num(2)).unwrap();
    let keys: Vec<&str> = batch.iter().map(|(k, _)| k.as_str()).collect();
    assert_eq!(keys, vec!["a", "b"]);
    assert!(batcher.take().is_none());
    assert!(batcher.push("c".to_string(), num(3)).is_none());
    let rest = batcher.take().unwrap();
    assert_eq!(rest.len(), 1);
    assert_eq!(rest[0].0, "c");
}

#[test]
fn test_ultra_fast_performance() {
    let mut client = UltraFastJepsenClient::new(0);
    let operations: u64 = 100000;
    let start = Instant::now();
    for i in 0..operations {
        client.write(format!("key_{}", i), num(i)).unwrap();
    }
    let write_duration = start.elapsed();
    let write_ops = operations as f64 / write_duration.as_secs_f64();
    println!("Write throughput: {:.2} ops/sec", write_ops);
    let start = Instant::now();
    for i in 0..operations {
        let _ = client.read(format!("key_{}", i));
    }
    let read_duration = start.elapsed();
    println!("Read throughput: {:.2} ops/sec", operations as f64 / read_duration.as_secs_f64());
    assert!(write_ops > 50000.0, "Ultra-fast client should achieve >50,000 ops/sec, got {:.2}", write_ops);
}

#[test]
fn data_generator_draws_within_bounds() {
    let mut generator = DataGenerator::with_seed(7);
    let s = generator.random_string(12);
    assert_eq!(s.len(), 12);
    assert!(s.chars().all(|c| c.is_ascii_alphanumeric()));
    let keys = vec!["x".to_string(), "y".to_string()];
    let k = generator.random_key(&keys);
    assert!(keys.contains(&k));
    for _ in 0..100 {
        let n = generator.random_int(-3, 3);
        assert!((-3..=3).contains(&n));
    }
    let mut a = DataGenerator::with_seed(99);
    let mut b = DataGenerator::with_seed(99);
    assert_eq!(a.random_string(20), b.random_string(20));
}

#[test]
fn burst_schedule_bursts_at_start_and_every_interval() {
    let ms: u64 = 1_000_000;
    // Bursts last 3 ms and recur every 10 ms.
    let mut schedule = BurstSchedule::new(3 * ms, 10 * ms);
    let pattern: Vec<bool> = (0..12).map(|_| schedule.next_is_burst()).collect();
    assert_eq!(
        pattern,
        vec![true, true, false, false, false, false, false, false, false, true, true, true]
    );
}

#[test]
fn custom_workload_parameters_fall_back_to_defaults() {
    let params = JsonValue::Object(vec![
        ("num_keys".to_string(), num(2)),
        ("num_elements".to_string(), JsonValue::Str("many".to_string())),
        ("max_transfer".to_string(), num(7)),
    ]);
    assert_eq!(param_u64(&params, "num_keys", 3), 2);
    assert_eq!(param_u64(&params, "num_elements", 10), 10);
    assert_eq!(param_u64(&params, "absent", 5), 5);
    let set = custom_set_workload(&params);
    assert_eq!(set.name(), "set");
    let bank = custom_bank_workload(&params);
    assert_eq!(bank.name(), "bank");
}

use rtdb::jepsen::operations::{OperationGenerator, OperationKind};
use rand::rngs::StdRng;
use rand::SeedableRng;

fn seeded_rng(seed: u64) -> StdRng {
    StdRng::seed_from_u64(seed)
}

#[test]
fn generated_operations_use_the_keys_and_generated_values() {
    let keys = vec!["k1".to_string(), "k2".to_string()];
    let generator = OperationGenerator::new(keys.clone());
    assert_eq!(generator.len(), 2);
    let mut rng = seeded_rng(11);
    for _ in 0..50 {
        match generator.generate_kind(OperationKind::Increment, &mut rng) {
            OperationType::Increment { key, delta } => {
                assert!(keys.contains(&key));
                assert!((-10..=10).contains(&delta));
            }
            other => panic!("unexpected {:?}", other),
        }
        match generator.generate_kind(OperationKind::Transaction, &mut rng) {
            OperationType::Transaction { ops } => assert!((1..=5).contains(&ops.len())),
            other => panic!("unexpected {:?}", other),
        }
        match generator.generate_kind(OperationKind::Write, &mut rng) {
            OperationType::Write { value, .. } => match value {
                JsonValue::Number(JsonNumber::PosInt(_)) | JsonValue::Bool(_) | JsonValue::Null => {}
                JsonValue::Str(text) => assert!(text.starts_with("value-")),
                other => panic!("unexpected value {:?}", other),
            },
            other => panic!("unexpected {:?}", other),
        }
    }
}
