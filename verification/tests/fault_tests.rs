use rtdb::jepsen::analyzer::{HistoryAnalyzer, JepsenOperation, TimedOperationResult};
use rtdb::jepsen::chaos::PartitionChaosMonkey;
use rtdb::jepsen::model::{ConsistencyModel, FaultType, PartitionType, ViolationType};
use rtdb::jepsen::nemesis::{
    clock_skew, partition_plan, heal_plan, ClockSkewNemesis, CombinedNemesis, NemesisCommand,
    NetworkPartitionNemesis, ProcessNemesis,
};
use rtdb::jepsen::partition::NetworkPartitionSimulator;
use rtdb::types::RTDBError;

fn names(ns: &[&str]) -> Vec<String> {
    ns.iter().map(|s| s.to_string()).collect()
}

#[test]
fn test_network_partition_simulator() {
    let mut simulator = NetworkPartitionSimulator::new();
    let partition_id = simulator.create_partition(1, names(&["node1", "node2"]));
    assert!(!simulator.can_communicate("node1", "node3"));
    assert!(simulator.can_communicate("node1", "node2"));
    simulator.heal_partition(&partition_id);
    assert!(simulator.can_communicate("node1", "node3"));
}

#[test]
fn test_split_brain_scenario() {
    let mut simulator = NetworkPartitionSimulator::new();
    let partition_id1 = simulator.create_partition(1, names(&["node1", "node2"]));
    let partition_id2 = simulator.create_partition(2, names(&["node3"]));
    assert!(!simulator.can_communicate("node1", "node3"));
    assert!(!simulator.can_communicate("node2", "node3"));
    assert!(simulator.can_communicate("node1", "node2"));
    simulator.heal_partition(&partition_id1);
    simulator.heal_partition(&partition_id2);
    assert!(simulator.can_communicate("node1", "node3"));
    assert!(simulator.can_communicate("node2", "node3"));
}

fn write_op(id: u64, vector_id: &str, start: u64, end: u64, node: &str) -> TimedOperationResult {
    TimedOperationResult {
        operation: JepsenOperation::Write { id, vector_id: vector_id.to_string(), vector: vec![1, 2, 3] },
        start_time: start,
        end_time: end,
        success: true,
        error: None,
        result_data: None,
        node_id: node.to_string(),
    }
}

fn read_op(id: u64, vector_id: &str, start: u64, end: u64, success: bool, node: &str) -> TimedOperationResult {
    TimedOperationResult {
        operation: JepsenOperation::Read { id, vector_id: vector_id.to_string() },
        start_time: start,
        end_time: end,
        success,
        error: if success { None } else { Some("Not found".to_string()) },
        result_data: if success { Some(b"vector_data".to_vec()) } else { None },
        node_id: node.to_string(),
    }
}

const MS: u64 = 1_000_000;

#[test]
fn test_history_analyzer() {
    let mut analyzer = HistoryAnalyzer::new(ConsistencyModel::Linearizable, true);
    analyzer.add_operation(write_op(1, "test", 0, 0, "node1"));
    let result = analyzer.check_linearizability();
    assert!(result.operations_analyzed > 0);
}

#[test]
fn test_clock_skew_detection() {
    let mut analyzer = HistoryAnalyzer::new(ConsistencyModel::Linearizable, true);
    analyzer.add_operation(write_op(1, "test", 0, 100 * MS, "node1"));
    analyzer.add_operation(read_op(2, "test", 50 * MS, 150 * MS, false, "node2"));
    let result = analyzer.check_linearizability();
    assert!(!result.is_linearizable);
    assert!(!result.violations.is_empty());
    assert_eq!(result.violations[0].violation_type, ViolationType::ReadAfterWrite);
}

#[test]
fn test_concurrent_writes_detection() {
    let mut analyzer = HistoryAnalyzer::new(ConsistencyModel::Linearizable, true);
    analyzer.add_operation(write_op(1, "concurrent_test", 0, 100 * MS, "node1"));
    analyzer.add_operation(write_op(2, "concurrent_test", 50 * MS, 150 * MS, "node2"));
    let result = analyzer.check_linearizability();
    assert!(result.operations_analyzed == 2);
}

#[test]
fn test_read_after_write_consistency() {
    let mut analyzer = HistoryAnalyzer::new(ConsistencyModel::Linearizable, true);
    analyzer.add_operation(write_op(1, "consistency_test", 0, 50 * MS, "node1"));
    analyzer.add_operation(read_op(2, "consistency_test", 100 * MS, 120 * MS, false, "node2"));
    let result = analyzer.check_linearizability();
    assert!(!result.is_linearizable);
    assert!(!result.violations.is_empty());
    assert_eq!(result.violations[0].violation_type, ViolationType::ReadAfterWrite);
}

#[test]
fn test_monotonic_read_consistency() {
    let mut analyzer = HistoryAnalyzer::new(ConsistencyModel::Linearizable, true);
    analyzer.add_operation(read_op(1, "monotonic_test", 0, 50 * MS, true, "node1"));
    analyzer.add_operation(read_op(2, "monotonic_test", 100 * MS, 150 * MS, false, "node1"));
    let result = analyzer.check_linearizability();
    assert!(result.operations_analyzed == 2);
}

fn addresses() -> Vec<String> {
    names(&["10.0.0.1:7000", "10.0.0.2:7000", "10.0.0.3:7000"])
}

fn rule(block: bool, source: &str, destination: &str) -> String {
    format!("{} {} -> {}", if block { "block" } else { "unblock" }, source, destination)
}

fn describe(commands: &[NemesisCommand]) -> Vec<String> {
    commands
        .iter()
        .map(|c| match c {
            NemesisCommand::Block { source, destination } => rule(true, source, destination),
            NemesisCommand::Unblock { source, destination } => rule(false, source, destination),
            NemesisCommand::Kill { pid } => format!("kill {}", pid),
            NemesisCommand::Pause { pid } => format!("stop {}", pid),
            NemesisCommand::Resume { pid } => format!("cont {}", pid),
        })
        .collect()
}

#[test]
fn majority_partition_blocks_majority_from_minority() {
    assert_eq!(partition_plan(PartitionType::MajorityMinority, &vec![0, 1, 2]), vec![(0, 2), (1, 2)]);
    assert_eq!(partition_plan(PartitionType::Complete, &vec![0, 1, 2]), vec![(0, 1), (0, 2), (1, 2)]);
    assert!(partition_plan(PartitionType::Ring, &vec![0, 1, 2]).is_empty());
    assert_eq!(heal_plan(&vec![2, 0]), vec![(2, 0)]);

    let mut nemesis = NetworkPartitionNemesis::new(addresses());
    assert!(nemesis.start().is_ok());
    let event = nemesis.inject_fault(FaultType::Partition(PartitionType::MajorityMinority), vec![0, 1, 2], 77).unwrap();
    assert_eq!(event.fault_type, FaultType::Partition(PartitionType::MajorityMinority));
    assert_eq!(event.start_time, 77);
    assert_eq!(event.end_time, None);
    assert_eq!(event.affected_nodes, vec![0, 1, 2]);
    assert_eq!(
        describe(&nemesis.take_commands()),
        vec![rule(true, "10.0.0.3", "10.0.0.1"), rule(true, "10.0.0.3", "10.0.0.2")]
    );
    assert!(nemesis.take_commands().is_empty());
    // Stopping heals every pair of the partitioned nodes.
    assert!(nemesis.stop().is_ok());
    assert_eq!(
        describe(&nemesis.take_commands()),
        vec![
            rule(false, "10.0.0.2", "10.0.0.1"),
            rule(false, "10.0.0.3", "10.0.0.1"),
            rule(false, "10.0.0.3", "10.0.0.2"),
        ]
    );
    // Nothing is left to heal.
    assert!(nemesis.stop().is_ok());
    assert!(nemesis.take_commands().is_empty());
}

#[test]
fn partition_of_unknown_node_is_refused_after_the_valid_rules() {
    let mut nemesis = NetworkPartitionNemesis::new(addresses());
    match nemesis.inject_fault(FaultType::Partition(PartitionType::Complete), vec![0, 1, 7], 1) {
        Err(RTDBError::Config(m)) => assert_eq!(m, "Invalid node index"),
        other => panic!("unexpected {:?}", other),
    }
    assert_eq!(describe(&nemesis.take_commands()), vec![rule(true, "10.0.0.2", "10.0.0.1")]);
    // The refused partition was not recorded, so stopping issues nothing.
    assert!(nemesis.stop().is_ok());
    assert!(nemesis.take_commands().is_empty());
    match nemesis.inject_fault(FaultType::Pause, vec![0], 1) {
        Err(RTDBError::Config(m)) => assert_eq!(m, "Unsupported fault type for NetworkPartitionNemesis"),
        other => panic!("unexpected {:?}", other),
    }
}

#[test]
fn recovering_an_unknown_fault_changes_nothing() {
    let mut nemesis = NetworkPartitionNemesis::new(addresses());
    assert!(nemesis.recover(42).is_ok());
    assert!(nemesis.take_commands().is_empty());
    let mut process = ProcessNemesis::new();
    assert!(process.recover(42).is_ok());
    assert!(process.take_commands().is_empty());
}

#[test]
fn process_nemesis_kills_pauses_and_resumes_registered_nodes() {
    let mut nemesis = ProcessNemesis::new();
    nemesis.register_node(0, 100);
    nemesis.register_node(2, 300);
    let event = nemesis.inject_fault(FaultType::Crash, vec![0, 1, 2], 5).unwrap();
    assert_eq!(event.fault_type, FaultType::Crash);
    assert_eq!(describe(&nemesis.take_commands()), vec!["kill 100".to_string(), "kill 300".to_string()]);
    nemesis.inject_fault(FaultType::Pause, vec![2, 0], 6).unwrap();
    assert_eq!(describe(&nemesis.take_commands()), vec!["stop 300".to_string(), "stop 100".to_string()]);
    // Stopping resumes the paused processes; killed ones are left alone.
    assert!(nemesis.stop().is_ok());
    assert_eq!(describe(&nemesis.take_commands()), vec!["cont 300".to_string(), "cont 100".to_string()]);
    match nemesis.inject_fault(FaultType::ClockSkew, vec![0], 7) {
        Err(RTDBError::Config(m)) => assert_eq!(m, "Unsupported fault type for ProcessNemesis"),
        other => panic!("unexpected {:?}", other),
    }
}

#[test]
fn clock_skew_is_the_draw_modulo_the_bound() {
    assert_eq!(clock_skew(17, 5), 2);
    assert_eq!(clock_skew(-17, 5), -2);
    assert_eq!(clock_skew(17, -5), 2);
    assert_eq!(clock_skew(i64::MIN, i64::MIN), 0);
    assert_eq!(clock_skew(i64::MAX, 1000), i64::MAX % 1000);
    let mut nemesis = ClockSkewNemesis::new(250);
    let event = nemesis.inject_fault(FaultType::ClockSkew, vec![1, 2], 9).unwrap();
    assert_eq!(event.affected_nodes, vec![1, 2]);
    assert!(nemesis.stop().is_ok());
    match nemesis.inject_fault(FaultType::Crash, vec![1], 9) {
        Err(RTDBError::Config(m)) => assert_eq!(m, "Unsupported fault type for ClockSkewNemesis"),
        other => panic!("unexpected {:?}", other),
    }
}

#[test]
fn combined_nemesis_dispatches_by_fault_type() {
    let mut nemesis = CombinedNemesis::new(addresses(), 100);
    nemesis.register_node(1, 11);
    assert!(nemesis.start().is_ok());
    nemesis.inject_fault(FaultType::Partition(PartitionType::Complete), vec![0, 1], 1).unwrap();
    nemesis.inject_fault(FaultType::Pause, vec![1], 2).unwrap();
    nemesis.inject_fault(FaultType::ClockSkew, vec![0], 3).unwrap();
    match nemesis.inject_fault(FaultType::Delay, vec![0], 4) {
        Err(RTDBError::Config(m)) => assert_eq!(m, "Unsupported fault type"),
        other => panic!("unexpected {:?}", other),
    }
    assert_eq!(
        describe(&nemesis.take_commands()),
        vec![rule(true, "10.0.0.2", "10.0.0.1"), "stop 11".to_string()]
    );
    assert!(nemesis.stop().is_ok());
    assert_eq!(
        describe(&nemesis.take_commands()),
        vec![rule(false, "10.0.0.2", "10.0.0.1"), "cont 11".to_string()]
    );
}

#[test]
fn chaos_monkey_partitions_a_prefix_and_heals_what_it_made() {
    let nodes = names(&["n1", "n2", "n3", "n4"]);
    let mut simulator = NetworkPartitionSimulator::new();
    let mut monkey = PartitionChaosMonkey::new(nodes);
    monkey.chaos_step(&mut simulator, true, 1000, 0);
    assert_eq!(simulator.active_partitions(), 1);
    // The partition holds n1 and at most n2 (a prefix of at most half).
    assert!(!simulator.can_communicate("n1", "n3"));
    assert!(!simulator.can_communicate("n1", "n4"));
    assert!(simulator.can_communicate("n3", "n4"));
    // Without the partition probability hit, a partition is healed.
    monkey.chaos_step(&mut simulator, false, 2000, 1);
    assert_eq!(simulator.active_partitions(), 0);
    assert!(simulator.can_communicate("n1", "n3"));
    // A single node is never partitioned.
    let mut lone = PartitionChaosMonkey::new(names(&["only"]));
    lone.chaos_step(&mut simulator, true, 3000, 2);
    assert_eq!(simulator.active_partitions(), 0);
}

#[test]
fn chaos_monkey_heals_partitions_older_than_two_minutes() {
    let second: u64 = 1_000_000_000;
    let mut simulator = NetworkPartitionSimulator::new();
    let mut monkey = PartitionChaosMonkey::new(names(&["a", "b", "c"]));
    monkey.chaos_step(&mut simulator, true, 10, 0);
    monkey.chaos_step(&mut simulator, true, 20, 100 * second);
    monkey.heal_expired(&mut simulator, 120 * second);
    assert_eq!(simulator.active_partitions(), 2);
    monkey.heal_expired(&mut simulator, 121 * second);
    assert_eq!(simulator.active_partitions(), 1);
    monkey.finish(&mut simulator);
    assert_eq!(simulator.active_partitions(), 0);
    assert!(simulator.can_communicate("a", "c"));
}

#[test]
fn stopping_a_partition_of_addressed_nodes_clears_it() {
    let mut nemesis = NetworkPartitionNemesis::new(vec!["10.0.0.1:80".to_string()]);
    assert!(nemesis.inject_fault(FaultType::Partition(PartitionType::Random), vec![0], 1).is_ok());
    assert!(nemesis.stop().is_ok());
    // The partition is gone: a second stop has nothing to heal.
    nemesis.take_commands();
    assert!(nemesis.stop().is_ok());
    assert!(nemesis.take_commands().is_empty());
}
