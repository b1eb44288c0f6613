use std::time::Duration;

use rtdb::json::{JsonNumber, JsonValue};
use rtdb::migration::formats::{DataFormat, FormatConverter};
use rtdb::migration::model::{select_strategy, MigrationConfig, MigrationStrategy, ValidationConfig, VectorRecord};
use rtdb::migration::progress::{format_duration, ThroughputWindow};
use rtdb::migration::validation::{validate_id, validate_metadata, validate_vector, BatchValidator, FieldType, SchemaValidator};
use rtdb::types::Vector;

fn bits(xs: &[f32]) -> Vec<u32> {
    xs.iter().map(|x| x.to_bits()).collect()
}

fn text(s: &str) -> JsonValue {
    JsonValue::Str(s.to_string())
}

fn float(x: f64) -> JsonValue {
    JsonValue::Number(JsonNumber::Float(x.to_bits()))
}

fn num(n: u64) -> JsonValue {
    JsonValue::Number(JsonNumber::PosInt(n))
}

/// The size of the JSON serialization of a metadata object.
fn serialized_size(fields: &[(&str, serde_json::Value)]) -> usize {
    let map: serde_json::Map<String, serde_json::Value> =
        fields.iter().map(|(k, v)| (k.to_string(), v.clone())).collect();
    serde_json::to_vec(&map).unwrap().len()
}

#[test]
fn formats_test_format_detection() {
    assert_eq!(DataFormat::from_extension("data.jsonl"), Some(DataFormat::Jsonl));
    assert_eq!(DataFormat::from_extension("vectors.parquet"), Some(DataFormat::Parquet));
    assert_eq!(DataFormat::from_extension("embeddings.h5"), Some(DataFormat::Hdf5));
    assert_eq!(DataFormat::from_extension("unknown.xyz"), None);
}

#[test]
fn test_format_validation() {
    assert!(FormatConverter::validate_conversion(&DataFormat::Jsonl, &DataFormat::Parquet).is_ok());
    assert!(FormatConverter::validate_conversion(&DataFormat::Csv, &DataFormat::Binary).is_err());
}

#[test]
fn test_format_duration() {
    assert_eq!(format_duration(Duration::from_secs(30)), "30s");
    assert_eq!(format_duration(Duration::from_secs(90)), "1m 30s");
    assert_eq!(format_duration(Duration::from_secs(3661)), "1h 1m");
    assert_eq!(format_duration(Duration::from_secs(90061)), "1d 1h");
}

#[test]
fn test_validate_id() {
    assert!(validate_id("doc123").is_ok());
    assert!(validate_id("user_456").is_ok());
    assert!(validate_id("").is_err());
    assert!(validate_id("doc/123").is_err());
    assert!(validate_id("doc?123").is_err());
    assert!(validate_id(&"x".repeat(256)).is_err());
}

#[test]
fn test_validate_vector() {
    let vector = bits(&[1.0, 2.0, 3.0]);
    assert!(validate_vector(&vector, Some(3)).is_ok());
    assert!(validate_vector(&vector, Some(4)).is_err());
    assert!(validate_vector(&Vec::new(), None).is_err());
    let invalid = bits(&[1.0, f32::NAN, 3.0]);
    assert!(validate_vector(&invalid, None).is_err());
    let invalid = bits(&[1.0, f32::INFINITY, 3.0]);
    assert!(validate_vector(&invalid, None).is_err());
}

#[test]
fn test_validate_metadata() {
    let mut metadata = vec![("title".to_string(), text("Test Document")), ("score".to_string(), float(0.95))];
    let size = serialized_size(&[("title", serde_json::Value::String("Test Document".to_string())), ("score", serde_json::Value::from(0.95))]);

    let required = vec!["title".to_string()];
    assert!(validate_metadata(&metadata, &required, size).is_ok());

    let required = vec!["missing_field".to_string()];
    assert!(validate_metadata(&metadata, &required, size).is_err());

    metadata.push(("invalid-field-name".to_string(), text("value")));
    let size = serialized_size(&[
        ("title", serde_json::Value::String("Test Document".to_string())),
        ("score", serde_json::Value::from(0.95)),
        ("invalid-field-name", serde_json::Value::String("value".to_string())),
    ]);
    assert!(validate_metadata(&metadata, &Vec::new(), size).is_err());
}

fn titled(id: &str, vector: &[f32], title: &str) -> VectorRecord {
    VectorRecord { id: id.to_string(), vector: bits(vector), metadata: vec![("title".to_string(), text(title))] }
}

#[test]
fn test_batch_validator() {
    let config = ValidationConfig {
        validate_vectors: true,
        validate_metadata: true,
        check_duplicates: true,
        vector_dimension: Some(3),
        required_fields: vec!["title".to_string()],
    };
    let mut validator = BatchValidator::new(config);
    let records = vec![
        titled("1", &[1.0, 2.0, 3.0], "Doc 1"),
        titled("1", &[4.0, 5.0, 6.0], "Doc 1 Duplicate"),
        titled("2", &[7.0, 8.0], "Doc 2"),
    ];
    let sizes: Vec<usize> = ["Doc 1", "Doc 1 Duplicate", "Doc 2"]
        .iter()
        .map(|t| serialized_size(&[("title", serde_json::Value::String(t.to_string()))]))
        .collect();
    let result = validator.validate_batch(&records, &sizes).unwrap();
    assert_eq!(result.valid_records.len(), 1);
    assert_eq!(result.duplicate_records.len(), 1);
    assert_eq!(result.invalid_records.len(), 1);
    assert_eq!(result.stats.total_processed, 3);
}

#[test]
fn test_schema_validator() {
    let mut validator = SchemaValidator::new(false);
    validator.add_field("title".to_string(), FieldType::String);
    validator.add_field("score".to_string(), FieldType::Number);

    let record = VectorRecord {
        id: "1".to_string(),
        vector: bits(&[1.0, 2.0, 3.0]),
        metadata: vec![("title".to_string(), text("Test")), ("score".to_string(), float(0.95))],
    };
    assert!(validator.validate_schema(&record).is_ok());

    let bad = VectorRecord {
        id: "2".to_string(),
        vector: bits(&[1.0, 2.0, 3.0]),
        metadata: vec![("title".to_string(), num(123)), ("score".to_string(), float(0.95))],
    };
    assert!(validator.validate_schema(&bad).is_err());
}

#[test]
fn test_throughput_window() {
    let second: u64 = 1_000_000_000;
    let mut window = ThroughputWindow::new(10 * second, 5);
    window.add_sample(0, 0);
    window.add_sample(second, 100);
    window.add_sample(2 * second, 200);
    let (records, span) = window.records_and_span();
    let throughput = records as f64 / (span as f64 / second as f64);
    assert!(throughput > 90.0 && throughput < 110.0);
}

#[test]
fn test_select_strategy() {
    let mut config = MigrationConfig::default();
    config.strategy = MigrationStrategy::Stream;
    assert_eq!(select_strategy(&config).unwrap(), "streaming");
    config.strategy = MigrationStrategy::DualWrite;
    assert_eq!(select_strategy(&config).unwrap(), "dual-write");
    config.strategy = MigrationStrategy::BlueGreen;
    assert_eq!(select_strategy(&config).unwrap(), "blue-green");
    config.strategy = MigrationStrategy::Snapshot;
    assert_eq!(select_strategy(&config).unwrap(), "snapshot");
}

#[test]
fn test_vector_dim() {
    let v = Vector::new(bits(&[1.0, 2.0, 3.0]));
    assert_eq!(v.dim(), 3);
}

use rtdb::migration::model::{ConversionType, TransformationRule};
use rtdb::migration::transform::apply_transformation_rule;

fn field<'a>(record: &'a VectorRecord, name: &str) -> Option<&'a JsonValue> {
    record.metadata.iter().find(|(k, _)| k == name).map(|(_, v)| v)
}

fn as_text(v: Option<&JsonValue>) -> Option<String> {
    match v {
        Some(JsonValue::Str(s)) => Some(s.clone()),
        _ => None,
    }
}

#[test]
fn transformation_rules_reshape_records() {
    let mut record = VectorRecord {
        id: "r".to_string(),
        vector: bits(&[1.0, 2.0, 3.0, 4.0]),
        metadata: vec![
            ("old".to_string(), text("x")),
            ("tags".to_string(), JsonValue::Array(vec![text("a"), num(1), text("b")])),
            ("csv".to_string(), text(" p , q")),
            ("color".to_string(), text("r")),
        ],
    };
    let reduce = TransformationRule::DimensionReduction { from_dimension: 4, to_dimension: 2, method: "truncate".to_string() };
    apply_transformation_rule(&mut record, &reduce, None);
    assert_eq!(record.vector, bits(&[1.0, 2.0]));
    apply_transformation_rule(&mut record, &reduce, None);
    assert_eq!(record.vector.len(), 2);

    let rename = TransformationRule::FieldRename { field: "old".to_string(), new_name: "new".to_string() };
    apply_transformation_rule(&mut record, &rename, None);
    assert!(field(&record, "old").is_none());
    assert_eq!(as_text(field(&record, "new")), Some("x".to_string()));

    let map = TransformationRule::FieldMap {
        field: "color".to_string(),
        mapping: vec![("r".to_string(), "red".to_string())],
    };
    apply_transformation_rule(&mut record, &map, None);
    assert_eq!(as_text(field(&record, "color")), Some("red".to_string()));

    let join = TransformationRule::FieldConvert { field: "tags".to_string(), conversion: ConversionType::ArrayToString };
    apply_transformation_rule(&mut record, &join, None);
    assert_eq!(as_text(field(&record, "tags")), Some("a,b".to_string()));

    let split = TransformationRule::FieldConvert { field: "csv".to_string(), conversion: ConversionType::StringToArray };
    apply_transformation_rule(&mut record, &split, None);
    match field(&record, "csv") {
        Some(JsonValue::Array(parts)) => {
            assert_eq!(parts.len(), 2);
            assert_eq!(as_text(Some(&parts[0])), Some("p".to_string()));
            assert_eq!(as_text(Some(&parts[1])), Some("q".to_string()));
        }
        other => panic!("unexpected {:?}", other),
    }

    let number = TransformationRule::FieldConvert { field: "new".to_string(), conversion: ConversionType::StringToNumber };
    apply_transformation_rule(&mut record, &number, Some(float(1.5)));
    assert!(matches!(field(&record, "new"), Some(JsonValue::Number(JsonNumber::Float(b))) if *b == 1.5f64.to_bits()));
    assert_eq!(record.metadata.len(), 4);
}

use rtdb::migration::manager::MigrationManager;
use rtdb::migration::model::MigrationStatus;

#[test]
fn test_migration_manager_lifecycle() {
    let mut manager = MigrationManager::new("/tmp/checkpoints".to_string()).unwrap();
    assert!(manager.list_migrations().is_empty());
    // A migration the manager did not start is not tracked.
    let migration_id: u128 = 0x1234;
    manager.update_processed(migration_id, 100, 5, 10);
    assert!(manager.get_progress(migration_id).is_none());
}

#[test]
fn cancelled_migrations_resume_and_running_ones_do_not() {
    let mut manager = MigrationManager::new("/tmp/checkpoints".to_string()).unwrap();
    let config = MigrationConfig::default();
    let id = manager.start_migration(&config, 100);
    assert_eq!(id, config.id);
    let progress = manager.get_progress(id).unwrap();
    assert_eq!(progress.status, MigrationStatus::Pending);
    assert_eq!(progress.start_time, 100);
    manager.update_total_records(id, 1000);
    manager.update_processed(id, 400, 3, 150);
    let progress = manager.get_progress(id).unwrap();
    assert_eq!(progress.total_records, Some(1000));
    assert_eq!(progress.processed_records, 400);
    assert_eq!(progress.failed_records, 3);
    assert_eq!(progress.last_update, 150);
    // A pending migration is not resumed.
    assert_eq!(manager.resume_migration(id, 160).unwrap(), false);
    manager.cancel_migration(id, 170).unwrap();
    assert_eq!(manager.get_progress(id).unwrap().status, MigrationStatus::Cancelled);
    assert_eq!(manager.resume_migration(id, 180).unwrap(), true);
    let progress = manager.get_progress(id).unwrap();
    assert_eq!(progress.status, MigrationStatus::Running);
    assert_eq!(progress.last_update, 180);
    // A running migration is not resumed again.
    assert_eq!(manager.resume_migration(id, 190).unwrap(), false);
    assert_eq!(manager.list_migrations().len(), 1);
}

use rtdb::migration::validation::validate_record;

#[test]
fn test_validation_rules() {
    let config = ValidationConfig {
        validate_vectors: true,
        validate_metadata: true,
        check_duplicates: false,
        vector_dimension: Some(4),
        required_fields: vec!["title".to_string()],
    };
    let size = serialized_size(&[("title", serde_json::Value::String("Test".to_string()))]);
    let valid_record = titled("test", &[1.0, 2.0, 3.0, 4.0], "Test");
    assert!(validate_record(&valid_record, &config, size).is_ok());
    let invalid_record = titled("test", &[1.0, 2.0], "Test");
    assert!(validate_record(&invalid_record, &config, size).is_err());
    let missing_field_record = VectorRecord { id: "test".to_string(), vector: bits(&[1.0, 2.0, 3.0, 4.0]), metadata: Vec::new() };
    assert!(validate_record(&missing_field_record, &config, 2).is_err());
}

#[test]
fn field_names_must_be_identifiers() {
    let required: Vec<String> = Vec::new();
    for good in ["title", "_private", "a1_b2", "Z"] {
        assert!(validate_metadata(&vec![(good.to_string(), num(1))], &required, 16).is_ok(), "{}", good);
    }
    for bad in ["", "9lives", "has space", "dash-ed", "tïtle", "a.b"] {
        match validate_metadata(&vec![(bad.to_string(), num(1))], &required, 16) {
            Err(rtdb::types::RTDBError::Validation(m)) => assert_eq!(
                m,
                format!("Invalid field name '{}': must start with letter or underscore, contain only alphanumeric characters and underscores", bad)
            ),
            other => panic!("{} gave {:?}", bad, other),
        }
    }
}

#[test]
fn without_duplicate_checking_repeated_ids_are_validated() {
    let config = ValidationConfig {
        validate_vectors: true,
        validate_metadata: false,
        check_duplicates: false,
        vector_dimension: Some(3),
        required_fields: Vec::new(),
    };
    let mut validator = BatchValidator::new(config);
    let records = vec![titled("1", &[1.0, 2.0, 3.0], "a"), titled("1", &[4.0, 5.0, 6.0], "b"), titled("2", &[7.0], "c")];
    let result = validator.validate_batch(&records, &vec![0, 0, 0]).unwrap();
    assert_eq!(result.valid_records.len(), 2);
    assert_eq!(result.invalid_records.len(), 1);
    assert!(result.duplicate_records.is_empty());
    assert_eq!(result.invalid_records[0].record.id, "2");
    assert_eq!(result.invalid_records[0].error, "Validation error: Vector dimension mismatch: expected 3, got 1");
    let stats = *validator.get_stats();
    assert_eq!(stats, result.stats);
    assert_eq!(stats.total_processed, stats.valid_count + stats.invalid_count + stats.duplicate_count);
}

#[test]
fn duplicates_are_remembered_across_batches_until_reset() {
    let config = ValidationConfig {
        validate_vectors: false,
        validate_metadata: false,
        check_duplicates: true,
        vector_dimension: None,
        required_fields: Vec::new(),
    };
    let mut validator = BatchValidator::new(config);
    let first = validator.validate_batch(&vec![titled("a", &[1.0], "x"), titled("b", &[1.0], "y")], &vec![0, 0]).unwrap();
    assert_eq!(first.valid_records.len(), 2);
    let second = validator.validate_batch(&vec![titled("b", &[1.0], "z"), titled("c", &[1.0], "w")], &vec![0, 0]).unwrap();
    assert_eq!(second.duplicate_records.len(), 1);
    assert_eq!(second.duplicate_records[0].id, "b");
    assert_eq!(second.valid_records.len(), 1);
    assert_eq!(second.stats.total_processed, 4);
    assert_eq!(second.stats.duplicate_count, 1);
    validator.reset_stats();
    let third = validator.validate_batch(&vec![titled("b", &[1.0], "z")], &vec![0]).unwrap();
    assert_eq!(third.valid_records.len(), 1);
    assert_eq!(third.stats.total_processed, 1);
}

use rtdb::migration::streaming::{stream_tally, streaming_step, BatchOutcome, StreamAction};

#[test]
fn streaming_waits_at_the_limit_and_finishes_with_the_tallies() {
    let s = stream_tally(2);
    let (s, a) = streaming_step(s, BatchOutcome::Started);
    assert_eq!(a, StreamAction::Receive);
    let (s, a) = streaming_step(s, BatchOutcome::Started);
    assert_eq!(a, StreamAction::AwaitTask);
    let (s, a) = streaming_step(s, BatchOutcome::Completed { processed: 100, failed: 2 });
    assert_eq!(a, StreamAction::ReportAndReceive { processed: 100, failed: 2 });
    let (s, a) = streaming_step(s, BatchOutcome::Started);
    assert_eq!(a, StreamAction::AwaitTask);
    let (s, a) = streaming_step(s, BatchOutcome::TaskFailed);
    assert_eq!(a, StreamAction::ReportAndReceive { processed: 100, failed: 3 });
    let (s, a) = streaming_step(s, BatchOutcome::SourceExhausted);
    assert_eq!(a, StreamAction::AwaitTask);
    assert_eq!(s.in_flight, 1);
    let (s, a) = streaming_step(s, BatchOutcome::Completed { processed: 50, failed: 0 });
    assert_eq!(a, StreamAction::Finish { processed: 150, failed: 3 });
    assert_eq!(s.in_flight, 0);
    let (_, a) = streaming_step(stream_tally(4), BatchOutcome::SourceExhausted);
    assert_eq!(a, StreamAction::Finish { processed: 0, failed: 0 });
}

#[test]
fn schema_requires_added_fields_with_their_types() {
    let mut schema = SchemaValidator::new(true);
    schema.add_field("title".to_string(), FieldType::String);
    schema.add_field("title".to_string(), FieldType::Number);
    let rec = |m: Vec<(String, JsonValue)>| VectorRecord { id: "x".to_string(), vector: Vec::new(), metadata: m };
    assert!(schema.validate_schema(&rec(vec![("title".to_string(), num(3))])).is_ok());
    assert!(schema.validate_schema(&rec(vec![("title".to_string(), text("t"))])).is_err());
    assert!(schema.validate_schema(&rec(Vec::new())).is_err());
    assert!(schema.validate_schema(&rec(vec![("title".to_string(), num(3)), ("extra".to_string(), num(1))])).is_err());
}
