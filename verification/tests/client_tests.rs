use std::time::Duration;

use rtdb::json::{JsonNumber, JsonValue};
use rtdb::migration::checkpoint::{Checkpoint, CheckpointManager};
use rtdb::migration::cli::{MigrationCli, MigrationCommand, QdrantMigrationSource};
use rtdb::migration::clients::{
    auth_headers, batch_lines, collection_info, jsonl_batch, lance_batch, milvus_query_records,
    pinecone_query_records, qdrant_scroll_records, qdrant_total_count, source_settings, target_settings,
    trim_trailing_slashes, weaviate_get_records, weaviate_total_count, ClientKind, CollectionInfo, SourceSettings,
};
use rtdb::migration::model::{AuthConfig, SourceType, VectorRecord};
use rtdb::migration::parquet::{
    convert_batch_to_records, estimate_json_size, estimate_memory_usage, fetch_from_batches, BatchColumn,
    ColumnBatch, ColumnData,
};
use rtdb::migration::readers::csv_headers;
use rtdb::migration::simd::{processing_rate, summarize, MigrationProgress, SimdMigrationConfig, SimdVectorBatch};
use rtdb::types::{RTDBError, Vector};

fn s(t: &str) -> JsonValue {
    JsonValue::Str(t.to_string())
}

fn n(x: u64) -> JsonValue {
    JsonValue::Number(JsonNumber::PosInt(x))
}

fn obj(fields: Vec<(&str, JsonValue)>) -> JsonValue {
    JsonValue::Object(fields.into_iter().map(|(k, v)| (k.to_string(), v)).collect())
}

fn arr(items: Vec<JsonValue>) -> JsonValue {
    JsonValue::Array(items)
}

fn config_message(r: Result<Vec<(String, String)>, RTDBError>) -> String {
    match r {
        Err(RTDBError::Config(m)) => m,
        other => panic!("expected a configuration error, got {:?}", other),
    }
}

#[test]
fn test_collection_info() {
    let info = CollectionInfo {
        name: "test".to_string(),
        dimension: 128,
        vector_count: 1000,
        distance_metric: "Cosine".to_string(),
    };
    assert_eq!(info.name, "test");
    assert_eq!(info.dimension, 128);
    assert_eq!(info.vector_count, 1000);
}

#[test]
fn api_keys_go_in_each_clients_header() {
    let key = AuthConfig::ApiKey("secret".to_string());
    assert_eq!(auth_headers(ClientKind::Qdrant, &key).unwrap(), vec![("api-key".to_string(), "secret".to_string())]);
    assert_eq!(
        auth_headers(ClientKind::Milvus, &key).unwrap(),
        vec![("Authorization".to_string(), "Bearer secret".to_string())]
    );
    assert_eq!(
        auth_headers(ClientKind::Weaviate, &key).unwrap(),
        vec![("X-OpenAI-Api-Key".to_string(), "secret".to_string())]
    );
    assert_eq!(auth_headers(ClientKind::Pinecone, &key).unwrap(), vec![("Api-Key".to_string(), "secret".to_string())]);
}

#[test]
fn basic_credentials_are_base64_encoded() {
    let basic = AuthConfig::Basic { username: "user".to_string(), password: "pass".to_string() };
    assert_eq!(
        auth_headers(ClientKind::Qdrant, &basic).unwrap(),
        vec![("Authorization".to_string(), "Basic dXNlcjpwYXNz".to_string())]
    );
    assert_eq!(
        auth_headers(ClientKind::Rtdb, &basic).unwrap(),
        vec![("authorization".to_string(), "Basic dXNlcjpwYXNz".to_string())]
    );
}

#[test]
fn unusable_credentials_are_refused() {
    let key = AuthConfig::ApiKey("bad\nkey".to_string());
    assert_eq!(config_message(auth_headers(ClientKind::Qdrant, &key)), "Invalid API key format");
    let token = AuthConfig::Bearer("a\u{7f}".to_string());
    assert_eq!(config_message(auth_headers(ClientKind::Rtdb, &token)), "Invalid bearer token format");
    assert_eq!(config_message(auth_headers(ClientKind::Weaviate, &token)), "Invalid token format");
    let headers = AuthConfig::Headers(vec![
        ("X-Ok".to_string(), "fine".to_string()),
        ("bad name".to_string(), "v".to_string()),
        ("X-Late".to_string(), "bad\nvalue".to_string()),
    ]);
    assert_eq!(config_message(auth_headers(ClientKind::Qdrant, &headers)), "Invalid header name: bad name");
    let headers = AuthConfig::Headers(vec![("X-Tab".to_string(), "a\tb".to_string()), ("X-Two".to_string(), "a\rb".to_string())]);
    assert_eq!(config_message(auth_headers(ClientKind::Qdrant, &headers)), "Invalid header value: a\rb");
}

#[test]
fn qdrant_scroll_gives_records_and_next_page() {
    let result = obj(vec![(
        "result",
        obj(vec![
            (
                "points",
                arr(vec![obj(vec![
                    ("id", n(7)),
                    ("vector", arr(vec![n(1), JsonValue::Number(JsonNumber::Float(2.5f64.to_bits())), s("x")])),
                    ("payload", obj(vec![("title", s("doc"))])),
                ])]),
            ),
            ("next_page_offset", s("page-2")),
        ]),
    )]);
    let (records, next) = qdrant_scroll_records(&result).unwrap();
    assert_eq!(records.len(), 1);
    assert_eq!(records[0].id, "7");
    assert_eq!(
        records[0].components,
        vec![Some(JsonNumber::PosInt(1)), Some(JsonNumber::Float(2.5f64.to_bits())), None]
    );
    assert_eq!(records[0].metadata.len(), 1);
    assert_eq!(next.as_deref(), Some("page-2"));

    let missing_id = obj(vec![("result", obj(vec![("points", arr(vec![obj(vec![("vector", arr(vec![]))])]))]))]);
    match qdrant_scroll_records(&missing_id) {
        Err(RTDBError::Serialization(m)) => assert_eq!(m, "Missing point ID"),
        other => panic!("unexpected {:?}", other),
    }
    match qdrant_scroll_records(&obj(vec![])) {
        Err(RTDBError::Serialization(m)) => assert_eq!(m, "Invalid response format"),
        other => panic!("unexpected {:?}", other),
    }
}

#[test]
fn qdrant_count_is_read_from_the_description() {
    let info = obj(vec![("result", obj(vec![("points_count", n(42))]))]);
    assert_eq!(qdrant_total_count(&info), Some(42));
    assert_eq!(qdrant_total_count(&obj(vec![])), None);
}

#[test]
fn milvus_entities_take_the_first_id_and_vector_names() {
    let result = obj(vec![(
        "data",
        arr(vec![
            obj(vec![
                ("pk", JsonValue::Number(JsonNumber::NegInt(-5))),
                ("embedding", arr(vec![n(3)])),
                ("color", s("red")),
            ]),
            s("not an entity"),
            obj(vec![("vector", arr(vec![]))]),
        ]),
    )]);
    let records = milvus_query_records(&result);
    assert_eq!(records.len(), 2);
    assert_eq!(records[0].id, "-5");
    assert_eq!(records[0].components, vec![Some(JsonNumber::PosInt(3))]);
    assert_eq!(records[0].metadata.len(), 1);
    assert_eq!(records[0].metadata[0].0, "color");
    assert_eq!(records[1].id, "unknown");
}

#[test]
fn pinecone_matches_become_records() {
    let result = obj(vec![(
        "matches",
        arr(vec![obj(vec![("id", s("m1")), ("values", arr(vec![n(1), n(2)])), ("metadata", obj(vec![("k", n(1))]))])]),
    )]);
    let records = pinecone_query_records(&result);
    assert_eq!(records.len(), 1);
    assert_eq!(records[0].id, "m1");
    assert_eq!(records[0].components.len(), 2);
    assert_eq!(records[0].metadata.len(), 1);
}

#[test]
fn weaviate_objects_need_an_id_and_a_vector() {
    let good = obj(vec![(
        "data",
        obj(vec![(
            "Get",
            obj(vec![(
                "Doc",
                arr(vec![obj(vec![
                    ("_additional", obj(vec![("id", s("w1")), ("vector", arr(vec![n(4)]))])),
                    ("title", s("t")),
                ])]),
            )]),
        )]),
    )]);
    let records = weaviate_get_records(&good, "Doc").unwrap();
    assert_eq!(records.len(), 1);
    assert_eq!(records[0].id, "w1");
    assert_eq!(records[0].metadata.len(), 1);
    assert_eq!(records[0].metadata[0].0, "title");

    let bad = obj(vec![(
        "data",
        obj(vec![(
            "Get",
            obj(vec![("Doc", arr(vec![obj(vec![("_additional", obj(vec![("id", n(1)), ("vector", arr(vec![]))]))])]))]),
        )]),
    )]);
    match weaviate_get_records(&bad, "Doc") {
        Err(RTDBError::Serialization(m)) => assert_eq!(m, "Missing object ID"),
        other => panic!("unexpected {:?}", other),
    }

    let counted = obj(vec![(
        "data",
        obj(vec![("Aggregate", obj(vec![("Doc", arr(vec![obj(vec![("meta", obj(vec![("count", n(12))]))])]))]))]),
    )]);
    assert_eq!(weaviate_total_count(&counted, "Doc"), Some(12));
}

#[test]
fn jsonl_batches_skip_blank_lines_and_number_parse_errors() {
    let lines: Vec<String> = vec!["{\"id\": \"a\"}\n", "  \n", "{\"id\": 3}\n", "[1]\n", "oops\n"]
        .into_iter()
        .map(|l| l.to_string())
        .collect();
    let texts = batch_lines(&lines, 1, 3);
    assert_eq!(texts, vec!["{\"id\": 3}".to_string(), "[1]".to_string()]);

    let parsed = vec![Ok(obj(vec![("id", n(3)), ("vec", arr(vec![n(1)]))])), Ok(arr(vec![n(1)]))];
    let (records, next) = jsonl_batch(lines.len(), 1, &parsed).unwrap();
    assert_eq!(records.len(), 1);
    assert_eq!(records[0].id, "3");
    assert_eq!(records[0].components.len(), 1);
    assert_eq!(next, 3);

    let parsed = vec![Ok(obj(vec![])), Err("expected value at line 1 column 1".to_string())];
    match jsonl_batch(lines.len(), 2, &parsed) {
        Err(RTDBError::Serialization(m)) => assert_eq!(m, "Failed to parse JSON line 4: expected value at line 1 column 1"),
        other => panic!("unexpected {:?}", other),
    }

    let parsed = vec![Ok(obj(vec![("_id", s("z")), ("vec", arr(vec![n(1)]))]))];
    let (records, next) = lance_batch(5, &parsed).unwrap();
    assert_eq!(records[0].id, "z");
    assert_eq!(records[0].components.len(), 0);
    assert_eq!(records[0].metadata.len(), 1);
    assert_eq!(next, 6);
}

#[test]
fn settings_pick_the_client_and_its_defaults() {
    match source_settings(SourceType::Weaviate, "http://host:8080//", &None, &None).unwrap() {
        SourceSettings::Http { kind, base_url, collection, headers } => {
            assert_eq!(kind, ClientKind::Weaviate);
            assert_eq!(base_url, "http://host:8080");
            assert_eq!(collection, "Document");
            assert!(headers.is_empty());
        }
        other => panic!("unexpected {:?}", other),
    }
    match source_settings(SourceType::Pinecone, "http://p/", &Some("idx".to_string()), &None).unwrap() {
        SourceSettings::Http { base_url, collection, .. } => {
            assert_eq!(base_url, "http://p/");
            assert_eq!(collection, "idx");
        }
        other => panic!("unexpected {:?}", other),
    }
    match source_settings(SourceType::LanceDB, "/data/lance", &None, &None).unwrap() {
        SourceSettings::LanceDb { path, table } => {
            assert_eq!(path, "/data/lance");
            assert_eq!(table, "vectors");
        }
        other => panic!("unexpected {:?}", other),
    }
    match target_settings("out/vectors.parquet", &None) {
        Err(RTDBError::Config(m)) => {
            assert_eq!(m, "Parquet export should use ParquetWriter through formats.rs for optimal performance")
        }
        other => panic!("unexpected {:?}", other),
    }
    let target = target_settings("http://rtdb:6333/", &Some(AuthConfig::ApiKey("k".to_string()))).unwrap();
    assert_eq!(target.base_url, "http://rtdb:6333");
    assert_eq!(target.headers, vec![("api-key".to_string(), "k".to_string())]);
    assert_eq!(trim_trailing_slashes("///"), "");
}

#[test]
fn collection_descriptions_are_read() {
    let info = obj(vec![(
        "result",
        obj(vec![
            (
                "config",
                obj(vec![(
                    "params",
                    obj(vec![("vectors", obj(vec![("size", n(128)), ("distance", s("Dot"))]))]),
                )]),
            ),
            ("points_count", n(9)),
        ]),
    )]);
    let ci = collection_info("c", &info).unwrap();
    assert_eq!(ci.name, "c");
    assert_eq!(ci.dimension, 128);
    assert_eq!(ci.vector_count, 9);
    assert_eq!(ci.distance_metric, "Dot");
    match collection_info("c", &obj(vec![("result", n(1))])) {
        Err(RTDBError::Serialization(m)) => assert_eq!(m, "Invalid response format"),
        other => panic!("unexpected {:?}", other),
    }
}

#[test]
fn checkpoint_files_are_named_by_uuid() {
    let manager = CheckpointManager::new("/tmp/checkpoints".to_string()).unwrap();
    let id = 0xa1a2a3a4b1b2c1c2d1d2d3d4d5d6d7d8u128;
    assert_eq!(manager.checkpoint_path(id), "/tmp/checkpoints/a1a2a3a4-b1b2-c1c2-d1d2-d3d4d5d6d7d8.json");
    assert_eq!(manager.temporary_path(id), "/tmp/checkpoints/a1a2a3a4-b1b2-c1c2-d1d2-d3d4d5d6d7d8.tmp");
    let slashed = CheckpointManager::new("dir/".to_string()).unwrap();
    assert_eq!(slashed.checkpoint_path(1), "dir/00000000-0000-0000-0000-000000000001.json");
}

#[test]
fn listing_keeps_json_files_named_by_uuid() {
    let names: Vec<String> = vec![
        "a1a2a3a4-b1b2-c1c2-d1d2-d3d4d5d6d7d8.json",
        "a1a2a3a4-b1b2-c1c2-d1d2-d3d4d5d6d7d8.tmp",
        "notes.json",
        "00000000000000000000000000000002.json",
    ]
    .into_iter()
    .map(|x| x.to_string())
    .collect();
    let ids = CheckpointManager::checkpoint_ids(&names);
    assert_eq!(ids, vec![0xa1a2a3a4b1b2c1c2d1d2d3d4d5d6d7d8u128, 2]);

    let entries = vec![
        ("a.json".to_string(), Some(10)),
        ("b.json".to_string(), Some(100)),
        ("c.tmp".to_string(), Some(1)),
        ("d.json".to_string(), None),
    ];
    assert_eq!(CheckpointManager::expired_checkpoints(&entries, 50), vec![0]);

    let stats = CheckpointManager::checkpoint_stats(3, &vec![Some((10, Some(30))), None, Some((5, Some(20)))]);
    assert_eq!(stats.count, 3);
    assert_eq!(stats.total_size_bytes, 15);
    assert_eq!(stats.oldest_timestamp, Some(20));
    assert_eq!(stats.newest_timestamp, Some(30));
}

#[test]
fn checkpoints_must_match_the_configuration() {
    let manager = CheckpointManager::new("c".to_string()).unwrap();
    let checkpoint = Checkpoint::new(1, 0, 1000, 10, 1000, 0, JsonValue::Null, JsonValue::Null, "abc".to_string());
    assert_eq!(checkpoint.metadata.len(), 0);
    assert!(manager.validate_checkpoint(&checkpoint, "abc").is_ok());
    match manager.validate_checkpoint(&checkpoint, "xyz") {
        Err(RTDBError::Config(m)) => assert_eq!(m, "Checkpoint configuration hash mismatch - migration config has changed"),
        other => panic!("unexpected {:?}", other),
    }
}

fn text_column(name: &str, values: &[&str]) -> BatchColumn {
    BatchColumn {
        name: name.to_string(),
        data: ColumnData::Text {
            values: values.iter().map(|v| v.to_string()).collect(),
            nulls: vec![false; values.len()],
            objects: vec![None; values.len()],
        },
    }
}

fn parquet_batch(ids: &[&str]) -> ColumnBatch {
    ColumnBatch {
        num_rows: ids.len(),
        columns: vec![
            text_column("id", ids),
            BatchColumn {
                name: "embedding".to_string(),
                data: ColumnData::FloatLists(ids.iter().map(|_| vec![1.0f32.to_bits()]).collect()),
            },
        ],
    }
}

#[test]
fn parquet_batches_become_records() {
    let records = convert_batch_to_records(&parquet_batch(&["a", "b"])).unwrap();
    assert_eq!(records.len(), 2);
    assert_eq!(records[1].id, "b");
    assert_eq!(records[1].vector, vec![1.0f32.to_bits()]);

    let no_vector = ColumnBatch { num_rows: 1, columns: vec![text_column("id", &["a"])] };
    match convert_batch_to_records(&no_vector) {
        Err(RTDBError::Migration(m)) => assert_eq!(m, "Missing vector column"),
        other => panic!("unexpected {:?}", other),
    }
}

#[test]
fn parquet_reads_skip_to_the_offset() {
    let batches = vec![Ok(parquet_batch(&["a", "b"])), Ok(parquet_batch(&["c", "d", "e"])), Ok(parquet_batch(&["f"]))];
    let ids = |rs: Vec<VectorRecord>| rs.into_iter().map(|r| r.id).collect::<Vec<_>>();
    assert_eq!(ids(fetch_from_batches(&batches, 0, 4).unwrap()), vec!["a", "b", "c", "d"]);
    assert_eq!(ids(fetch_from_batches(&batches, 2, 2).unwrap()), vec!["c", "d"]);
    assert_eq!(ids(fetch_from_batches(&batches, 3, 5).unwrap()), vec!["d", "e"]);
    assert_eq!(ids(fetch_from_batches(&batches, 9, 5).unwrap()), Vec::<String>::new());
    let failing = vec![Ok(parquet_batch(&["a"])), Err("corrupt page".to_string())];
    match fetch_from_batches(&failing, 0, 5) {
        Err(RTDBError::Migration(m)) => assert_eq!(m, "Parquet stream error: corrupt page"),
        other => panic!("unexpected {:?}", other),
    }
}

#[test]
fn size_estimates_follow_the_json_shape() {
    assert_eq!(estimate_json_size(&JsonValue::Null), 4);
    assert_eq!(estimate_json_size(&obj(vec![("a", s("bc"))])), 10);
    assert_eq!(estimate_json_size(&arr(vec![n(1), JsonValue::Bool(true)])), 23);
    let records = vec![VectorRecord { id: "id".to_string(), vector: vec![0, 0], metadata: vec![("k".to_string(), s("v"))] }];
    assert_eq!(estimate_memory_usage(&records), 2 + 8 + 1 + 3);
}

#[test]
fn csv_headers_are_trimmed_and_unquoted() {
    assert_eq!(csv_headers(Some(" id, \"title\" ,vector\n")).unwrap(), vec!["id", "title", "vector"]);
    match csv_headers(None) {
        Err(RTDBError::Serialization(m)) => assert_eq!(m, "Empty CSV file"),
        other => panic!("unexpected {:?}", other),
    }
}

#[test]
fn engine_bookkeeping() {
    let config = SimdMigrationConfig::default();
    assert_eq!(config.batch_size, 1024);
    assert_eq!(config.memory_limit_per_worker, 512 * 1024 * 1024);

    let mut batch = SimdVectorBatch::new(1, "src".to_string(), "dst".to_string());
    batch.add_vector(
        Vector::new(vec![0, 0, 0]),
        VectorRecord { id: "r".to_string(), vector: vec![0, 0, 0], metadata: Vec::new() },
    );
    assert_eq!(batch.len(), 1);
    assert_eq!(batch.memory_usage(), 12 + std::mem::size_of::<VectorRecord>());

    let mut progress = MigrationProgress::new(10);
    progress.increment_migrated(7);
    progress.increment_failed(1);
    progress.increment_migrated(u64::MAX);
    assert_eq!(progress.migrated_records, 6);
    let summary = summarize(&progress, Duration::from_millis(3500));
    assert_eq!(summary.total_records, 7);
    assert_eq!(summary.average_rate, 2);
    assert_eq!(summarize(&progress, Duration::from_millis(900)).average_rate, 0);
    assert_eq!(processing_rate(50, Duration::from_millis(200)), 250);
    assert_eq!(processing_rate(50, Duration::from_micros(10)), 50);
}

#[test]
fn cli_options_give_the_engine_configuration() {
    let cli = MigrationCli {
        command: MigrationCommand::Qdrant { from: "a".to_string(), to: "b".to_string(), collection: "c".to_string(), resume: false },
        workers: 4,
        batch_size: 256,
        memory_limit_mb: 2,
        enable_simd: false,
        checkpoint_interval: 10,
        max_retries: 1,
        verbose: false,
    };
    let config = cli.simd_config();
    assert_eq!(config.memory_limit_per_worker, 2 * 1024 * 1024);
    assert_eq!(config.operation_timeout_secs, 30);
    let mut source = QdrantMigrationSource::new("http://q", "c").unwrap();
    assert!(source.next_record().unwrap().is_none());
    assert_eq!(source.total_count().unwrap(), Some(0));
}

use rtdb::migration::clients::{collection_report_defined, weaviate_get_defined};

#[test]
fn reading_stops_short_of_missing_required_fields() {
    let with_vector = |id: JsonValue, vector: Option<JsonValue>| {
        let mut extra = vec![("id", id)];
        if let Some(v) = vector {
            extra.push(("vector", v));
        }
        obj(vec![("data", obj(vec![("Get", obj(vec![("Doc", arr(vec![obj(vec![("_additional", obj(extra))])]))]))]))])
    };
    assert!(weaviate_get_defined(&with_vector(s("w1"), Some(arr(vec![n(1)]))), "Doc"));
    // A string identifier without a vector cannot be read.
    assert!(!weaviate_get_defined(&with_vector(s("w1"), None), "Doc"));
    // A numeric identifier is a complaint before the vector is looked at.
    assert!(weaviate_get_defined(&with_vector(n(1), None), "Doc"));
    // Objects without metadata are passed over.
    assert!(weaviate_get_defined(&obj(vec![("data", obj(vec![]))]), "Doc"));

    let described = |vectors: JsonValue| {
        obj(vec![("result", obj(vec![
            ("config", obj(vec![("params", obj(vec![("vectors", vectors)]))])),
            ("points_count", n(9)),
        ]))])
    };
    assert!(collection_report_defined(&described(obj(vec![("size", n(3)), ("distance", s("Dot"))]))));
    assert!(!collection_report_defined(&described(obj(vec![("size", n(3))]))));
    assert!(collection_report_defined(&described(obj(vec![("size", s("3"))]))));
    assert!(collection_report_defined(&obj(vec![("result", n(1))])));
    assert!(!collection_report_defined(&obj(vec![("result", obj(vec![]))])));
}

use rtdb::migration::readers::{csv_column_kind, csv_row, CsvCell, CsvColumn};

fn headers(hs: &[&str]) -> Vec<String> {
    hs.iter().map(|h| h.to_string()).collect()
}

#[test]
fn csv_columns_are_recognised_without_regard_to_case() {
    assert_eq!(csv_column_kind("ID"), CsvColumn::Id);
    assert_eq!(csv_column_kind("_id"), CsvColumn::Id);
    assert_eq!(csv_column_kind("Embedding"), CsvColumn::Vector);
    assert_eq!(csv_column_kind("EMBEDDINGS"), CsvColumn::Vector);
    assert_eq!(csv_column_kind("vector"), CsvColumn::Vector);
    assert_eq!(csv_column_kind("identifier"), CsvColumn::Field);
    assert_eq!(csv_column_kind("title"), CsvColumn::Field);
}

#[test]
fn csv_rows_split_into_id_vector_and_fields() {
    let hs = headers(&["id", "vector", "title", "flag", "score"]);
    let row = csv_row(&hs, " doc1 , \"1;2;3\" , \"Hello\", TRUE, 4.5 \n", 7).unwrap();
    assert_eq!(row.id, "doc1");
    assert_eq!(row.vector_texts, vec!["1;2;3".to_string()]);
    assert_eq!(
        row.fields,
        vec![
            ("title".to_string(), CsvCell::Text("Hello".to_string())),
            ("flag".to_string(), CsvCell::Bool(true)),
            ("score".to_string(), CsvCell::Text("4.5".to_string())),
        ]
    );
}

#[test]
fn csv_rows_without_id_are_numbered_and_bad_rows_skipped() {
    let hs = headers(&["title", "embedding"]);
    let row = csv_row(&hs, "x,[0.5]", 12).unwrap();
    assert_eq!(row.id, "csv_row_12");
    assert_eq!(row.vector_texts, vec!["[0.5]".to_string()]);
    assert_eq!(row.fields, vec![("title".to_string(), CsvCell::Text("x".to_string()))]);
    assert!(csv_row(&hs, "   \n", 3).is_none());
    assert!(csv_row(&hs, "only-one-value", 3).is_none());
    assert!(csv_row(&hs, "a,b,c", 3).is_none());
    let bools = csv_row(&headers(&["a", "b"]), "false,False", 0).unwrap();
    assert_eq!(bools.fields[0].1, CsvCell::Bool(false));
    assert_eq!(bools.fields[1].1, CsvCell::Bool(false));
}

#[test]
fn processing_rate_over_long_durations() {
    assert_eq!(processing_rate(1000, Duration::from_secs(4)), 250);
    assert_eq!(processing_rate(1, Duration::from_secs(2)), 0);
    assert_eq!(processing_rate(0, Duration::from_millis(5)), 0);
}

#[test]
fn header_names_must_be_tokens() {
    let bad = AuthConfig::Headers(vec![("bad name".to_string(), "v".to_string())]);
    assert!(auth_headers(ClientKind::Qdrant, &bad).is_err());
    let good = AuthConfig::Headers(vec![("X-Api_Key.1~".to_string(), "v".to_string())]);
    assert_eq!(auth_headers(ClientKind::Qdrant, &good).unwrap(), vec![("X-Api_Key.1~".to_string(), "v".to_string())]);
    let basic = AuthConfig::Basic { username: "a".to_string(), password: "bc".to_string() };
    assert_eq!(auth_headers(ClientKind::Qdrant, &basic).unwrap()[0].1, "Basic YTpiYw==");
}

use rtdb::migration::readers::CsvReader;

fn lines(ls: &[&str]) -> Vec<String> {
    ls.iter().map(|l| l.to_string()).collect()
}

#[test]
fn csv_reader_reads_batches_past_the_rows_read() {
    let file = lines(&["id,title", "a,x", "", "b,y,extra", "c,z", "d,w"]);
    let mut reader = CsvReader::new("data.csv");
    let first = reader.read_batch(&file, 3).unwrap();
    // The blank line and the line with too many values are passed over.
    let ids: Vec<String> = first.iter().map(|r| r.id.clone()).collect();
    assert_eq!(ids, vec!["a".to_string()]);
    assert_eq!(reader.current_line, 2);
    assert_eq!(reader.headers, Some(vec!["id".to_string(), "title".to_string()]));
    let second = reader.read_batch(&file, 10).unwrap();
    let ids: Vec<String> = second.iter().map(|r| r.id.clone()).collect();
    assert_eq!(ids, vec!["c".to_string(), "d".to_string()]);
    assert_eq!(reader.current_line, 5);
    let mut empty = CsvReader::new("empty.csv");
    match empty.read_batch(&Vec::new(), 5) {
        Err(RTDBError::Serialization(m)) => assert_eq!(m, "Empty CSV file"),
        other => panic!("unexpected {:?}", other),
    }
}

#[test]
fn csv_rows_without_ids_are_numbered_by_the_rows_read() {
    let file = lines(&["title", "x", "y", "z"]);
    let mut reader = CsvReader::new("t.csv");
    let first = reader.read_batch(&file, 2).unwrap();
    assert_eq!(first.iter().map(|r| r.id.clone()).collect::<Vec<_>>(), vec!["csv_row_1".to_string(), "csv_row_2".to_string()]);
    assert_eq!(reader.current_line, 3);
    // The next batch passes over as many data lines as the count says:
    // here all three, so nothing is left.
    let second = reader.read_batch(&file, 2).unwrap();
    assert!(second.is_empty());
    assert_eq!(reader.current_line, 4);
}

use rtdb::migration::binary::{decode_header, decode_record, encode_header, encode_record, BinaryReader};

fn binary_file(records: &[(&str, &[f32], &str)]) -> Vec<u8> {
    let mut bytes = encode_header(records.len() as u64);
    for (id, vector, metadata) in records {
        let v: Vec<u32> = vector.iter().map(|x| x.to_bits()).collect();
        bytes.extend(encode_record(&id.to_string(), &v, &metadata.as_bytes().to_vec()));
    }
    bytes
}

#[test]
fn binary_records_read_back_as_written() {
    let bytes = binary_file(&[("a", &[1.0, 2.0], "{\"k\":1}"), ("bé", &[], "")]);
    assert_eq!(decode_header(&bytes).unwrap(), 2);
    let (id, vector, metadata, next) = decode_record(&bytes, 16).unwrap().unwrap();
    assert_eq!(id, "a");
    assert_eq!(vector, vec![1.0f32.to_bits(), 2.0f32.to_bits()]);
    assert_eq!(metadata, b"{\"k\":1}".to_vec());
    let (id2, vector2, metadata2, end) = decode_record(&bytes, next).unwrap().unwrap();
    assert_eq!((id2.as_str(), vector2.len(), metadata2.len(), end), ("bé", 0, 0, bytes.len()));
    assert!(decode_record(&bytes, end).unwrap().is_none());
}

#[test]
fn binary_reader_reads_batches_after_the_header() {
    let bytes = binary_file(&[("a", &[1.0], ""), ("b", &[2.0], ""), ("c", &[3.0], "")]);
    let mut reader = BinaryReader::new("data.bin");
    assert_eq!(reader.get_total_count().unwrap(), None);
    let first = reader.read_batch(&bytes, 2).unwrap();
    assert_eq!(first.iter().map(|r| r.0.clone()).collect::<Vec<_>>(), vec!["a".to_string(), "b".to_string()]);
    assert_eq!(reader.get_total_count().unwrap(), Some(3));
    let second = reader.read_batch(&bytes, 2).unwrap();
    assert_eq!(second.len(), 1);
    assert_eq!(second[0].1, vec![3.0f32.to_bits()]);
    assert!(reader.read_batch(&bytes, 2).unwrap().is_empty());
    reader.reset().unwrap();
    assert_eq!(reader.read_batch(&bytes, 5).unwrap().len(), 3);
    let mut truncated = BinaryReader::new("short.bin");
    let cut = bytes[..bytes.len() - 2].to_vec();
    match truncated.read_batch(&cut, 5) {
        Err(RTDBError::Io(m)) => assert!(m.starts_with("Failed to read metadata length")),
        other => panic!("unexpected {:?}", other),
    }
    let mut bad = BinaryReader::new("bad.bin");
    match bad.read_batch(&b"XXXX".to_vec(), 1) {
        Err(RTDBError::Serialization(m)) => assert_eq!(m, "Invalid binary format magic"),
        other => panic!("unexpected {:?}", other),
    }
}
