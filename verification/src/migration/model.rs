//! The migration model: sources, strategies, transformation rules and the
//! records that move.
//!
//! Vector components are kept as the bit patterns of their `f32` values.
//! Metadata is a list of fields with distinct names.

use vstd::prelude::*;
use crate::json::{Json, JsonValue, json_clone};
pub use crate::json::field_value;
use crate::types::fields_view;

verus! {

/// Where a migration reads from.
#[derive(Debug, Clone, Copy, PartialEq, Eq, Structural)]
pub enum SourceType {
    Qdrant,
    Milvus,
    Weaviate,
    Pinecone,
    LanceDB,
    Jsonl,
    Parquet,
    Hdf5,
    Csv,
    Binary,
}

/// The display name of a source type.
pub open spec fn source_type_name(s: SourceType) -> Seq<char> {
    match s {
        SourceType::Qdrant => "Qdrant"@,
        SourceType::Milvus => "Milvus"@,
        SourceType::Weaviate => "Weaviate"@,
        SourceType::Pinecone => "Pinecone"@,
        SourceType::LanceDB => "LanceDB"@,
        SourceType::Jsonl => "JSONL"@,
        SourceType::Parquet => "Parquet"@,
        SourceType::Hdf5 => "HDF5"@,
        SourceType::Csv => "CSV"@,
        SourceType::Binary => "Binary"@,
    }
}

impl SourceType {
    /// The display name.
    pub fn name(&self) -> (r: &'static str)
        ensures
            r@ == source_type_name(*self),
    {
        match self {
            SourceType::Qdrant => "Qdrant",
            SourceType::Milvus => "Milvus",
            SourceType::Weaviate => "Weaviate",
            SourceType::Pinecone => "Pinecone",
            SourceType::LanceDB => "LanceDB",
            SourceType::Jsonl => "JSONL",
            SourceType::Parquet => "Parquet",
            SourceType::Hdf5 => "HDF5",
            SourceType::Csv => "CSV",
            SourceType::Binary => "Binary",
        }
    }
}

/// How a migration moves data.
#[derive(Debug, Clone, Copy, PartialEq, Eq, Structural)]
pub enum MigrationStrategy {
    Stream,
    DualWrite,
    BlueGreen,
    Snapshot,
}

/// Credentials for a source or target.
#[derive(Debug, Clone)]
pub enum AuthConfig {
    ApiKey(String),
    Bearer(String),
    Basic { username: String, password: String },
    /// Header name and value pairs.
    Headers(Vec<(String, String)>),
}

/// A type conversion of a metadata field.
#[derive(Debug, Clone, Copy, PartialEq, Eq, Structural)]
pub enum ConversionType {
    StringToNumber,
    NumberToString,
    ArrayToString,
    StringToArray,
}

/// A condition on a metadata field.
#[derive(Debug, Clone)]
pub enum FilterCondition {
    Exists,
    NotNull,
    MinLength(usize),
    MaxLength(usize),
    Regex(String),
}

/// A transformation applied to each migrated record.
#[derive(Debug, Clone)]
pub enum TransformationRule {
    /// Truncate vectors of `from_dimension` components to `to_dimension`.
    DimensionReduction { from_dimension: usize, to_dimension: usize, method: String },
    /// Filter records by a metadata query (applied per batch).
    MetadataFilter { query: String },
    /// Rename a metadata field.
    FieldRename { field: String, new_name: String },
    /// Map a string field's value through a lookup table.
    FieldMap { field: String, mapping: Vec<(String, String)> },
    /// Convert a field's type.
    FieldConvert { field: String, conversion: ConversionType },
    /// Filter records by a field condition (applied per batch).
    FieldFilter { field: String, condition: FilterCondition },
}

/// A transformation operation.
#[derive(Debug, Clone)]
pub enum TransformOperation {
    Rename(String),
    ValueMap(Vec<(String, String)>),
    Convert(ConversionType),
    Filter(FilterCondition),
}

/// What to check of each record.
#[derive(Debug, Clone)]
pub struct ValidationConfig {
    pub validate_vectors: bool,
    pub validate_metadata: bool,
    pub check_duplicates: bool,
    /// The dimension every vector must have, if any.
    pub vector_dimension: Option<usize>,
    /// Metadata fields every record must have.
    pub required_fields: Vec<String>,
}

impl Default for ValidationConfig {
    fn default() -> (r: Self)
        ensures
            r.validate_vectors,
            r.validate_metadata,
            !r.check_duplicates,
            r.vector_dimension is None,
            r.required_fields@.len() == 0,
    {
        ValidationConfig {
            validate_vectors: true,
            validate_metadata: true,
            check_duplicates: false,
            vector_dimension: None,
            required_fields: Vec::new(),
        }
    }
}

/// The state of a migration.
#[derive(Debug, Clone, Copy, PartialEq, Eq, Structural)]
pub enum MigrationStatus {
    Pending,
    Running,
    Paused,
    Completed,
    Failed,
    Cancelled,
}

/// Whether a migration in this state can be resumed: only failed or
/// cancelled ones can.
pub fn can_resume(status: MigrationStatus) -> (r: bool)
    ensures
        r == (status == MigrationStatus::Failed || status == MigrationStatus::Cancelled),
{
    match status {
        MigrationStatus::Failed | MigrationStatus::Cancelled => true,
        _ => false,
    }
}

/// A migrated record.
#[derive(Debug)]
pub struct VectorRecord {
    pub id: String,
    /// Component bit patterns.
    pub vector: Vec<u32>,
    /// Metadata fields, distinct names.
    pub metadata: Vec<(String, JsonValue)>,
}

/// The mathematical form of a record: identifier, components, fields.
pub open spec fn record_view(r: VectorRecord) -> (Seq<char>, Seq<u32>, Seq<(Seq<char>, Json)>) {
    (r.id@, r.vector@, fields_view(r.metadata@))
}

/// A copy of a metadata list.
pub fn fields_clone(fields: &Vec<(String, JsonValue)>) -> (r: Vec<(String, JsonValue)>)
    ensures
        fields_view(r@) == fields_view(fields@),
{
    let mut out: Vec<(String, JsonValue)> = Vec::new();
    let mut i: usize = 0;
    while i < fields.len()
        invariant
            i <= fields@.len(),
            out@.len() == i,
            forall|j: int| 0 <= j < i ==> out@[j].0@ == fields@[j].0@ && out@[j].1@ == fields@[j].1@,
        decreases fields@.len() - i,
    {
        out.push((fields[i].0.clone(), json_clone(&fields[i].1)));
        i += 1;
    }
    assert(fields_view(out@) =~= fields_view(fields@));
    out
}

impl VectorRecord {
    /// A copy of the record.
    pub fn copy(&self) -> (r: VectorRecord)
        ensures
            record_view(r) == record_view(*self),
    {
        let vector = self.vector.clone();
        assert(vector@ =~= self.vector@);
        VectorRecord { id: self.id.clone(), vector, metadata: fields_clone(&self.metadata) }
    }
}

/// The names of the fields.
pub open spec fn field_names(fields: Seq<(Seq<char>, Json)>) -> Seq<Seq<char>> {
    fields.map_values(|f: (Seq<char>, Json)| f.0)
}

/// The position of field `name`, if present.
pub fn find_field(fields: &Vec<(String, JsonValue)>, name: &str) -> (r: Option<usize>)
    ensures
        match r {
            Some(i) => i < fields@.len() && fields@[i as int].0@ == name@
                && forall|j: int| 0 <= j < i ==> fields@[j].0@ != name@,
            None => forall|j: int| 0 <= j < fields@.len() ==> fields@[j].0@ != name@,
        },
{
    let target = name.to_owned();
    let mut i: usize = 0;
    while i < fields.len()
        invariant
            i <= fields@.len(),
            target@ == name@,
            forall|j: int| 0 <= j < i ==> fields@[j].0@ != name@,
        decreases fields@.len() - i,
    {
        if fields[i].0 == target {
            return Some(i);
        }
        i += 1;
    }
    None
}


/// The configuration of a migration.
#[derive(Debug, Clone)]
pub struct MigrationConfig {
    /// The migration's UUID.
    pub id: u128,
    pub source_type: SourceType,
    /// Connection URL or file path of the source.
    pub source_url: String,
    pub target_url: String,
    pub source_collection: Option<String>,
    pub target_collection: String,
    pub batch_size: usize,
    pub max_concurrency: usize,
    pub dry_run: bool,
    pub resume: bool,
    pub checkpoint_dir: String,
    pub strategy: MigrationStrategy,
    pub source_auth: Option<AuthConfig>,
    pub target_auth: Option<AuthConfig>,
    pub transformations: Vec<TransformationRule>,
    pub validation: ValidationConfig,
}

impl Default for MigrationConfig {
    /// A streaming migration from Qdrant to a local server, in batches of a
    /// thousand, four at a time, with a fresh identifier.
    fn default() -> (r: Self)
        ensures
            r.source_type == SourceType::Qdrant,
            r.source_url@.len() == 0,
            r.target_url@ == "http://localhost:6333"@,
            r.source_collection is None,
            r.target_collection@ == "migrated_collection"@,
            r.batch_size == 1000,
            r.max_concurrency == 4,
            !r.dry_run,
            !r.resume,
            r.checkpoint_dir@ == "./checkpoints"@,
            r.strategy == MigrationStrategy::Stream,
            r.source_auth is None,
            r.target_auth is None,
            r.transformations@.len() == 0,
            r.validation.validate_vectors,
            r.validation.validate_metadata,
            !r.validation.check_duplicates,
            r.validation.vector_dimension is None,
            r.validation.required_fields@.len() == 0,
    {
        MigrationConfig {
            id: crate::random::new_uuid(),
            source_type: SourceType::Qdrant,
            source_url: String::new(),
            target_url: "http://localhost:6333".to_owned(),
            source_collection: None,
            target_collection: "migrated_collection".to_owned(),
            batch_size: 1000,
            max_concurrency: 4,
            dry_run: false,
            resume: false,
            checkpoint_dir: "./checkpoints".to_owned(),
            strategy: MigrationStrategy::Stream,
            source_auth: None,
            target_auth: None,
            transformations: Vec::new(),
            validation: ValidationConfig::default(),
        }
    }
}

/// The name of a migration strategy.
pub open spec fn strategy_name(s: MigrationStrategy) -> Seq<char> {
    match s {
        MigrationStrategy::Stream => "streaming"@,
        MigrationStrategy::DualWrite => "dual-write"@,
        MigrationStrategy::BlueGreen => "blue-green"@,
        MigrationStrategy::Snapshot => "snapshot"@,
    }
}

/// The name of the strategy a configuration selects.
pub fn select_strategy(config: &MigrationConfig) -> (r: Result<&'static str, crate::types::RTDBError>)
    ensures
        r matches Ok(name) && name@ == strategy_name(config.strategy),
{
    match config.strategy {
        MigrationStrategy::Stream => Ok("streaming"),
        MigrationStrategy::DualWrite => Ok("dual-write"),
        MigrationStrategy::BlueGreen => Ok("blue-green"),
        MigrationStrategy::Snapshot => Ok("snapshot"),
    }
}


} // verus!
