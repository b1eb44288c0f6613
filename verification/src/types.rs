//! The database's error type and its collection, index and filter
//! configuration types.

use vstd::prelude::*;
use crate::text::{decimal, push_decimal};
use crate::json::{Json, JsonValue, json_clone};

verus! {

/// Errors of the database and its tooling.
#[derive(Debug, Clone, PartialEq, Eq)]
pub enum RTDBError {
    Storage(String),
    Index(String),
    Query(String),
    CollectionNotFound(String),
    VectorNotFound(u64),
    InvalidDimension { expected: usize, actual: usize },
    Io(String),
    Consensus(String),
    Configuration(String),
    Serialization(String),
    Auth(String),
    Authorization(String),
    Config(String),
    Validation(String),
    Network(String),
    Migration(String),
    ComputationError(String),
    InvalidInput(String),
    Internal(String),
    InvalidConfiguration(String),
    ConnectionError(String),
    ApiError(String),
}

/// The human-readable message of an error.
pub open spec fn error_message(e: RTDBError) -> Seq<char> {
    match e {
        RTDBError::Storage(s) => "Storage error: "@ + s@,
        RTDBError::Index(s) => "Index error: "@ + s@,
        RTDBError::Query(s) => "Query error: "@ + s@,
        RTDBError::CollectionNotFound(s) => "Collection not found: "@ + s@,
        RTDBError::VectorNotFound(id) => "Vector not found: "@ + decimal(id as nat),
        RTDBError::InvalidDimension { expected, actual } =>
            "Invalid vector dimension: expected "@ + decimal(expected as nat) + ", got "@ + decimal(actual as nat),
        RTDBError::Io(s) => "IO error: "@ + s@,
        RTDBError::Consensus(s) => "Consensus error: "@ + s@,
        RTDBError::Configuration(s) => "Configuration error: "@ + s@,
        RTDBError::Serialization(s) => "Serialization error: "@ + s@,
        RTDBError::Auth(s) => "Authentication error: "@ + s@,
        RTDBError::Authorization(s) => "Authorization error: "@ + s@,
        RTDBError::Config(s) => "Configuration error: "@ + s@,
        RTDBError::Validation(s) => "Validation error: "@ + s@,
        RTDBError::Network(s) => "Network error: "@ + s@,
        RTDBError::Migration(s) => "Migration error: "@ + s@,
        RTDBError::ComputationError(s) => "Computation error: "@ + s@,
        RTDBError::InvalidInput(s) => "Invalid input: "@ + s@,
        RTDBError::Internal(s) => "Internal error: "@ + s@,
        RTDBError::InvalidConfiguration(s) => "Invalid configuration: "@ + s@,
        RTDBError::ConnectionError(s) => "Connection error: "@ + s@,
        RTDBError::ApiError(s) => "API error: "@ + s@,
    }
}

/// `prefix` followed by `text`.
fn prefixed(prefix: &str, text: &String) -> (r: String)
    ensures
        r@ == prefix@ + text@,
{
    let mut s = prefix.to_owned();
    s.append(text.as_str());
    s
}

impl RTDBError {
    /// The error's message.
    pub fn message(&self) -> (r: String)
        ensures
            r@ == error_message(*self),
    {
        match self {
            RTDBError::Storage(s) => prefixed("Storage error: ", s),
            RTDBError::Index(s) => prefixed("Index error: ", s),
            RTDBError::Query(s) => prefixed("Query error: ", s),
            RTDBError::CollectionNotFound(s) => prefixed("Collection not found: ", s),
            RTDBError::VectorNotFound(id) => {
                let mut m = "Vector not found: ".to_owned();
                push_decimal(&mut m, *id);
                m
            },
            RTDBError::InvalidDimension { expected, actual } => {
                let mut m = "Invalid vector dimension: expected ".to_owned();
                push_decimal(&mut m, *expected as u64);
                m.append(", got ");
                push_decimal(&mut m, *actual as u64);
                m
            },
            RTDBError::Io(s) => prefixed("IO error: ", s),
            RTDBError::Consensus(s) => prefixed("Consensus error: ", s),
            RTDBError::Configuration(s) => prefixed("Configuration error: ", s),
            RTDBError::Serialization(s) => prefixed("Serialization error: ", s),
            RTDBError::Auth(s) => prefixed("Authentication error: ", s),
            RTDBError::Authorization(s) => prefixed("Authorization error: ", s),
            RTDBError::Config(s) => prefixed("Configuration error: ", s),
            RTDBError::Validation(s) => prefixed("Validation error: ", s),
            RTDBError::Network(s) => prefixed("Network error: ", s),
            RTDBError::Migration(s) => prefixed("Migration error: ", s),
            RTDBError::ComputationError(s) => prefixed("Computation error: ", s),
            RTDBError::InvalidInput(s) => prefixed("Invalid input: ", s),
            RTDBError::Internal(s) => prefixed("Internal error: ", s),
            RTDBError::InvalidConfiguration(s) => prefixed("Invalid configuration: ", s),
            RTDBError::ConnectionError(s) => prefixed("Connection error: ", s),
            RTDBError::ApiError(s) => prefixed("API error: ", s),
        }
    }
}

/// A storage error carrying the message of whatever failed.
pub fn into_storage_error(message: String) -> (r: RTDBError)
    ensures
        r == RTDBError::Storage(message),
{
    RTDBError::Storage(message)
}

/// Distance metric for vector comparison.
#[derive(Debug, Clone, Copy, PartialEq, Eq, Structural)]
pub enum Distance {
    Euclidean,
    Cosine,
    Dot,
    Manhattan,
}

/// HNSW index configuration.
#[derive(Debug, Clone, Copy, PartialEq, Eq, Structural)]
pub struct HnswConfig {
    /// Edges per node.
    pub m: usize,
    /// Candidate list size while building.
    pub ef_construct: usize,
    /// Candidate list size while searching.
    pub ef: usize,
    pub num_layers: Option<usize>,
}

impl Default for HnswConfig {
    fn default() -> (r: Self)
        ensures
            r == (HnswConfig { m: 16, ef_construct: 100, ef: 10, num_layers: None }),
    {
        HnswConfig { m: 16, ef_construct: 100, ef: 10, num_layers: None }
    }
}

/// Product quantization compression ratio.
#[derive(Debug, Clone, Copy, PartialEq, Eq, Structural)]
pub enum PQCompressionRatio {
    X4,
    X8,
    X16,
    X32,
    X64,
}

/// Product quantization configuration.
#[derive(Debug, Clone, Copy, PartialEq, Eq, Structural)]
pub struct ProductQuantization {
    pub compression: PQCompressionRatio,
    pub always_ram: bool,
}

/// Binary quantization configuration.
#[derive(Debug, Clone, Copy, PartialEq, Eq, Structural)]
pub struct BinaryQuantization {
    pub always_ram: bool,
}

/// Optimizer configuration.
#[derive(Debug, Clone, Copy, PartialEq, Eq, Structural)]
pub struct OptimizerConfig {
    /// Minimum segment size in bytes.
    pub indexing_threshold: usize,
    /// Number of vectors between flushes.
    pub memmap_threshold: Option<usize>,
}

impl Default for OptimizerConfig {
    fn default() -> (r: Self)
        ensures
            r == (OptimizerConfig { indexing_threshold: 20_000, memmap_threshold: None }),
    {
        OptimizerConfig { indexing_threshold: 20_000, memmap_threshold: None }
    }
}

/// Which payload fields a search returns.
#[derive(Debug, Clone)]
pub enum WithPayload {
    Bool(bool),
    Include(Vec<String>),
    Exclude(Vec<String>),
}

/// A value to match exactly.
#[derive(Debug, Clone)]
pub enum MatchValue {
    Keyword(String),
    Integer(i64),
}

/// Match by integer.
#[derive(Debug, Clone, Copy, PartialEq, Eq, Structural)]
pub struct MatchInteger {
    pub integer: i64,
}

/// Match by text.
#[derive(Debug, Clone)]
pub struct MatchText {
    pub text: String,
}

/// Match by vector identifier.
#[derive(Debug, Clone)]
pub struct HasIdCondition {
    pub has_id: Vec<u64>,
}

/// Quantized search rescores with the original vectors unless told
/// otherwise.
pub fn default_rescore() -> (r: bool)
    ensures
        r,
{
    true
}

/// A vector's components, as the bit patterns of their `f32` values, with
/// an optional JSON object of metadata.
#[derive(Debug, Clone)]
pub struct Vector {
    pub data: Vec<u32>,
    pub payload: Option<Vec<(String, JsonValue)>>,
}

/// The mathematical form of a JSON object's fields.
pub open spec fn fields_view(fields: Seq<(String, JsonValue)>) -> Seq<(Seq<char>, Json)> {
    fields.map_values(|f: (String, JsonValue)| (f.0@, f.1@))
}

/// The mathematical form of an optional JSON object.
pub open spec fn payload_view(p: Option<Vec<(String, JsonValue)>>) -> Option<Seq<(Seq<char>, Json)>> {
    match p {
        Some(fields) => Some(fields_view(fields@)),
        None => None,
    }
}

/// A copy of an optional JSON object.
pub fn payload_clone(p: &Option<Vec<(String, JsonValue)>>) -> (r: Option<Vec<(String, JsonValue)>>)
    ensures
        payload_view(r) == payload_view(*p),
{
    match p {
        Some(fields) => {
            let mut out: Vec<(String, JsonValue)> = Vec::new();
            let mut i: usize = 0;
            while i < fields.len()
                invariant
                    i <= fields@.len(),
                    out@.len() == i,
                    forall|j: int| 0 <= j < i ==> out@[j].0@ == fields@[j].0@ && out@[j].1@ == fields@[j].1@,
                decreases fields@.len() - i,
            {
                out.push((fields[i].0.clone(), json_clone(&fields[i].1)));
                i += 1;
            }
            assert(fields_view(out@) =~= fields_view(fields@));
            Some(out)
        },
        None => None,
    }
}

impl Vector {
    /// A vector without metadata.
    pub fn new(data: Vec<u32>) -> (r: Self)
        ensures
            r.data@ == data@,
            r.payload is None,
    {
        Vector { data, payload: None }
    }

    /// A vector with metadata.
    pub fn with_payload(data: Vec<u32>, payload: Vec<(String, JsonValue)>) -> (r: Self)
        ensures
            r.data@ == data@,
            payload_view(r.payload) == Some(fields_view(payload@)),
    {
        Vector { data, payload: Some(payload) }
    }

    /// The number of components.
    pub fn dim(&self) -> (r: usize)
        ensures
            r == self.data@.len(),
    {
        self.data.len()
    }
}

} // verus!
