//! The migration command line: its options and commands, the engine
//! configuration they give, and the sources and target a command names.

use vstd::prelude::*;
use crate::types::RTDBError;
use crate::migration::model::VectorRecord;
use crate::migration::simd::SimdMigrationConfig;

verus! {

/// A migration command: where from, where to, what, and whether to resume.
#[derive(Debug, Clone)]
pub enum MigrationCommand {
    Qdrant { from: String, to: String, collection: String, resume: bool },
    Milvus { from: String, to: String, collection: String, resume: bool },
    Weaviate { from: String, to: String, class: String, resume: bool },
    /// `from` is the path of the LanceDB directory.
    LanceDB { from: String, to: String, table: String, resume: bool },
}

/// The options of the migration tool.
#[derive(Debug, Clone)]
pub struct MigrationCli {
    pub command: MigrationCommand,
    /// Worker threads (0 picks one per CPU).
    pub workers: usize,
    pub batch_size: usize,
    /// Memory limit per worker, in MiB.
    pub memory_limit_mb: usize,
    pub enable_simd: bool,
    /// Records between checkpoints.
    pub checkpoint_interval: u64,
    pub max_retries: usize,
    pub verbose: bool,
}

impl MigrationCli {
    /// The engine configuration the options give: the memory limit in
    /// bytes, a 30-second operation timeout, the rest as given.
    pub fn simd_config(&self) -> (r: SimdMigrationConfig)
        requires
            self.memory_limit_mb * 1024 * 1024 <= usize::MAX,
        ensures
            r.worker_threads == self.workers,
            r.batch_size == self.batch_size,
            r.memory_limit_per_worker == self.memory_limit_mb * 1024 * 1024,
            r.enable_simd == self.enable_simd,
            r.checkpoint_interval == self.checkpoint_interval,
            r.max_retries == self.max_retries,
            r.operation_timeout_secs == 30,
    {
        SimdMigrationConfig {
            worker_threads: self.workers,
            batch_size: self.batch_size,
            memory_limit_per_worker: self.memory_limit_mb * 1024 * 1024,
            enable_simd: self.enable_simd,
            checkpoint_interval: self.checkpoint_interval,
            max_retries: self.max_retries,
            operation_timeout_secs: 30,
        }
    }
}

/// A Qdrant source.
#[derive(Debug)]
pub struct QdrantMigrationSource {
    pub collection_name: String,
    /// Where the next scroll starts, once one has been made.
    pub current_offset: Option<String>,
    pub batch_size: usize,
}

impl QdrantMigrationSource {
    /// A source reading `collection` from the Qdrant server at `url`, in
    /// batches of a thousand.
    pub fn new(url: &str, collection: &str) -> (r: Result<Self, RTDBError>)
        ensures
            r matches Ok(s) && s.collection_name@ == collection@ && s.current_offset is None && s.batch_size == 1000,
    {
        Ok(QdrantMigrationSource { collection_name: collection.to_owned(), current_offset: None, batch_size: 1000 })
    }

    /// The next record: this source has no reader yet, so none.
    pub fn next_record(&mut self) -> (r: Result<Option<VectorRecord>, RTDBError>)
        ensures
            r matches Ok(None),
    {
        Ok(None)
    }

    /// The number of records to migrate: this source reports none yet.
    pub fn total_count(&self) -> (r: Result<Option<u64>, RTDBError>)
        ensures
            r == Ok::<Option<u64>, RTDBError>(Some(0u64)),
    {
        Ok(Some(0))
    }
}

/// A Milvus source.
#[derive(Debug)]
pub struct MilvusMigrationSource {
    pub collection_name: String,
}

impl MilvusMigrationSource {
    /// A source reading `collection` from Milvus.
    pub fn new(url: &str, collection: &str) -> (r: Result<Self, RTDBError>)
        ensures
            r matches Ok(s) && s.collection_name@ == collection@,
    {
        Ok(MilvusMigrationSource { collection_name: collection.to_owned() })
    }

    /// The next record: this source has no reader yet, so none.
    pub fn next_record(&mut self) -> (r: Result<Option<VectorRecord>, RTDBError>)
        ensures
            r matches Ok(None),
    {
        Ok(None)
    }

    /// The number of records to migrate: this source reports none yet.
    pub fn total_count(&self) -> (r: Result<Option<u64>, RTDBError>)
        ensures
            r == Ok::<Option<u64>, RTDBError>(Some(0u64)),
    {
        Ok(Some(0))
    }
}

/// A Weaviate source.
#[derive(Debug)]
pub struct WeaviateMigrationSource {
    pub class_name: String,
}

impl WeaviateMigrationSource {
    /// A source reading class `class` from Weaviate.
    pub fn new(url: &str, class: &str) -> (r: Result<Self, RTDBError>)
        ensures
            r matches Ok(s) && s.class_name@ == class@,
    {
        Ok(WeaviateMigrationSource { class_name: class.to_owned() })
    }

    /// The next record: this source has no reader yet, so none.
    pub fn next_record(&mut self) -> (r: Result<Option<VectorRecord>, RTDBError>)
        ensures
            r matches Ok(None),
    {
        Ok(None)
    }

    /// The number of records to migrate: this source reports none yet.
    pub fn total_count(&self) -> (r: Result<Option<u64>, RTDBError>)
        ensures
            r == Ok::<Option<u64>, RTDBError>(Some(0u64)),
    {
        Ok(Some(0))
    }
}

/// A LanceDB source.
#[derive(Debug)]
pub struct LanceDbMigrationSource {
    pub table_name: String,
}

impl LanceDbMigrationSource {
    /// A source reading `table` of the LanceDB directory at `path`.
    pub fn new(path: &str, table: &str) -> (r: Result<Self, RTDBError>)
        ensures
            r matches Ok(s) && s.table_name@ == table@,
    {
        Ok(LanceDbMigrationSource { table_name: table.to_owned() })
    }

    /// The next record: this source has no reader yet, so none.
    pub fn next_record(&mut self) -> (r: Result<Option<VectorRecord>, RTDBError>)
        ensures
            r matches Ok(None),
    {
        Ok(None)
    }

    /// The number of records to migrate: this source reports none yet.
    pub fn total_count(&self) -> (r: Result<Option<u64>, RTDBError>)
        ensures
            r == Ok::<Option<u64>, RTDBError>(Some(0u64)),
    {
        Ok(Some(0))
    }
}

/// The RTDB collection a migration writes to.
#[derive(Debug, Clone)]
pub struct RtdbMigrationTarget {
    pub collection_name: String,
}

impl RtdbMigrationTarget {
    /// A target writing to `collection` of the RTDB server at `url`.
    pub fn new(url: &str, collection: &str) -> (r: Result<Self, RTDBError>)
        ensures
            r matches Ok(t) && t.collection_name@ == collection@,
    {
        Ok(RtdbMigrationTarget { collection_name: collection.to_owned() })
    }

    /// Writes a batch: this target has no writer yet and accepts any batch.
    pub fn write_batch(&self, records: &[VectorRecord]) -> (r: Result<(), RTDBError>)
        ensures
            r is Ok,
    {
        Ok(())
    }

    /// Flushes pending writes: there are none.
    pub fn flush(&self) -> (r: Result<(), RTDBError>)
        ensures
            r is Ok,
    {
        Ok(())
    }
}

} // verus!
