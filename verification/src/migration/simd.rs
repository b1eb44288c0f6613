//! The bookkeeping of the batch migration engine: its configuration,
//! progress counters, batches and summary.
//!
//! Vector components are the bit patterns of `f32` values; the arithmetic
//! on them (normalising, quantising, similarities) is the caller's part.

use vstd::prelude::*;
use std::time::Duration;
use crate::types::Vector;
use crate::migration::model::{VectorRecord, record_view};
use crate::migration::progress::{whole_seconds, duration_as_secs};

verus! {

/// How the engine runs.
#[derive(Debug, Clone)]
pub struct SimdMigrationConfig {
    /// Worker threads; 0 picks one per available CPU.
    pub worker_threads: usize,
    pub batch_size: usize,
    /// Bytes a worker's batch may take before it is quantised.
    pub memory_limit_per_worker: usize,
    pub enable_simd: bool,
    /// Records between checkpoints.
    pub checkpoint_interval: u64,
    pub max_retries: usize,
    pub operation_timeout_secs: u64,
}

impl Default for SimdMigrationConfig {
    fn default() -> (r: Self)
        ensures
            r.worker_threads == 0,
            r.batch_size == 1024,
            r.memory_limit_per_worker == 512 * 1024 * 1024,
            r.enable_simd,
            r.checkpoint_interval == 100_000,
            r.max_retries == 3,
            r.operation_timeout_secs == 30,
    {
        SimdMigrationConfig {
            worker_threads: 0,
            batch_size: 1024,
            memory_limit_per_worker: 512 * 1024 * 1024,
            enable_simd: true,
            checkpoint_interval: 100_000,
            max_retries: 3,
            operation_timeout_secs: 30,
        }
    }
}

/// The number of CPUs the process may use, as num_cpus's `get` reports it;
/// its documentation promises at least one. How many is the machine's.
#[verifier::external_body]
fn available_cpus() -> (r: usize)
    ensures
        r >= 1,
{
    num_cpus::get()
}

/// The number of workers the engine runs: as configured, or one per
/// available CPU when the configuration says 0.
pub fn worker_count(config: &SimdMigrationConfig) -> (r: usize)
    ensures
        config.worker_threads != 0 ==> r == config.worker_threads,
        config.worker_threads == 0 ==> r >= 1,
{
    if config.worker_threads == 0 {
        available_cpus()
    } else {
        config.worker_threads
    }
}

/// The counters of a running migration. Counters wrap around on overflow.
#[derive(Debug)]
pub struct MigrationProgress {
    pub total_records: u64,
    pub migrated_records: u64,
    pub failed_records: u64,
    /// Records per second.
    pub migration_rate: u64,
    pub bytes_processed: u64,
}

impl MigrationProgress {
    /// Progress of a migration of `total_records`, nothing done yet.
    pub fn new(total_records: u64) -> (r: Self)
        ensures
            r.total_records == total_records,
            r.migrated_records == 0,
            r.failed_records == 0,
            r.migration_rate == 0,
            r.bytes_processed == 0,
    {
        MigrationProgress { total_records, migrated_records: 0, failed_records: 0, migration_rate: 0, bytes_processed: 0 }
    }

    /// Counts `count` more migrated records.
    pub fn increment_migrated(&mut self, count: u64)
        ensures
            final(self).migrated_records == old(self).migrated_records.wrapping_add(count),
            final(self).total_records == old(self).total_records,
            final(self).failed_records == old(self).failed_records,
            final(self).migration_rate == old(self).migration_rate,
            final(self).bytes_processed == old(self).bytes_processed,
    {
        self.migrated_records = self.migrated_records.wrapping_add(count);
    }

    /// Counts `count` more failed records.
    pub fn increment_failed(&mut self, count: u64)
        ensures
            final(self).failed_records == old(self).failed_records.wrapping_add(count),
            final(self).total_records == old(self).total_records,
            final(self).migrated_records == old(self).migrated_records,
            final(self).migration_rate == old(self).migration_rate,
            final(self).bytes_processed == old(self).bytes_processed,
    {
        self.failed_records = self.failed_records.wrapping_add(count);
    }

    /// Records the current rate.
    pub fn update_rate(&mut self, rate: u64)
        ensures
            final(self).migration_rate == rate,
            final(self).total_records == old(self).total_records,
            final(self).migrated_records == old(self).migrated_records,
            final(self).failed_records == old(self).failed_records,
            final(self).bytes_processed == old(self).bytes_processed,
    {
        self.migration_rate = rate;
    }
}

/// A batch of vectors with their records, on its way from one collection
/// to another.
#[derive(Debug)]
pub struct SimdVectorBatch {
    pub vectors: Vec<Vector>,
    pub metadata: Vec<VectorRecord>,
    pub batch_id: u64,
    pub source_collection: String,
    pub target_collection: String,
}

/// The bytes the components of the vectors take, four per component.
pub open spec fn components_bytes(vs: Seq<Vector>) -> int
    decreases vs.len(),
{
    if vs.len() == 0 {
        0
    } else {
        components_bytes(vs.drop_last()) + 4 * vs.last().data@.len()
    }
}

/// The bytes a batch takes: its components, and a record's size per record.
pub open spec fn batch_memory(b: SimdVectorBatch) -> int {
    components_bytes(b.vectors@) + b.metadata@.len() * vstd::layout::size_of::<VectorRecord>()
}

proof fn lemma_components_bytes_prefix(vs: Seq<Vector>, i: int)
    requires
        0 <= i <= vs.len(),
    ensures
        components_bytes(vs.take(i)) <= components_bytes(vs),
    decreases vs.len() - i,
{
    if i < vs.len() {
        lemma_components_bytes_prefix(vs, i + 1);
        assert(vs.take(i + 1).drop_last() =~= vs.take(i));
    } else {
        assert(vs.take(i) =~= vs);
    }
}

impl SimdVectorBatch {
    /// An empty batch.
    pub fn new(batch_id: u64, source_collection: String, target_collection: String) -> (r: Self)
        ensures
            r.vectors@.len() == 0,
            r.metadata@.len() == 0,
            r.batch_id == batch_id,
            r.source_collection@ == source_collection@,
            r.target_collection@ == target_collection@,
    {
        SimdVectorBatch { vectors: Vec::new(), metadata: Vec::new(), batch_id, source_collection, target_collection }
    }

    /// Adds a vector with its record.
    pub fn add_vector(&mut self, vector: Vector, record: VectorRecord)
        ensures
            final(self).vectors@ == old(self).vectors@.push(vector),
            final(self).metadata@ == old(self).metadata@.push(record),
            final(self).batch_id == old(self).batch_id,
            final(self).source_collection == old(self).source_collection,
            final(self).target_collection == old(self).target_collection,
    {
        self.vectors.push(vector);
        self.metadata.push(record);
    }

    /// The number of vectors.
    pub fn len(&self) -> (r: usize)
        ensures
            r == self.vectors@.len(),
    {
        self.vectors.len()
    }

    /// Whether there are no vectors.
    pub fn is_empty(&self) -> (r: bool)
        ensures
            r == (self.vectors@.len() == 0),
    {
        self.vectors.len() == 0
    }

    /// The bytes the batch takes.
    pub fn memory_usage(&self) -> (r: usize)
        requires
            batch_memory(*self) <= usize::MAX,
        ensures
            r == batch_memory(*self),
    {
        let record_size = core::mem::size_of::<VectorRecord>();
        proof {
            lemma_components_bytes_prefix(self.vectors@, 0);
            assert(self.vectors@.take(0) =~= Seq::<Vector>::empty());
            assert(self.metadata@.len() * record_size <= batch_memory(*self)) by (nonlinear_arith)
                requires
                    record_size == vstd::layout::size_of::<VectorRecord>(),
                    batch_memory(*self) == components_bytes(self.vectors@) + self.metadata@.len() * vstd::layout::size_of::<VectorRecord>(),
                    components_bytes(self.vectors@) >= 0;
        }
        let mut total: usize = 0;
        let mut i: usize = 0;
        while i < self.vectors.len()
            invariant
                i <= self.vectors@.len(),
                batch_memory(*self) <= usize::MAX,
                total == components_bytes(self.vectors@.take(i as int)),
                components_bytes(self.vectors@) <= batch_memory(*self),
            decreases self.vectors@.len() - i,
        {
            assert(self.vectors@.take(i + 1).drop_last() =~= self.vectors@.take(i as int));
            proof {
                lemma_components_bytes_prefix(self.vectors@, i + 1);
            }
            total = total + 4 * self.vectors[i].data.len();
            i += 1;
        }
        assert(self.vectors@.take(self.vectors@.len() as int) =~= self.vectors@);
        total + self.metadata.len() * record_size
    }

    /// Whether processing quantises the batch: with SIMD on, when it takes
    /// more than a worker's memory limit.
    pub fn needs_quantization(&self, config: &SimdMigrationConfig) -> (r: bool)
        requires
            batch_memory(*self) <= usize::MAX,
        ensures
            r == (config.enable_simd && batch_memory(*self) > config.memory_limit_per_worker),
    {
        config.enable_simd && self.memory_usage() > config.memory_limit_per_worker
    }
}

/// The whole milliseconds of a duration (what `Duration::as_millis` returns).
pub uninterp spec fn whole_millis(d: Duration) -> u128;

/// The whole milliseconds of a duration (std's `Duration::as_millis`).
#[verifier::external_body]
fn duration_as_millis(d: &Duration) -> (r: u128)
    ensures
        r == whole_millis(*d),
{
    d.as_millis()
}

/// The records per second of a batch of `batch_size` processed in
/// `elapsed`: by whole milliseconds, or the batch size when under a
/// millisecond.
pub fn processing_rate(batch_size: u64, elapsed: Duration) -> (r: u64)
    requires
        batch_size * 1000 <= u64::MAX,
    ensures
        r as int == if whole_millis(elapsed) > 0 {
            (batch_size * 1000) as int / whole_millis(elapsed) as int
        } else {
            batch_size as int
        },
{
    let millis = duration_as_millis(&elapsed);
    if millis == 0 {
        batch_size
    } else if millis > u64::MAX as u128 {
        // more milliseconds than any batch's records times a thousand
        proof {
            let a: int = (batch_size * 1000) as int;
            let m: int = millis as int;
            assert(a / m == 0) by (nonlinear_arith)
                requires
                    0 <= a < m,
            ;
        }
        0
    } else {
        (batch_size * 1000) / (millis as u64)
    }
}

/// What a migration amounted to.
#[derive(Debug)]
pub struct MigrationSummary {
    pub total_records: u64,
    pub migrated_records: u64,
    pub failed_records: u64,
    pub bytes_processed: u64,
    pub duration: Duration,
    /// Migrated records per whole second.
    pub average_rate: u64,
}

/// The summary of a migration that reached `progress` in `duration`: the
/// records migrated and failed, their sum, the bytes, and the migrated
/// records per whole second (0 under a second).
pub fn summarize(progress: &MigrationProgress, duration: Duration) -> (r: MigrationSummary)
    requires
        progress.migrated_records + progress.failed_records <= u64::MAX,
    ensures
        r.total_records == progress.migrated_records + progress.failed_records,
        r.migrated_records == progress.migrated_records,
        r.failed_records == progress.failed_records,
        r.bytes_processed == progress.bytes_processed,
        r.duration == duration,
        r.average_rate == if whole_seconds(duration) > 0 {
            progress.migrated_records / whole_seconds(duration)
        } else {
            0
        },
{
    let secs = duration_as_secs(&duration);
    let migrated = progress.migrated_records;
    let failed = progress.failed_records;
    MigrationSummary {
        total_records: migrated + failed,
        migrated_records: migrated,
        failed_records: failed,
        bytes_processed: progress.bytes_processed,
        duration,
        average_rate: if secs > 0 { migrated / secs } else { 0 },
    }
}

/// The engine's record of the last checkpoint position.
#[derive(Debug)]
pub struct CheckpointManager {
    pub last_checkpoint: u64,
}

impl CheckpointManager {
    /// No checkpoint yet.
    pub fn new() -> (r: Self)
        ensures
            r.last_checkpoint == 0,
    {
        CheckpointManager { last_checkpoint: 0 }
    }

    /// Records a checkpoint at `position`.
    pub fn create_checkpoint(&mut self, position: u64) -> (r: Result<(), crate::types::RTDBError>)
        ensures
            r is Ok,
            final(self).last_checkpoint == position,
    {
        self.last_checkpoint = position;
        Ok(())
    }
}

} // verus!
