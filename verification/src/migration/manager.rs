//! The registry of migrations and their progress: starting, status
//! changes, counts, cancelling and resuming. Running a migration is the
//! caller's part; it reports here.
//!
//! Times are milliseconds since the Unix epoch. Throughput and estimated
//! completion are floating-point figures the caller derives from the
//! counts and times kept here.

use vstd::prelude::*;
use crate::types::RTDBError;
use crate::migration::model::{MigrationConfig, MigrationStatus, SourceType};
use crate::migration::checkpoint::CheckpointManager;

verus! {

/// The progress of one migration.
#[derive(Debug, Clone)]
pub struct MigrationProgress {
    pub id: u128,
    pub status: MigrationStatus,
    pub source_type: SourceType,
    pub target_collection: String,
    pub total_records: Option<u64>,
    pub processed_records: u64,
    pub failed_records: u64,
    pub current_batch: u64,
    pub start_time: i64,
    pub last_update: i64,
    pub error_messages: Vec<String>,
}

/// What the registry keeps of a migration's progress.
pub struct ProgressView {
    pub status: MigrationStatus,
    pub source_type: SourceType,
    pub target_collection: Seq<char>,
    pub total_records: Option<u64>,
    pub processed_records: u64,
    pub failed_records: u64,
    pub current_batch: u64,
    pub start_time: i64,
    pub last_update: i64,
    pub error_count: nat,
}

/// The mathematical form of a migration's progress.
pub open spec fn progress_view(p: MigrationProgress) -> ProgressView {
    ProgressView {
        status: p.status,
        source_type: p.source_type,
        target_collection: p.target_collection@,
        total_records: p.total_records,
        processed_records: p.processed_records,
        failed_records: p.failed_records,
        current_batch: p.current_batch,
        start_time: p.start_time,
        last_update: p.last_update,
        error_count: p.error_messages@.len(),
    }
}

/// The progress of migrations, by identifier.
pub open spec fn progress_map(ps: Seq<MigrationProgress>) -> Map<u128, ProgressView> {
    Map::new(
        |id: u128| exists|i: int| 0 <= i < ps.len() && ps[i].id == id,
        |id: u128| progress_view(ps[choose|i: int| 0 <= i < ps.len() && ps[i].id == id]),
    )
}

/// Whether no two entries share an identifier.
pub open spec fn distinct_ids(ps: Seq<MigrationProgress>) -> bool {
    forall|i: int, j: int| 0 <= i < j < ps.len() ==> ps[i].id != ps[j].id
}

/// The progress after a status change at `now` (nothing for an unknown
/// migration).
pub open spec fn with_status(m: Map<u128, ProgressView>, id: u128, status: MigrationStatus, now: i64) -> Map<u128, ProgressView> {
    if m.contains_key(id) {
        m.insert(id, ProgressView { status, last_update: now, ..m[id] })
    } else {
        m
    }
}

/// A copy of a migration's progress.
fn copy_progress(p: &MigrationProgress) -> (r: MigrationProgress)
    ensures
        r.id == p.id,
        progress_view(r) == progress_view(*p),
{
    let mut messages: Vec<String> = Vec::new();
    let mut i: usize = 0;
    while i < p.error_messages.len()
        invariant
            i <= p.error_messages@.len(),
            messages@.len() == i,
        decreases p.error_messages@.len() - i,
    {
        messages.push(p.error_messages[i].clone());
        i += 1;
    }
    MigrationProgress {
        id: p.id,
        status: p.status,
        source_type: p.source_type,
        target_collection: p.target_collection.clone(),
        total_records: p.total_records,
        processed_records: p.processed_records,
        failed_records: p.failed_records,
        current_batch: p.current_batch,
        start_time: p.start_time,
        last_update: p.last_update,
        error_messages: messages,
    }
}

/// The registry of migrations.
pub struct MigrationManager {
    active_migrations: Vec<MigrationProgress>,
    checkpoint_manager: CheckpointManager,
}

/// Where the entry for `id` is, given distinct identifiers.
proof fn lemma_entry_at(ps: Seq<MigrationProgress>, i: int)
    requires
        distinct_ids(ps),
        0 <= i < ps.len(),
    ensures
        progress_map(ps).contains_key(ps[i].id),
        progress_map(ps)[ps[i].id] == progress_view(ps[i]),
{
    let k = choose|k: int| 0 <= k < ps.len() && ps[k].id == ps[i].id;
    assert(ps[k].id == ps[i].id);
    if k != i {
        if k < i {
            assert(ps[k].id != ps[i].id);
        } else {
            assert(ps[i].id != ps[k].id);
        }
    }
}

/// Replacing the entry at `i` by one with the same identifier.
proof fn lemma_replace_entry(ps: Seq<MigrationProgress>, i: int, p: MigrationProgress)
    requires
        distinct_ids(ps),
        0 <= i < ps.len(),
        p.id == ps[i].id,
    ensures
        distinct_ids(ps.update(i, p)),
        progress_map(ps.update(i, p)) == progress_map(ps).insert(p.id, progress_view(p)),
{
    let t = ps.update(i, p);
    assert(distinct_ids(t)) by {
        assert forall|a: int, b: int| 0 <= a < b < t.len() implies t[a].id != t[b].id by {
            assert(ps[a].id != ps[b].id);
        }
    }
    assert forall|id: u128| #![auto] progress_map(t).contains_key(id) == progress_map(ps).insert(p.id, progress_view(p)).contains_key(id) by {
        if progress_map(ps).contains_key(id) {
            let k = choose|k: int| 0 <= k < ps.len() && ps[k].id == id;
            assert(t[k].id == id);
        }
        if progress_map(t).contains_key(id) {
            let k = choose|k: int| 0 <= k < t.len() && t[k].id == id;
            if k != i {
                assert(ps[k].id == id);
            }
        }
    }
    assert forall|id: u128| #![auto] progress_map(t).contains_key(id) implies progress_map(t)[id] == progress_map(ps).insert(p.id, progress_view(p))[id] by {
        let k = choose|k: int| 0 <= k < t.len() && t[k].id == id;
        lemma_entry_at(t, k);
        if k != i {
            assert(ps[k] == t[k]);
            lemma_entry_at(ps, k);
        }
    }
    assert(progress_map(t) =~= progress_map(ps).insert(p.id, progress_view(p)));
}

/// Adding an entry of a new identifier.
proof fn lemma_push_entry(ps: Seq<MigrationProgress>, p: MigrationProgress)
    requires
        distinct_ids(ps),
        !progress_map(ps).contains_key(p.id),
    ensures
        distinct_ids(ps.push(p)),
        progress_map(ps.push(p)) == progress_map(ps).insert(p.id, progress_view(p)),
{
    let t = ps.push(p);
    assert(distinct_ids(t)) by {
        assert forall|a: int, b: int| 0 <= a < b < t.len() implies t[a].id != t[b].id by {
            if b == ps.len() {
                assert(t[a] == ps[a]);
                if ps[a].id == p.id {
                    assert(progress_map(ps).contains_key(p.id));
                }
            } else {
                assert(ps[a].id != ps[b].id);
            }
        }
    }
    assert forall|id: u128| #![auto] progress_map(t).contains_key(id) == progress_map(ps).insert(p.id, progress_view(p)).contains_key(id) by {
        if progress_map(ps).contains_key(id) {
            let k = choose|k: int| 0 <= k < ps.len() && ps[k].id == id;
            assert(t[k].id == id);
        }
        if id == p.id {
            assert(t[ps.len() as int].id == id);
        }
        if progress_map(t).contains_key(id) {
            let k = choose|k: int| 0 <= k < t.len() && t[k].id == id;
            if k < ps.len() {
                assert(ps[k].id == id);
            }
        }
    }
    assert forall|id: u128| #![auto] progress_map(t).contains_key(id) implies progress_map(t)[id] == progress_map(ps).insert(p.id, progress_view(p))[id] by {
        let k = choose|k: int| 0 <= k < t.len() && t[k].id == id;
        lemma_entry_at(t, k);
        if k < ps.len() {
            assert(ps[k] == t[k]);
            lemma_entry_at(ps, k);
        }
    }
    assert(progress_map(t) =~= progress_map(ps).insert(p.id, progress_view(p)));
}

impl MigrationManager {
    /// No two migrations share an identifier.
    pub closed spec fn well_formed(&self) -> bool {
        distinct_ids(self.active_migrations@)
    }

    /// The migrations' progress, by identifier.
    pub closed spec fn migrations(&self) -> Map<u128, ProgressView> {
        progress_map(self.active_migrations@)
    }

    /// The directory checkpoints are kept in.
    pub closed spec fn checkpoint_dir(&self) -> Seq<char> {
        self.checkpoint_manager.dir()
    }

    /// A registry with no migrations, keeping checkpoints in `checkpoint_dir`.
    pub fn new(checkpoint_dir: String) -> (r: Result<Self, RTDBError>)
        ensures
            r matches Ok(m) && m.well_formed() && m.migrations() == Map::<u128, ProgressView>::empty()
                && m.checkpoint_dir() == checkpoint_dir@,
    {
        let checkpoint_manager = CheckpointManager::new(checkpoint_dir)?;
        let m = MigrationManager { active_migrations: Vec::new(), checkpoint_manager };
        assert(m.migrations() =~= Map::<u128, ProgressView>::empty());
        Ok(m)
    }

    /// The checkpoints of the migrations.
    pub fn checkpoints(&self) -> (r: &CheckpointManager)
        ensures
            r.dir() == self.checkpoint_dir(),
    {
        &self.checkpoint_manager
    }

    /// The position of migration `id`.
    fn position(&self, id: u128) -> (r: Option<usize>)
        requires
            self.well_formed(),
        ensures
            match r {
                Some(i) => i < self.active_migrations@.len() && self.active_migrations@[i as int].id == id,
                None => !self.migrations().contains_key(id),
            },
    {
        let mut i: usize = 0;
        while i < self.active_migrations.len()
            invariant
                i <= self.active_migrations@.len(),
                forall|j: int| 0 <= j < i ==> self.active_migrations@[j].id != id,
            decreases self.active_migrations@.len() - i,
        {
            if self.active_migrations[i].id == id {
                return Some(i);
            }
            i += 1;
        }
        None
    }

    /// Registers a migration as pending at `now`, with nothing processed;
    /// its identifier is the configuration's. A migration of the same
    /// identifier is replaced.
    pub fn start_migration(&mut self, config: &MigrationConfig, now: i64) -> (r: u128)
        requires
            old(self).well_formed(),
        ensures
            r == config.id,
            final(self).well_formed(),
            final(self).checkpoint_dir() == old(self).checkpoint_dir(),
            final(self).migrations() == old(self).migrations().insert(config.id, ProgressView {
                status: MigrationStatus::Pending,
                source_type: config.source_type,
                target_collection: config.target_collection@,
                total_records: None,
                processed_records: 0,
                failed_records: 0,
                current_batch: 0,
                start_time: now,
                last_update: now,
                error_count: 0,
            }),
    {
        let progress = MigrationProgress {
            id: config.id,
            status: MigrationStatus::Pending,
            source_type: config.source_type,
            target_collection: config.target_collection.clone(),
            total_records: None,
            processed_records: 0,
            failed_records: 0,
            current_batch: 0,
            start_time: now,
            last_update: now,
            error_messages: Vec::new(),
        };
        let ghost ps = self.active_migrations@;
        match self.position(config.id) {
            Some(i) => {
                self.active_migrations.remove(i);
                self.active_migrations.insert(i, progress);
                proof {
                    assert(self.active_migrations@ =~= ps.update(i as int, progress));
                    lemma_replace_entry(ps, i as int, progress);
                }
            },
            None => {
                self.active_migrations.push(progress);
                proof {
                    lemma_push_entry(ps, progress);
                }
            },
        }
        config.id
    }

    /// The progress of migration `id`, if it is registered.
    pub fn get_progress(&self, migration_id: u128) -> (r: Option<MigrationProgress>)
        requires
            self.well_formed(),
        ensures
            match r {
                Some(p) => self.migrations().contains_key(migration_id) && p.id == migration_id
                    && progress_view(p) == self.migrations()[migration_id],
                None => !self.migrations().contains_key(migration_id),
            },
    {
        match self.position(migration_id) {
            Some(i) => {
                proof {
                    lemma_entry_at(self.active_migrations@, i as int);
                }
                Some(copy_progress(&self.active_migrations[i]))
            },
            None => None,
        }
    }

    /// The progress of every registered migration.
    pub fn list_migrations(&self) -> (r: &Vec<MigrationProgress>)
        requires
            self.well_formed(),
        ensures
            distinct_ids(r@),
            progress_map(r@) == self.migrations(),
    {
        &self.active_migrations
    }

    /// Changes the status of migration `id` at `now`; an unknown migration
    /// is left alone.
    pub fn update_status(&mut self, migration_id: u128, status: MigrationStatus, now: i64)
        requires
            old(self).well_formed(),
        ensures
            final(self).well_formed(),
            final(self).checkpoint_dir() == old(self).checkpoint_dir(),
            final(self).migrations() == with_status(old(self).migrations(), migration_id, status, now),
    {
        let ghost ps = self.active_migrations@;
        match self.position(migration_id) {
            Some(i) => {
                proof {
                    lemma_entry_at(ps, i as int);
                }
                let mut p = self.active_migrations.remove(i);
                p.status = status;
                p.last_update = now;
                self.active_migrations.insert(i, p);
                proof {
                    assert(self.active_migrations@ =~= ps.update(i as int, p));
                    lemma_replace_entry(ps, i as int, p);
                    assert(progress_view(p) == ProgressView { status, last_update: now, ..progress_map(ps)[migration_id] });
                }
            },
            None => {},
        }
    }

    /// Records the number of records of migration `id`.
    pub fn update_total_records(&mut self, migration_id: u128, total: u64)
        requires
            old(self).well_formed(),
        ensures
            final(self).well_formed(),
            final(self).checkpoint_dir() == old(self).checkpoint_dir(),
            final(self).migrations() == if old(self).migrations().contains_key(migration_id) {
                old(self).migrations().insert(migration_id, ProgressView {
                    total_records: Some(total),
                    ..old(self).migrations()[migration_id]
                })
            } else {
                old(self).migrations()
            },
    {
        let ghost ps = self.active_migrations@;
        match self.position(migration_id) {
            Some(i) => {
                proof {
                    lemma_entry_at(ps, i as int);
                }
                let mut p = self.active_migrations.remove(i);
                p.total_records = Some(total);
                self.active_migrations.insert(i, p);
                proof {
                    assert(self.active_migrations@ =~= ps.update(i as int, p));
                    lemma_replace_entry(ps, i as int, p);
                }
            },
            None => {},
        }
    }

    /// Records the processed and failed counts of migration `id` at `now`.
    pub fn update_processed(&mut self, migration_id: u128, processed: u64, failed: u64, now: i64)
        requires
            old(self).well_formed(),
        ensures
            final(self).well_formed(),
            final(self).checkpoint_dir() == old(self).checkpoint_dir(),
            final(self).migrations() == if old(self).migrations().contains_key(migration_id) {
                old(self).migrations().insert(migration_id, ProgressView {
                    processed_records: processed,
                    failed_records: failed,
                    last_update: now,
                    ..old(self).migrations()[migration_id]
                })
            } else {
                old(self).migrations()
            },
    {
        let ghost ps = self.active_migrations@;
        match self.position(migration_id) {
            Some(i) => {
                proof {
                    lemma_entry_at(ps, i as int);
                }
                let mut p = self.active_migrations.remove(i);
                p.processed_records = processed;
                p.failed_records = failed;
                p.last_update = now;
                self.active_migrations.insert(i, p);
                proof {
                    assert(self.active_migrations@ =~= ps.update(i as int, p));
                    lemma_replace_entry(ps, i as int, p);
                }
            },
            None => {},
        }
    }

    /// Cancels migration `id` at `now`.
    pub fn cancel_migration(&mut self, migration_id: u128, now: i64) -> (r: Result<(), RTDBError>)
        requires
            old(self).well_formed(),
        ensures
            r is Ok,
            final(self).well_formed(),
            final(self).checkpoint_dir() == old(self).checkpoint_dir(),
            final(self).migrations() == with_status(old(self).migrations(), migration_id, MigrationStatus::Cancelled, now),
    {
        self.update_status(migration_id, MigrationStatus::Cancelled, now);
        Ok(())
    }

    /// Resumes migration `id` at `now` if it failed or was cancelled, and
    /// says whether it did; others are left alone.
    pub fn resume_migration(&mut self, migration_id: u128, now: i64) -> (r: Result<bool, RTDBError>)
        requires
            old(self).well_formed(),
        ensures
            final(self).well_formed(),
            final(self).checkpoint_dir() == old(self).checkpoint_dir(),
            r matches Ok(resumed) && resumed == resumable(old(self).migrations(), migration_id),
            final(self).migrations() == if resumable(old(self).migrations(), migration_id) {
                with_status(old(self).migrations(), migration_id, MigrationStatus::Running, now)
            } else {
                old(self).migrations()
            },
    {
        match self.get_progress(migration_id) {
            Some(p) => match p.status {
                MigrationStatus::Failed | MigrationStatus::Cancelled => {
                    self.update_status(migration_id, MigrationStatus::Running, now);
                    Ok(true)
                },
                _ => Ok(false),
            },
            None => Ok(false),
        }
    }
}

/// Whether a migration can be resumed: it is registered and failed or was
/// cancelled.
pub open spec fn resumable(m: Map<u128, ProgressView>, id: u128) -> bool {
    m.contains_key(id) && (m[id].status == MigrationStatus::Failed || m[id].status == MigrationStatus::Cancelled)
}

/// A cancelled migration can always be resumed, and then runs again.
pub proof fn lemma_cancel_then_resume(m: Map<u128, ProgressView>, id: u128, t1: i64, t2: i64)
    requires
        m.contains_key(id),
    ensures
        resumable(with_status(m, id, MigrationStatus::Cancelled, t1), id),
        with_status(with_status(m, id, MigrationStatus::Cancelled, t1), id, MigrationStatus::Running, t2)[id].status
            == MigrationStatus::Running,
{
}

/// Only failed and cancelled migrations resume: a running, pending,
/// paused or completed one does not.
pub proof fn lemma_resume_only_stopped(m: Map<u128, ProgressView>, id: u128)
    requires
        m.contains_key(id),
        m[id].status != MigrationStatus::Failed,
        m[id].status != MigrationStatus::Cancelled,
    ensures
        !resumable(m, id),
{
}

} // verus!
