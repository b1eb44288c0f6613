//! The RTDB cluster resource of the Kubernetes operator, and the
//! operator's requeue decisions.

use vstd::prelude::*;
use crate::types::RTDBError;

verus! {

/// The desired state of an RTDB cluster.
#[derive(Debug, Clone)]
pub struct RTDBClusterSpec {
    /// Number of nodes.
    pub replicas: i32,
    /// Version to deploy.
    pub version: String,
    pub resources: ResourceRequirements,
    pub storage: StorageConfig,
    pub simdx_config: SIMDXConfig,
    pub cluster_config: ClusterConfig,
    pub observability: ObservabilityConfig,
}

/// Which vector instructions the nodes use.
#[derive(Debug, Clone)]
pub struct SIMDXConfig {
    pub enable_avx512: bool,
    pub enable_avx2: bool,
    pub enable_neon: bool,
    pub cpu_detection: CpuDetectionMode,
    /// Vectors per SIMD batch.
    pub simd_batch_size: u32,
}

/// How CPU features are detected.
#[derive(Debug, Clone, Copy, PartialEq, Eq, Structural)]
pub enum CpuDetectionMode {
    Runtime,
    CompileTime,
    Disabled,
}

/// Resources per node, as Kubernetes quantities.
#[derive(Debug, Clone)]
pub struct ResourceRequirements {
    pub cpu_request: String,
    pub cpu_limit: String,
    pub memory_request: String,
    pub memory_limit: String,
    pub storage_request: String,
}

/// Storage of the nodes.
#[derive(Debug, Clone)]
pub struct StorageConfig {
    pub storage_class: String,
    pub size: String,
    pub backup_enabled: bool,
    /// A cron schedule, when backups are on.
    pub backup_schedule: Option<String>,
}

/// Ports and replication of the cluster.
#[derive(Debug, Clone, Copy, PartialEq, Eq, Structural)]
pub struct ClusterConfig {
    pub raft_port: u16,
    pub grpc_port: u16,
    pub rest_port: u16,
    pub metrics_port: u16,
    pub replication_factor: u8,
    pub enable_tls: bool,
}

/// Metrics, tracing and logging of the nodes.
#[derive(Debug, Clone)]
pub struct ObservabilityConfig {
    pub metrics_enabled: bool,
    pub tracing_enabled: bool,
    pub logging_level: String,
    pub prometheus_scrape: bool,
}

/// Where a cluster is in its life.
#[derive(Debug, Clone, Copy, PartialEq, Eq, Structural)]
pub enum ClusterPhase {
    Pending,
    Creating,
    Running,
    Scaling,
    Upgrading,
    Failed,
}

/// A condition reported on a cluster.
#[derive(Debug, Clone)]
pub struct ClusterCondition {
    pub condition_type: String,
    pub status: String,
    pub reason: String,
    pub message: String,
    pub last_transition_time: String,
}

/// What the controller does after a reconciliation.
#[derive(Debug, Clone, Copy, PartialEq, Eq, Structural)]
pub enum ReconcileAction {
    /// Reconcile the cluster again after this many seconds.
    Requeue { after_secs: u64 },
}

/// After a successful reconciliation the cluster is looked at again in
/// thirty seconds, to keep its status current.
pub fn reconciled() -> (r: ReconcileAction)
    ensures
        r == (ReconcileAction::Requeue { after_secs: 30 }),
{
    ReconcileAction::Requeue { after_secs: 30 }
}

/// After a failed reconciliation the cluster is tried again in a minute,
/// whatever the error.
pub fn error_policy(cluster_name: &str, error: &RTDBError) -> (r: ReconcileAction)
    ensures
        r == (ReconcileAction::Requeue { after_secs: 60 }),
{
    ReconcileAction::Requeue { after_secs: 60 }
}

} // verus!
