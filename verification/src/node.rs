//! Node, sidecar, gateway and validator-swarm types, with the small
//! decisions the services make on them.

use vstd::prelude::*;
use std::collections::HashMap;
use std::time::Duration;

verus! {

/// The duration of `ms` milliseconds.
pub uninterp spec fn duration_of_millis(ms: u64) -> Duration;

/// Calls `std::time::Duration::from_millis`. Claims that the result is the
/// named function of the millisecond count.
#[verifier::external_body]
fn duration_from_millis(ms: u64) -> (d: Duration)
    ensures
        d == duration_of_millis(ms),
{
    Duration::from_millis(ms)
}

/// The slot length in milliseconds for a runtime spec version: 200 from
/// version 5 on, 400 before.
pub open spec fn slot_millis(spec_version: u32) -> u64 {
    if spec_version >= 5 { 200 } else { 400 }
}

/// The slot duration for a runtime spec version.
pub fn slot_duration_for_spec(spec_version: u32) -> (d: Duration)
    ensures
        d == duration_of_millis(slot_millis(spec_version)),
{
    if spec_version >= 5 {
        duration_from_millis(200)
    } else {
        duration_from_millis(400)
    }
}

/// Rollout feature flags for consensus and execution paths; all off by
/// default.
#[derive(Debug, Clone, Copy, Default)]
pub struct NodeFeatureFlags {
    /// Enable the parallel proposer pipeline.
    pub enable_parallel_proposer: bool,
    /// Enable Flash Finality tasks.
    pub enable_flash_finality: bool,
    /// Enable the PoH digest validation path.
    pub enable_poh: bool,
    /// Require the GPU path for validation critical flows.
    pub gpu_required: bool,
}

/// Whether GRANDPA runs: not when the operator disabled it, and not when
/// the Flash Finality gadget is on.
pub fn compute_enable_grandpa(disable_grandpa: bool, feature_flags: NodeFeatureFlags) -> (enable: bool)
    ensures
        enable == (!disable_grandpa && !feature_flags.enable_flash_finality),
{
    let mut enable = !disable_grandpa;
    if feature_flags.enable_flash_finality {
        enable = false;
    }
    enable
}

/// The chain's native executor.
#[derive(Debug, Clone, Copy)]
pub struct AtlasSphereExecutorDispatch;

/// The status of a sidecar job.
#[derive(Debug, Clone)]
pub struct JobStatusEntry {
    /// Human-readable status label.
    pub status: String,
    /// Last update time (unix seconds).
    pub updated_at_unix: u64,
    /// Transaction hash once submitted on-chain.
    pub tx_hash: Option<String>,
    /// Last error message, if any.
    pub error: Option<String>,
}

/// Reads the system clock as whole seconds since the unix epoch (0 where the
/// clock is before the epoch). Nothing is claimed of the value: it is the
/// time.
#[verifier::external_body]
fn unix_now_secs() -> (t: u64) {
    std::time::SystemTime::now().duration_since(std::time::UNIX_EPOCH).unwrap_or_default().as_secs()
}

impl JobStatusEntry {
    /// A status entry stamped with the current time.
    pub fn new(status: String, tx_hash: Option<String>, error: Option<String>) -> (e: JobStatusEntry)
        ensures
            e.status@ == status@,
            e.tx_hash == tx_hash,
            e.error == error,
    {
        let updated_at_unix = unix_now_secs();
        JobStatusEntry { status, updated_at_unix, tx_hash, error }
    }
}

/// Sidecar state shared across its components.
pub struct SidecarState {
    /// Start time, in seconds since the unix epoch.
    pub started_at_unix: u64,
    pub jobs_completed: u64,
    pub jobs_failed: u64,
    pub registered: bool,
    pub job_statuses: HashMap<[u8; 32], JobStatusEntry>,
}

impl SidecarState {
    /// A fresh state: no jobs, not registered, started now.
    pub fn new() -> (s: SidecarState)
        ensures
            s.jobs_completed == 0,
            s.jobs_failed == 0,
            !s.registered,
            s.job_statuses@.len() == 0,
    {
        SidecarState {
            started_at_unix: unix_now_secs(),
            jobs_completed: 0,
            jobs_failed: 0,
            registered: false,
            job_statuses: HashMap::new(),
        }
    }
}

/// Chain statistics the gateway reports.
#[derive(Debug, Clone, Copy)]
pub struct ChainStats {
    pub total_blocks: i64,
    pub latest_block: Option<i64>,
    pub total_extrinsics: i64,
    pub total_events: i64,
    pub total_comits: i64,
    pub successful_comits: i64,
    pub failed_comits: i64,
    pub total_accounts: i64,
}

/// Pagination parameters of the gateway's list endpoints.
#[derive(Debug, Clone, Copy)]
pub struct Pagination {
    pub limit: i64,
    pub offset: i64,
}

impl Pagination {
    /// The limit a request gets when it names none.
    pub fn default_limit() -> (l: i64)
        ensures
            l == 20,
    {
        20
    }

    /// The number of rows a list endpoint fetches: the limit, at most 100.
    pub fn effective_limit(&self) -> (l: i64)
        ensures
            l == (if self.limit < 100 { self.limit } else { 100 }),
    {
        if self.limit < 100 { self.limit } else { 100 }
    }
}

/// The gateway's GraphQL query root.
#[derive(Debug, Clone, Copy)]
pub struct QueryRoot;

/// The health of a service.
#[derive(Debug, Clone, Copy, PartialEq, Eq, Structural)]
pub enum HealthStatus {
    Healthy,
    Degraded,
    Unhealthy,
}

impl HealthStatus {
    /// The status's lower-case label.
    pub open spec fn label(self) -> Seq<char> {
        match self {
            HealthStatus::Healthy => "healthy"@,
            HealthStatus::Degraded => "degraded"@,
            HealthStatus::Unhealthy => "unhealthy"@,
        }
    }

    /// The status's lower-case label, owned.
    pub fn to_string(&self) -> (s: String)
        ensures
            s@ == self.label(),
    {
        match self {
            HealthStatus::Healthy => crate::text::owned("healthy"),
            HealthStatus::Degraded => crate::text::owned("degraded"),
            HealthStatus::Unhealthy => crate::text::owned("unhealthy"),
        }
    }
}

/// The result of a health check.
#[derive(Debug, Clone)]
pub struct HealthCheck {
    pub service: String,
    pub status: HealthStatus,
    pub message: Option<String>,
    pub timestamp: i64,
    pub details: HashMap<String, String>,
}

/// The life-cycle state of a swarm validator.
#[derive(Debug, Clone, Copy, PartialEq, Eq, Structural)]
pub enum ValidatorState {
    Starting,
    Running,
    /// Running on the CPU fallback.
    Degraded,
    Quarantined,
    Stopped,
}

/// The desktop wallet's boundary between the verifier, which alone talks
/// to RPC, and the isolated signers.
#[derive(Debug, Clone, Copy)]
pub struct ExecutionFirewall {}

} // verus!
