//! REST wire records of the supervisor API (snake_case on the wire).  These
//! are the plain shapes; their JSON encoding is attached where they are
//! serialised.

use vstd::prelude::*;

verus! {

/// Whether a flag is unset; absent flags are omitted from the wire.
pub fn is_false(value: &bool) -> (r: bool)
    ensures
        r == !*value,
{
    !*value
}

// Processes
/// Run state of a managed process.
#[derive(Debug, Clone, Copy, PartialEq, Eq, Structural)]
pub enum ProcessStateDto {
    Starting,
    Running,
    Stopping,
    Crashed,
    Stopped,
}

/// Who owns a process: the supervisor itself, or a system service unit.
#[derive(Debug, Clone, PartialEq, Eq)]
pub enum ManagementModeDto {
    Direct,
    SystemRegistered { unit_name: String },
}

/// Whether children die with the supervisor or outlive it.
#[derive(Debug, Clone, Copy, PartialEq, Eq, Structural)]
pub enum LifecycleModeDto {
    Tied,
    Detached,
}

/// Latest verdict of one runtime guard.
#[derive(Debug, Clone, Copy, PartialEq, Eq, Structural)]
pub enum GuardStateDto {
    Unknown,
    Healthy,
    Unhealthy,
    Unsupported,
}

/// Why a guard last restarted a process.
#[derive(Debug, Clone, Copy, PartialEq, Eq, Structural)]
pub enum GuardRestartCauseDto {
    WatchChanged,
    MemoryCeiling,
    LivenessFailure,
}

/// Number of instances a process declaration asks for when it names none.
pub fn default_desired_instances() -> (r: u16)
    ensures
        r == 1,
{
    1
}

/// Outcome of one instance within a multi-instance operation.
#[derive(Debug, Clone, Copy, PartialEq, Eq, Structural)]
pub enum ProcessOperationInstanceStateDto {
    Completed,
    Failed,
    NotAttempted,
    Superseded,
}

/// Restart settings shared by the config file and registration requests;
/// every field is optional and absent fields fall back to the defaults.
#[derive(Debug, Clone, Copy, PartialEq, Eq, Structural)]
pub struct RestartPolicyDto {
    pub enabled: Option<bool>,
    pub max_retries: Option<u32>,
    pub backoff_initial_ms: Option<u64>,
    pub backoff_max_ms: Option<u64>,
    pub backoff_multiplier: Option<u32>,
    pub jitter: Option<bool>,
    pub reset_after_ms: Option<u64>,
}

impl Default for RestartPolicyDto {
    fn default() -> (r: Self)
        ensures
            r.enabled is None && r.max_retries is None && r.backoff_initial_ms is None
                && r.backoff_max_ms is None && r.backoff_multiplier is None && r.jitter is None
                && r.reset_after_ms is None,
    {
        RestartPolicyDto {
            enabled: None,
            max_retries: None,
            backoff_initial_ms: None,
            backoff_max_ms: None,
            backoff_multiplier: None,
            jitter: None,
            reset_after_ms: None,
        }
    }
}

/// Signal sent to ask a process to stop.
#[derive(Debug, Clone, Copy, PartialEq, Eq, Structural)]
pub enum ShutdownSignalDto {
    Term,
    Int,
    Kill,
}

/// How a process is asked to stop and how long it is given.
#[derive(Debug, Clone, Copy, PartialEq, Eq, Structural)]
pub struct ShutdownPolicyDto {
    pub signal: Option<ShutdownSignalDto>,
    pub grace_period_ms: Option<u64>,
}

impl Default for ShutdownPolicyDto {
    fn default() -> (r: Self)
        ensures
            r.signal is None && r.grace_period_ms is None,
    {
        ShutdownPolicyDto { signal: None, grace_period_ms: None }
    }
}

/// File-watch restart guard.
#[derive(Debug, Clone, PartialEq, Eq)]
pub struct WatchPolicyDto {
    pub roots: Vec<String>,
    pub recursive: Option<bool>,
    pub exclusions: Vec<String>,
    pub follow_symlinks: Option<bool>,
    pub debounce_ms: u64,
}

/// Memory-ceiling restart guard.
#[derive(Debug, Clone, Copy, PartialEq, Eq, Structural)]
pub struct MemoryPolicyDto {
    pub ceiling_bytes: u64,
    pub sample_interval_ms: u64,
    pub consecutive_breaches: u16,
}

/// How a liveness or readiness check probes the process.
#[derive(Debug, Clone, PartialEq, Eq)]
pub enum CheckKindDto {
    Exec { command: String, args: Vec<String> },
    Tcp { host: String, port: u16 },
    Http { url: String, expected_status: u16 },
}

/// A liveness or readiness check and its thresholds.
#[derive(Debug, Clone, PartialEq, Eq)]
pub struct CheckPolicyDto {
    pub kind: CheckKindDto,
    pub interval_ms: u64,
    pub timeout_ms: u64,
    pub consecutive_successes: u16,
    pub consecutive_failures: u16,
}

/// Rolling-restart limits of a multi-instance process.
#[derive(Debug, Clone, Copy, PartialEq, Eq, Structural)]
pub struct RollingPolicyDto {
    pub max_surge: u16,
    pub max_unavailable: u16,
    pub readiness_timeout_ms: u64,
    pub routability: Option<bool>,
}

/// Answer to a restart request that had nothing to do.
#[derive(Debug, Clone, PartialEq, Eq)]
pub struct RestartNoopDto {
    pub noop: bool,
    pub reason: String,
}

/// Target management mode of a conversion.
#[derive(Debug, Clone, Copy, PartialEq, Eq, Structural)]
pub enum ConvertTargetDto {
    Direct,
    SystemRegistered,
}

/// Body of a conversion request.
#[derive(Debug, Clone, PartialEq, Eq)]
pub struct ConvertRequestDto {
    pub to: ConvertTargetDto,
    pub unit_name: Option<String>,
    pub auto_start: Option<bool>,
}

// Logs
/// Stream a log line came from.
#[derive(Debug, Clone, Copy, PartialEq, Eq, Structural)]
pub enum LogStreamDto {
    Stdout,
    Stderr,
    System,
}

/// One log line on the wire; `timestamp` is nanoseconds since the Unix
/// epoch and `sequence` the source-local durable cursor (zero only from
/// servers that predate cursors).
#[derive(Debug, Clone, PartialEq, Eq)]
pub struct LogLineDto {
    pub sequence: u64,
    pub timestamp: i128,
    pub stream: LogStreamDto,
    pub line: String,
}

/// A page of log lines with the cursor fields a client resumes from.
#[derive(Debug, Clone, PartialEq, Eq)]
pub struct LogsResponseDto {
    pub lines: Vec<LogLineDto>,
    pub truncated: bool,
    pub dropped_count: u64,
    /// Last durable sequence included in the snapshot boundary.
    pub high_watermark: u64,
    /// Cursor for the next gap-recovery request.
    pub next_sequence: u64,
    /// First numeric cursor still retained by the journal.
    pub earliest_retained_sequence: Option<u64>,
    /// Whether the requested cursor predates retained history.
    pub cursor_expired: bool,
}

// Jobs
/// What happens when a job fires while its previous run is still going.
#[derive(Debug, Clone, Copy, PartialEq, Eq, Structural)]
pub enum OnOverlapDto {
    Skip,
    Queue,
    Parallel,
}

/// What a dependent job does when an upstream run failed.
#[derive(Debug, Clone, Copy, PartialEq, Eq, Structural)]
pub enum OnDependencyFailureDto {
    Skip,
    RunAnyway,
}

/// What happens to occurrences missed while the supervisor was down.
#[derive(Debug, Clone, Copy, PartialEq, Eq, Structural)]
pub enum MisfirePolicyDto {
    Skip,
    RunOnce,
    CatchUp,
}

/// What a full admission queue does with a new run.
#[derive(Debug, Clone, Copy, PartialEq, Eq, Structural)]
pub enum QueueOverflowDto {
    RejectNew,
    Skip,
}

/// Retry settings of a job; absent fields take the defaults below.
#[derive(Debug, Clone, Copy, PartialEq, Eq, Structural)]
pub struct RetryPolicyDto {
    pub max_attempts: u16,
    pub initial_backoff_sec: u64,
    pub max_backoff_sec: u64,
    pub multiplier: u8,
    pub jitter_percent: u8,
}

/// Default number of attempts: one, no retry.
pub fn default_max_attempts() -> (r: u16)
    ensures
        r == 1,
{
    1
}

/// Default first retry delay, in seconds.
pub fn default_retry_initial_backoff_sec() -> (r: u64)
    ensures
        r == 1,
{
    1
}

/// Default cap of the retry delay, in seconds.
pub fn default_retry_max_backoff_sec() -> (r: u64)
    ensures
        r == 300,
{
    300
}

/// Default growth factor of the retry delay.
pub fn default_retry_multiplier() -> (r: u8)
    ensures
        r == 2,
{
    2
}

/// Default jitter of the retry delay, in percent.
pub fn default_retry_jitter_percent() -> (r: u8)
    ensures
        r == 20,
{
    20
}

/// Concurrency and queue limits of a job.
#[derive(Debug, Clone, Copy, PartialEq, Eq, Structural)]
pub struct AdmissionPolicyDto {
    pub max_concurrency: u16,
    pub max_queue: u16,
    pub overflow: QueueOverflowDto,
}

/// State of one job run.
#[derive(Debug, Clone, Copy, PartialEq, Eq, Structural)]
pub enum JobRunStateDto {
    Pending,
    Running,
    Succeeded,
    Failed,
    TimedOut,
    Cancelled,
    Skipped,
}

/// What started a job run.
#[derive(Debug, Clone, PartialEq, Eq)]
pub enum TriggeredByDto {
    Schedule,
    Manual,
    Dependency { upstream_run_id: String },
}

/// Names of the jobs a job depends on and of those that depend on it.
#[derive(Debug, Clone, PartialEq, Eq)]
pub struct JobDependenciesDto {
    pub upstream: Vec<String>,
    pub downstream: Vec<String>,
}

/// Number of occurrences a schedule preview lists when none is asked for.
pub fn default_preview_count() -> (r: u16)
    ensures
        r == 10,
{
    10
}

// Config apply
/// Whether a config apply merges into or replaces the running set.
#[derive(Debug, Clone, Copy, PartialEq, Eq, Structural)]
pub enum ConfigApplyModeDto {
    Merge,
    Replace,
}

impl Default for ConfigApplyModeDto {
    fn default() -> (r: Self)
        ensures
            r == ConfigApplyModeDto::Merge,
    {
        ConfigApplyModeDto::Merge
    }
}

/// Names added, updated and removed by a config apply.
#[derive(Debug, Clone, PartialEq, Eq)]
pub struct ConfigDiffDto {
    pub added_processes: Vec<String>,
    pub updated_processes: Vec<String>,
    pub removed_processes: Vec<String>,
    pub added_jobs: Vec<String>,
    pub updated_jobs: Vec<String>,
    pub removed_jobs: Vec<String>,
}

impl Default for ConfigDiffDto {
    fn default() -> (r: Self)
        ensures
            r.added_processes@.len() == 0 && r.updated_processes@.len() == 0
                && r.removed_processes@.len() == 0 && r.added_jobs@.len() == 0
                && r.updated_jobs@.len() == 0 && r.removed_jobs@.len() == 0,
    {
        ConfigDiffDto {
            added_processes: Vec::new(),
            updated_processes: Vec::new(),
            removed_processes: Vec::new(),
            added_jobs: Vec::new(),
            updated_jobs: Vec::new(),
            removed_jobs: Vec::new(),
        }
    }
}

/// Result of a config apply (or of its dry run).
#[derive(Debug, Clone, PartialEq, Eq)]
pub struct ConfigApplyResultDto {
    pub apply_id: Option<String>,
    pub mode: ConfigApplyModeDto,
    pub diff: ConfigDiffDto,
    pub dry_run: bool,
}

/// How many runs, and for how many days, a job's logs are kept.
#[derive(Debug, Clone, Copy, PartialEq, Eq, Structural)]
pub struct LogRetentionDto {
    pub max_runs: Option<u32>,
    pub max_age_days: Option<u32>,
}

impl Default for LogRetentionDto {
    fn default() -> (r: Self)
        ensures
            r.max_runs is None && r.max_age_days is None,
    {
        LogRetentionDto { max_runs: None, max_age_days: None }
    }
}

// Daemon
/// Read-only discovery data of the local owner; it never carries the bearer
/// secret.
#[derive(Debug, Clone, PartialEq, Eq)]
pub struct OwnerDiscoveryDto {
    pub endpoint: String,
    pub version: String,
    pub pid: u32,
    pub native_start_identity: String,
    pub credential_generation: u64,
}

/// Whether this process became the owner, or who holds it.
#[derive(Debug, Clone, PartialEq, Eq)]
pub enum OwnershipResultDto {
    Acquired,
    Contended { owner: Option<OwnerDiscoveryDto> },
}

/// State of the user-scoped supervisor service.
#[derive(Debug, Clone, Copy, PartialEq, Eq, Structural)]
pub enum ServiceStateDto {
    NotInstalled,
    Stopped,
    Starting,
    Ready,
    Degraded,
    Stopping,
    Failed,
    Incompatible,
}

/// Status of the supervisor service as the native host reports it.
#[derive(Debug, Clone, PartialEq, Eq)]
pub struct ServiceStatusDto {
    pub state: ServiceStateDto,
    pub label: String,
    pub plist_path: String,
    pub pid: Option<u32>,
    pub owner: Option<OwnerDiscoveryDto>,
}

/// Generation of the bearer credential after a rotation.
#[derive(Debug, Clone, Copy, PartialEq, Eq, Structural)]
pub struct TokenRotationDto {
    pub credential_generation: u64,
}

/// A finished backup.
#[derive(Debug, Clone, PartialEq, Eq)]
pub struct BackupResultDto {
    pub backup_id: String,
    pub manifest_path: String,
    pub verified: bool,
}

/// Progress of an upgrade or rollback.
#[derive(Debug, Clone, PartialEq, Eq)]
pub struct UpgradeJournalDto {
    pub phase: String,
    pub active_version: String,
    pub rollback_version: Option<String>,
    pub snapshot_path: Option<String>,
}

/// One pending recovery record (no command, environment, PID or identity).
#[derive(Debug, Clone, PartialEq, Eq)]
pub struct RecoveryDiagnosticDto {
    pub kind: String,
    pub id: String,
    pub resource: String,
    pub stage: String,
    pub attempts: u32,
    pub last_error: Option<String>,
}

/// All pending recovery records.
#[derive(Debug, Clone, PartialEq, Eq)]
pub struct RecoveryDiagnosticsDto {
    pub records: Vec<RecoveryDiagnosticDto>,
}

impl Default for RecoveryDiagnosticsDto {
    fn default() -> (r: Self)
        ensures
            r.records@.len() == 0,
    {
        RecoveryDiagnosticsDto { records: Vec::new() }
    }
}

// Observability
/// Severity of an alert or operator event.
#[derive(Debug, Clone, Copy, PartialEq, Eq, Structural)]
pub enum AlertSeverityDto {
    Info,
    Warning,
    Critical,
}

/// Lifecycle of an alert episode.
#[derive(Debug, Clone, Copy, PartialEq, Eq, Structural)]
pub enum AlertStateDto {
    Active,
    AcknowledgedActive,
    Resolved,
}

/// Whether a newly written alert rule is enabled when the request says
/// nothing.
pub fn default_enabled() -> (r: bool)
    ensures
        r,
{
    true
}

} // verus!
