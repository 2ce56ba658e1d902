//! Identity, exit evidence and state of a managed llama-server process.
use vstd::prelude::*;

verus! {

/// The process that this application started and owns.
#[derive(Debug, Clone, PartialEq, Eq)]
pub struct ManagedProcessIdentity {
    pub pid: u32,
    pub executable: String,
    pub started_at_unix_ms: u64,
}

/// How a managed process ended.
#[derive(Debug, Clone, Copy, PartialEq, Eq, Structural)]
pub enum ProcessExitKind {
    Natural,
    ForceKilled,
    DropCleanup,
}

/// Exit code and cause of a managed process, as observed.
#[derive(Debug, Clone, PartialEq, Eq)]
pub struct ProcessExitEvidence {
    pub code: Option<i32>,
    pub kind: ProcessExitKind,
    pub observed_at_unix_ms: u64,
}

#[derive(Debug, Clone, PartialEq, Eq)]
pub enum ManagedProcessState {
    Running(ManagedProcessIdentity),
    Exited { identity: ManagedProcessIdentity, evidence: ProcessExitEvidence },
}

/// Outcome of waiting for a cooperative shutdown; `waited_ms` is the grace
/// period that elapsed.
#[derive(Debug, Clone, PartialEq, Eq)]
pub enum GracefulStopOutcome {
    Exited(ProcessExitEvidence),
    GracePeriodExpired { waited_ms: u64 },
}

#[derive(Debug, Clone, PartialEq, Eq)]
pub enum ProcessSupervisorError {
    AlreadyRunning { pid: u32 },
    Spawn { executable: String, message: String },
    JobObject { pid: u32, message: String },
    LogPipe { pid: u32, stream: String },
    Inspect { pid: u32, message: String },
    ForceKill { pid: u32, message: String },
    GracefulRequest { pid: u32, message: String },
    NotRunning,
}

/// Whether a supervisor may start a new process while it holds `current`:
/// only when it holds none or the one it holds has exited.
pub open spec fn may_start(current: Option<ManagedProcessState>) -> bool {
    match current {
        None => true,
        Some(ManagedProcessState::Exited { .. }) => true,
        Some(ManagedProcessState::Running(_)) => false,
    }
}

/// Refuses a second start while a managed process is still running.
pub fn ensure_can_start(current: &Option<ManagedProcessState>) -> (r: Result<(), ProcessSupervisorError>)
    ensures
        r is Ok <==> may_start(*current),
        *current matches Some(ManagedProcessState::Running(id)) ==> r == Err::<(), _>(
            ProcessSupervisorError::AlreadyRunning { pid: id.pid },
        ),
{
    match current {
        Some(ManagedProcessState::Running(identity)) => Err(
            ProcessSupervisorError::AlreadyRunning { pid: identity.pid },
        ),
        _ => Ok(()),
    }
}

/// Whether `clear_exited` drops the held process: only an exited one is
/// dropped, and the answer says whether one was.
pub fn should_clear(current: &Option<ManagedProcessState>) -> (r: bool)
    ensures
        r == (current matches Some(ManagedProcessState::Exited { .. })),
{
    match current {
        Some(ManagedProcessState::Exited { .. }) => true,
        _ => false,
    }
}

/// One poll of a cooperative shutdown: an exited process ends the wait with
/// its evidence, a running one past the deadline ends it as expired, and a
/// running one before the deadline keeps the wait going (`None`).
pub fn cooperative_wait_step(state: &ManagedProcessState, deadline_reached: bool, timeout_ms: u64) -> (r: Option<
    GracefulStopOutcome,
>)
    ensures
        *state matches ManagedProcessState::Exited { evidence, .. } ==> r == Some(
            GracefulStopOutcome::Exited(evidence),
        ),
        (state is Running && deadline_reached) ==> r == Some(
            GracefulStopOutcome::GracePeriodExpired { waited_ms: timeout_ms },
        ),
        (state is Running && !deadline_reached) ==> r is None,
{
    match state {
        ManagedProcessState::Exited { evidence, .. } => Some(
            GracefulStopOutcome::Exited(copy_evidence(evidence)),
        ),
        ManagedProcessState::Running(_) => {
            if deadline_reached {
                Some(GracefulStopOutcome::GracePeriodExpired { waited_ms: timeout_ms })
            } else {
                None
            }
        },
    }
}

pub fn copy_evidence(e: &ProcessExitEvidence) -> (r: ProcessExitEvidence)
    ensures
        r == *e,
{
    ProcessExitEvidence { code: e.code, kind: e.kind, observed_at_unix_ms: e.observed_at_unix_ms }
}

pub fn copy_identity(id: &ManagedProcessIdentity) -> (r: ManagedProcessIdentity)
    ensures
        r == *id,
{
    ManagedProcessIdentity {
        pid: id.pid,
        executable: id.executable.clone(),
        started_at_unix_ms: id.started_at_unix_ms,
    }
}

} // verus!
