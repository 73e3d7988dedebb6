//! Reports and errors of supervision.
use vstd::prelude::*;
use vstd::string::StringExecFns;

use crate::path::{lossy_text, UnixPath};
use crate::text::{
    decimal, decimal_text, decimal_text_wide, number_list, number_list_text, optional_text_view,
    views,
};

verus! {

/// The shortest time between two polls, in nanoseconds.
pub const MINIMUM_POLL_INTERVAL_NANOS: u128 = 10_000_000;

/// The shortest time between two polls, in milliseconds.
pub const MINIMUM_POLL_INTERVAL_MS: u128 = 10;

/// Production polling cadence, in nanoseconds. The supervisor performs no work
/// between polls.
pub const DEFAULT_SUPERVISOR_POLL_INTERVAL: u128 = 1_000_000_000;

/// The most processes that are looked at in one tree.
pub const MAX_PROCESSES_PER_TREE: usize = 65_536;

/// The most warnings that are kept, besides the note that more were omitted.
pub const MAX_SUPERVISOR_WARNINGS: usize = 1_024;

/// Runtime-only settings for process-tree supervision.
#[derive(Debug, PartialEq, Eq)]
pub struct SupervisorOptions {
    /// Procfs root, normally `/proc`; injectable for diagnostics and tests.
    pub proc_root: UnixPath,
    /// Delay between bounded tree walks, in nanoseconds.
    pub poll_interval_nanos: u128,
}

impl Default for SupervisorOptions {
    fn default() -> (out: Self)
        ensures
            out.proc_root@ == vstd::utf8::encode_utf8("/proc"@),
            out.poll_interval_nanos == DEFAULT_SUPERVISOR_POLL_INTERVAL,
    {
        SupervisorOptions {
            proc_root: UnixPath::from_text("/proc"),
            poll_interval_nanos: DEFAULT_SUPERVISOR_POLL_INTERVAL,
        }
    }
}

/// One non-fatal condition encountered while a managed tree changed concurrently.
#[derive(Debug, PartialEq, Eq)]
pub struct SupervisorWarning {
    /// Registered application associated with the tree.
    pub desktop_id: String,
    /// Process involved, when known.
    pub pid: Option<u32>,
    /// Conservative diagnostic; the process was not mutated on uncertainty.
    pub reason: String,
}

/// A warning by its contents.
pub struct SupervisorWarningView {
    pub desktop_id: Seq<char>,
    pub pid: Option<u32>,
    pub reason: Seq<char>,
}

impl View for SupervisorWarning {
    type V = SupervisorWarningView;

    open spec fn view(&self) -> SupervisorWarningView {
        SupervisorWarningView {
            desktop_id: self.desktop_id@,
            pid: self.pid,
            reason: self.reason@,
        }
    }
}

impl Clone for SupervisorWarning {
    fn clone(&self) -> (out: Self)
        ensures
            out@ == self@,
    {
        SupervisorWarning {
            desktop_id: self.desktop_id.clone(),
            pid: self.pid,
            reason: self.reason.clone(),
        }
    }
}

/// Deterministic summary produced when every enforce-enabled managed tree is gone.
#[derive(Debug, PartialEq, Eq)]
pub struct SupervisionReport {
    /// Roots accepted for monitoring after confirmed target exec.
    pub tracked_roots: usize,
    /// Roots which ended or no longer matched their enrollment identity.
    pub completed_roots: usize,
    /// Number of polling passes which actually had a tracked root.
    pub polls: u64,
    /// Thread affinity sets changed because they differed from the plan.
    pub affinity_updates: u64,
    /// Non-fatal races and inaccessible metadata, in observation order.
    pub warnings: Vec<SupervisorWarning>,
    /// Graceful termination signal, when supervision stopped before every root ended.
    pub termination_signal: Option<String>,
}

/// A report by its contents.
pub struct SupervisionView {
    pub tracked_roots: usize,
    pub completed_roots: usize,
    pub polls: u64,
    pub affinity_updates: u64,
    pub warnings: Seq<SupervisorWarningView>,
    pub termination_signal: Option<Seq<char>>,
}

impl View for SupervisionReport {
    type V = SupervisionView;

    open spec fn view(&self) -> SupervisionView {
        SupervisionView {
            tracked_roots: self.tracked_roots,
            completed_roots: self.completed_roots,
            polls: self.polls,
            affinity_updates: self.affinity_updates,
            warnings: views(self.warnings@),
            termination_signal: optional_text_view(self.termination_signal),
        }
    }
}

pub open spec fn empty_report() -> SupervisionView {
    SupervisionView {
        tracked_roots: 0,
        completed_roots: 0,
        polls: 0,
        affinity_updates: 0,
        warnings: Seq::empty(),
        termination_signal: None,
    }
}

impl Default for SupervisionReport {
    fn default() -> (out: Self)
        ensures
            out@ == empty_report(),
    {
        let out = SupervisionReport {
            tracked_roots: 0,
            completed_roots: 0,
            polls: 0,
            affinity_updates: 0,
            warnings: Vec::new(),
            termination_signal: None,
        };
        assert(out@.warnings =~= Seq::empty());
        out
    }
}

/// Errors which prevent safe supervision from continuing. Where the system
/// failed, `source` is its message.
#[derive(Debug, PartialEq, Eq)]
pub enum SupervisorError {
    /// A cadence below this bound would permit accidental busy polling.
    PollIntervalTooShort { minimum_ms: u128 },
    /// The plan's affinity mask could not be represented.
    InvalidAffinityCpu { cpu: u32, source: String },
    /// A process identifier exceeded Linux's signed PID representation.
    InvalidPid { pid: u32 },
    /// A verified process could not be inspected conservatively.
    InspectProcess { pid: u32, source: String },
    /// Affinity for a verified process/thread could not be read or changed.
    EnforceAffinity { pid: u32, source: String },
    /// Linux retained a mask other than the exact plan mask.
    AffinityMismatch { pid: u32, requested: Vec<u32>, actual: Vec<u32> },
    /// A supervised plan must always carry at least one E-core CPU.
    EmptyAffinity,
    /// Enforce-enabled launch reports must carry the identity captured at exec.
    MissingLaunchIdentity { desktop_id: String, pid: u32 },
    /// Enrollment requires the helper's confirmed transition through target exec.
    UnconfirmedExec { desktop_id: String, pid: u32 },
    /// Procfs metadata is mandatory whenever a managed tree needs enforcement.
    ProcfsUnavailable { root: UnixPath, reason: String },
    /// Signal setup/read failure prevented a reliable supervisor lifecycle.
    SignalHandling { operation: String, source: String },
}

/// A supervision error by its contents.
pub enum SupervisorErrorView {
    PollIntervalTooShort { minimum_ms: u128 },
    InvalidAffinityCpu { cpu: u32, source: Seq<char> },
    InvalidPid { pid: u32 },
    InspectProcess { pid: u32, source: Seq<char> },
    EnforceAffinity { pid: u32, source: Seq<char> },
    AffinityMismatch { pid: u32, requested: Seq<u32>, actual: Seq<u32> },
    EmptyAffinity,
    MissingLaunchIdentity { desktop_id: Seq<char>, pid: u32 },
    UnconfirmedExec { desktop_id: Seq<char>, pid: u32 },
    ProcfsUnavailable { root: Seq<u8>, reason: Seq<char> },
    SignalHandling { operation: Seq<char>, source: Seq<char> },
}

impl View for SupervisorError {
    type V = SupervisorErrorView;

    open spec fn view(&self) -> SupervisorErrorView {
        match self {
            SupervisorError::PollIntervalTooShort { minimum_ms } => {
                SupervisorErrorView::PollIntervalTooShort { minimum_ms: *minimum_ms }
            },
            SupervisorError::InvalidAffinityCpu { cpu, source } => {
                SupervisorErrorView::InvalidAffinityCpu { cpu: *cpu, source: source@ }
            },
            SupervisorError::InvalidPid { pid } => SupervisorErrorView::InvalidPid { pid: *pid },
            SupervisorError::InspectProcess { pid, source } => {
                SupervisorErrorView::InspectProcess { pid: *pid, source: source@ }
            },
            SupervisorError::EnforceAffinity { pid, source } => {
                SupervisorErrorView::EnforceAffinity { pid: *pid, source: source@ }
            },
            SupervisorError::AffinityMismatch { pid, requested, actual } => {
                SupervisorErrorView::AffinityMismatch {
                    pid: *pid,
                    requested: requested@,
                    actual: actual@,
                }
            },
            SupervisorError::EmptyAffinity => SupervisorErrorView::EmptyAffinity,
            SupervisorError::MissingLaunchIdentity { desktop_id, pid } => {
                SupervisorErrorView::MissingLaunchIdentity { desktop_id: desktop_id@, pid: *pid }
            },
            SupervisorError::UnconfirmedExec { desktop_id, pid } => {
                SupervisorErrorView::UnconfirmedExec { desktop_id: desktop_id@, pid: *pid }
            },
            SupervisorError::ProcfsUnavailable { root, reason } => {
                SupervisorErrorView::ProcfsUnavailable { root: root@, reason: reason@ }
            },
            SupervisorError::SignalHandling { operation, source } => {
                SupervisorErrorView::SignalHandling { operation: operation@, source: source@ }
            },
        }
    }
}

/// The message of a supervision error.
pub open spec fn supervisor_error_text(e: SupervisorErrorView) -> Seq<char> {
    match e {
        SupervisorErrorView::PollIntervalTooShort { minimum_ms } => {
            "supervisor poll interval must be at least "@ + decimal(minimum_ms as nat) + " ms"@
        },
        SupervisorErrorView::InvalidAffinityCpu { cpu, source } => {
            "invalid supervisor affinity CPU "@ + decimal(cpu as nat) + ": "@ + source
        },
        SupervisorErrorView::InvalidPid { pid } => "process ID "@ + decimal(pid as nat)
            + " cannot be represented by the Linux process API"@,
        SupervisorErrorView::InspectProcess { pid, source } => {
            "failed to inspect verified process "@ + decimal(pid as nat) + ": "@ + source
        },
        SupervisorErrorView::EnforceAffinity { pid, source } => {
            "failed to enforce affinity for verified thread "@ + decimal(pid as nat) + ": "@
                + source
        },
        SupervisorErrorView::AffinityMismatch { pid, requested, actual } => "verified thread "@
            + decimal(pid as nat) + " retained affinity "@ + number_list(actual) + ", expected "@
            + number_list(requested),
        SupervisorErrorView::EmptyAffinity => "supervisor affinity set is empty"@,
        SupervisorErrorView::MissingLaunchIdentity { desktop_id, pid } => "managed target `"@
            + desktop_id + "` PID "@ + decimal(pid as nat) + " has no captured Linux start time"@,
        SupervisorErrorView::UnconfirmedExec { desktop_id, pid } => "managed target `"@
            + desktop_id + "` PID "@ + decimal(pid as nat) + " has no confirmed exec transition"@,
        SupervisorErrorView::ProcfsUnavailable { root, reason } => "procfs root "@ + lossy_text(
            root,
        ) + " is unavailable for supervision: "@ + reason,
        SupervisorErrorView::SignalHandling { operation, source } => "failed to "@ + operation
            + " supervisor termination signals: "@ + source,
    }
}

/// A check by its outcome.
pub open spec fn supervisor_failure(r: Result<(), SupervisorError>) -> Option<SupervisorErrorView> {
    match r {
        Ok(_) => None,
        Err(e) => Some(e@),
    }
}

impl SupervisorError {
    /// The message shown to the user.
    pub fn message(&self) -> (out: String)
        ensures
            out@ == supervisor_error_text(self@),
    {
        match self {
            SupervisorError::PollIntervalTooShort { minimum_ms } => {
                "supervisor poll interval must be at least ".to_owned().concat(
                    decimal_text_wide(*minimum_ms).as_str(),
                ).concat(" ms")
            },
            SupervisorError::InvalidAffinityCpu { cpu, source } => {
                "invalid supervisor affinity CPU ".to_owned().concat(
                    decimal_text(*cpu as u64).as_str(),
                ).concat(": ").concat(source.as_str())
            },
            SupervisorError::InvalidPid { pid } => {
                "process ID ".to_owned().concat(decimal_text(*pid as u64).as_str()).concat(
                    " cannot be represented by the Linux process API",
                )
            },
            SupervisorError::InspectProcess { pid, source } => {
                "failed to inspect verified process ".to_owned().concat(
                    decimal_text(*pid as u64).as_str(),
                ).concat(": ").concat(source.as_str())
            },
            SupervisorError::EnforceAffinity { pid, source } => {
                "failed to enforce affinity for verified thread ".to_owned().concat(
                    decimal_text(*pid as u64).as_str(),
                ).concat(": ").concat(source.as_str())
            },
            SupervisorError::AffinityMismatch { pid, requested, actual } => {
                "verified thread ".to_owned().concat(decimal_text(*pid as u64).as_str()).concat(
                    " retained affinity ",
                ).concat(number_list_text(actual).as_str()).concat(", expected ").concat(
                    number_list_text(requested).as_str(),
                )
            },
            SupervisorError::EmptyAffinity => "supervisor affinity set is empty".to_owned(),
            SupervisorError::MissingLaunchIdentity { desktop_id, pid } => {
                "managed target `".to_owned().concat(desktop_id.as_str()).concat("` PID ").concat(
                    decimal_text(*pid as u64).as_str(),
                ).concat(" has no captured Linux start time")
            },
            SupervisorError::UnconfirmedExec { desktop_id, pid } => {
                "managed target `".to_owned().concat(desktop_id.as_str()).concat("` PID ").concat(
                    decimal_text(*pid as u64).as_str(),
                ).concat(" has no confirmed exec transition")
            },
            SupervisorError::ProcfsUnavailable { root, reason } => {
                "procfs root ".to_owned().concat(root.display().as_str()).concat(
                    " is unavailable for supervision: ",
                ).concat(reason.as_str())
            },
            SupervisorError::SignalHandling { operation, source } => {
                "failed to ".to_owned().concat(operation.as_str()).concat(
                    " supervisor termination signals: ",
                ).concat(source.as_str())
            },
        }
    }
}

} // verus!
