//! The outcomes and errors of launching.
use vstd::prelude::*;
use vstd::string::StringExecFns;

use crate::path::{lossy_text, UnixPath};
use crate::registry::error::{problem_text, ProblemView, ValidationError};
use crate::registry::model::{io_class_text, IoPriorityClass};
use crate::text::{
    decimal, decimal_text, number_list, number_list_text, signed_decimal, signed_decimal_text,
    views,
};
use crate::topology::types::{topology_class_text, TopologyClass};

verus! {

/// Stage at which a real launch failed before a successful target exec.
#[derive(Clone, Copy, Debug, PartialEq, Eq, Structural)]
pub enum LaunchFailureStage {
    /// The acknowledgement pipe or helper process could not be created.
    HelperSpawn,
    /// The helper could not apply its E-core affinity.
    Affinity,
    /// The helper could not apply the requested nice value.
    Nice,
    /// The helper could not apply the requested I/O policy.
    IoPriority,
    /// The helper could not directly exec the target.
    Exec,
    /// The helper channel was malformed, closed early, or timed out.
    Acknowledgement,
}

pub open spec fn stage_text(stage: LaunchFailureStage) -> Seq<char> {
    match stage {
        LaunchFailureStage::HelperSpawn => "helper_spawn"@,
        LaunchFailureStage::Affinity => "affinity"@,
        LaunchFailureStage::Nice => "nice"@,
        LaunchFailureStage::IoPriority => "io_priority"@,
        LaunchFailureStage::Exec => "exec"@,
        LaunchFailureStage::Acknowledgement => "acknowledgement"@,
    }
}

impl LaunchFailureStage {
    /// The name of the stage.
    pub fn name(self) -> (out: String)
        ensures
            out@ == stage_text(self),
    {
        match self {
            LaunchFailureStage::HelperSpawn => "helper_spawn".to_owned(),
            LaunchFailureStage::Affinity => "affinity".to_owned(),
            LaunchFailureStage::Nice => "nice".to_owned(),
            LaunchFailureStage::IoPriority => "io_priority".to_owned(),
            LaunchFailureStage::Exec => "exec".to_owned(),
            LaunchFailureStage::Acknowledgement => "acknowledgement".to_owned(),
        }
    }
}

/// One application which successfully crossed the target exec boundary.
#[derive(Debug, PartialEq, Eq)]
pub struct InitiatedApplication {
    /// Stable desktop ID.
    pub desktop_id: String,
    /// Helper PID, which became the target PID at successful exec.
    pub pid: u32,
    /// Linux process start time captured immediately after acknowledged exec.
    /// Supervision refuses enrollment when this identity cannot be confirmed.
    pub process_start_time_ticks: Option<u64>,
    /// Explicit confirmation that helper spawn was not mistaken for target exec.
    pub exec_succeeded: bool,
}

/// An initiated application by its contents.
pub struct InitiatedView {
    pub desktop_id: Seq<char>,
    pub pid: u32,
    pub process_start_time_ticks: Option<u64>,
    pub exec_succeeded: bool,
}

impl View for InitiatedApplication {
    type V = InitiatedView;

    open spec fn view(&self) -> InitiatedView {
        InitiatedView {
            desktop_id: self.desktop_id@,
            pid: self.pid,
            process_start_time_ticks: self.process_start_time_ticks,
            exec_succeeded: self.exec_succeeded,
        }
    }
}

/// Structured information about one application which failed before exec.
#[derive(Debug, PartialEq, Eq)]
pub struct LaunchFailure {
    /// Stable desktop ID.
    pub desktop_id: String,
    /// Helper PID when spawning succeeded.
    pub pid: Option<u32>,
    /// Setup or transition stage which failed.
    pub stage: LaunchFailureStage,
    /// Specific operating-system or protocol diagnostic.
    pub reason: String,
}

/// A launch failure by its contents.
pub struct FailureView {
    pub desktop_id: Seq<char>,
    pub pid: Option<u32>,
    pub stage: LaunchFailureStage,
    pub reason: Seq<char>,
}

impl View for LaunchFailure {
    type V = FailureView;

    open spec fn view(&self) -> FailureView {
        FailureView {
            desktop_id: self.desktop_id@,
            pid: self.pid,
            stage: self.stage,
            reason: self.reason@,
        }
    }
}

impl Clone for LaunchFailure {
    fn clone(&self) -> (out: Self)
        ensures
            out@ == self@,
    {
        LaunchFailure {
            desktop_id: self.desktop_id.clone(),
            pid: self.pid,
            stage: self.stage,
            reason: self.reason.clone(),
        }
    }
}

/// The message of a launch failure.
pub open spec fn failure_text(failure: FailureView) -> Seq<char> {
    "failed to launch `"@ + failure.desktop_id + "` during "@ + stage_text(failure.stage) + ": "@
        + failure.reason
}

impl LaunchFailure {
    /// The message shown to the user.
    pub fn message(&self) -> (out: String)
        ensures
            out@ == failure_text(self@),
    {
        "failed to launch `".to_owned().concat(self.desktop_id.as_str()).concat("` during ").concat(
            self.stage.name().as_str(),
        ).concat(": ").concat(self.reason.as_str())
    }
}

/// Immediate launch-transition results; this never indicates app completion.
#[derive(Debug, PartialEq, Eq)]
pub struct LaunchReport {
    /// Targets which successfully transitioned through exec, in launch order.
    pub initiated: Vec<InitiatedApplication>,
    /// The first pre-exec failure, if execution stopped partway through.
    pub failure: Option<LaunchFailure>,
}

/// A report by its contents.
pub struct LaunchReportView {
    pub initiated: Seq<InitiatedView>,
    pub failure: Option<FailureView>,
}

pub open spec fn optional_failure(failure: Option<LaunchFailure>) -> Option<FailureView> {
    match failure {
        Some(failure) => Some(failure@),
        None => None,
    }
}

impl View for LaunchReport {
    type V = LaunchReportView;

    open spec fn view(&self) -> LaunchReportView {
        LaunchReportView {
            initiated: views(self.initiated@),
            failure: optional_failure(self.failure),
        }
    }
}

impl Default for LaunchReport {
    fn default() -> (out: Self)
        ensures
            out@ == (LaunchReportView { initiated: Seq::empty(), failure: None }),
    {
        let out = LaunchReport { initiated: Vec::new(), failure: None };
        assert(out@.initiated =~= Seq::empty());
        out
    }
}

/// Errors returned while making or executing a launch plan. Where the system
/// failed, `source` is its message.
#[allow(inconsistent_fields)]
#[derive(Debug, PartialEq, Eq)]
pub enum LauncherError {
    /// The supplied registry did not contain valid runtime policy.
    InvalidRegistryPolicy { error: ValidationError },
    /// An explicitly requested ID has not been registered.
    UnknownRegisteredApplication { desktop_id: String },
    /// An explicitly requested ID is not enabled for launching.
    DisabledApplication { desktop_id: String },
    /// A selected registered desktop ID no longer resolves through discovery.
    UnavailableApplication { desktop_id: String },
    /// Terminal applications are deliberately outside the launcher contract.
    TerminalApplication { desktop_id: String },
    /// Conservative topology detection did not confirm a hybrid CPU.
    TopologyNotHybrid { classification: TopologyClass },
    /// A hybrid result without logical E-core IDs is not launchable.
    EmptyEfficiencyCpus,
    /// The system CPU-set API rejected an E-core CPU ID.
    InvalidAffinityCpu { cpu: u32, source: String },
    /// A manually constructed plan contained an invalid launch delay.
    InvalidLaunchDelay { desktop_id: String },
    /// The current launcher executable could not be found for the helper.
    CurrentExecutable { source: String },
    /// A planned target contains a NUL byte, at the given position, and cannot
    /// be passed to exec.
    InvalidExecArgument { field: String, position: usize },
    /// Registry I/O policy was not internally valid.
    InvalidIoPolicy { class: IoPriorityClass, priority: Option<u8> },
    /// Applying the affinity set in the helper failed.
    ApplyAffinity { source: String },
    /// Linux accepted the syscall but retained a different allowed mask.
    AffinityMismatch { requested: Vec<u32>, actual: Vec<u32> },
    /// Applying or verifying the exact nice value failed.
    ApplyNice { nice: i8, source: String },
    /// The kernel did not retain the exact requested nice value.
    NiceMismatch { requested: i8, actual: i32 },
    /// Applying or verifying the exact I/O priority failed.
    ApplyIoPriority { class: IoPriorityClass, priority: Option<u8>, source: String },
    /// The kernel did not retain the exact requested I/O mask.
    IoPriorityMismatch { requested: u16, actual: u16 },
    /// Directly replacing the helper with the target failed.
    Exec { executable: UnixPath, source: String },
    /// The helper could not establish or write its acknowledgement channel.
    HelperAcknowledgement { source: String },
    /// One real launch failed; the report preserves earlier exec successes.
    RuntimeLaunchFailed { failure: Box<LaunchFailure>, report: Box<LaunchReport> },
}

/// A launch error by its contents.
#[allow(inconsistent_fields)]
pub enum LauncherErrorView {
    InvalidRegistryPolicy { error: ProblemView },
    UnknownRegisteredApplication { desktop_id: Seq<char> },
    DisabledApplication { desktop_id: Seq<char> },
    UnavailableApplication { desktop_id: Seq<char> },
    TerminalApplication { desktop_id: Seq<char> },
    TopologyNotHybrid { classification: TopologyClass },
    EmptyEfficiencyCpus,
    InvalidAffinityCpu { cpu: u32, source: Seq<char> },
    InvalidLaunchDelay { desktop_id: Seq<char> },
    CurrentExecutable { source: Seq<char> },
    InvalidExecArgument { field: Seq<char>, position: int },
    InvalidIoPolicy { class: IoPriorityClass, priority: Option<u8> },
    ApplyAffinity { source: Seq<char> },
    AffinityMismatch { requested: Seq<u32>, actual: Seq<u32> },
    ApplyNice { nice: i8, source: Seq<char> },
    NiceMismatch { requested: i8, actual: i32 },
    ApplyIoPriority { class: IoPriorityClass, priority: Option<u8>, source: Seq<char> },
    IoPriorityMismatch { requested: u16, actual: u16 },
    Exec { executable: Seq<u8>, source: Seq<char> },
    HelperAcknowledgement { source: Seq<char> },
    RuntimeLaunchFailed { failure: FailureView, report: LaunchReportView },
}

impl View for LauncherError {
    type V = LauncherErrorView;

    open spec fn view(&self) -> LauncherErrorView {
        match self {
            LauncherError::InvalidRegistryPolicy { error } => {
                LauncherErrorView::InvalidRegistryPolicy { error: error@ }
            },
            LauncherError::UnknownRegisteredApplication { desktop_id } => {
                LauncherErrorView::UnknownRegisteredApplication { desktop_id: desktop_id@ }
            },
            LauncherError::DisabledApplication { desktop_id } => {
                LauncherErrorView::DisabledApplication { desktop_id: desktop_id@ }
            },
            LauncherError::UnavailableApplication { desktop_id } => {
                LauncherErrorView::UnavailableApplication { desktop_id: desktop_id@ }
            },
            LauncherError::TerminalApplication { desktop_id } => {
                LauncherErrorView::TerminalApplication { desktop_id: desktop_id@ }
            },
            LauncherError::TopologyNotHybrid { classification } => {
                LauncherErrorView::TopologyNotHybrid { classification: *classification }
            },
            LauncherError::EmptyEfficiencyCpus => LauncherErrorView::EmptyEfficiencyCpus,
            LauncherError::InvalidAffinityCpu { cpu, source } => {
                LauncherErrorView::InvalidAffinityCpu { cpu: *cpu, source: source@ }
            },
            LauncherError::InvalidLaunchDelay { desktop_id } => {
                LauncherErrorView::InvalidLaunchDelay { desktop_id: desktop_id@ }
            },
            LauncherError::CurrentExecutable { source } => LauncherErrorView::CurrentExecutable {
                source: source@,
            },
            LauncherError::InvalidExecArgument { field, position } => {
                LauncherErrorView::InvalidExecArgument { field: field@, position: *position as int }
            },
            LauncherError::InvalidIoPolicy { class, priority } => {
                LauncherErrorView::InvalidIoPolicy { class: *class, priority: *priority }
            },
            LauncherError::ApplyAffinity { source } => LauncherErrorView::ApplyAffinity {
                source: source@,
            },
            LauncherError::AffinityMismatch { requested, actual } => {
                LauncherErrorView::AffinityMismatch { requested: requested@, actual: actual@ }
            },
            LauncherError::ApplyNice { nice, source } => LauncherErrorView::ApplyNice {
                nice: *nice,
                source: source@,
            },
            LauncherError::NiceMismatch { requested, actual } => LauncherErrorView::NiceMismatch {
                requested: *requested,
                actual: *actual,
            },
            LauncherError::ApplyIoPriority { class, priority, source } => {
                LauncherErrorView::ApplyIoPriority {
                    class: *class,
                    priority: *priority,
                    source: source@,
                }
            },
            LauncherError::IoPriorityMismatch { requested, actual } => {
                LauncherErrorView::IoPriorityMismatch { requested: *requested, actual: *actual }
            },
            LauncherError::Exec { executable, source } => LauncherErrorView::Exec {
                executable: executable@,
                source: source@,
            },
            LauncherError::HelperAcknowledgement { source } => {
                LauncherErrorView::HelperAcknowledgement { source: source@ }
            },
            LauncherError::RuntimeLaunchFailed { failure, report } => {
                LauncherErrorView::RuntimeLaunchFailed { failure: failure@, report: report@ }
            },
        }
    }
}

/// A priority level that may be absent, as it stands in messages.
pub open spec fn priority_text(priority: Option<u8>) -> Seq<char> {
    match priority {
        None => "None"@,
        Some(level) => "Some("@ + decimal(level as nat) + ")"@,
    }
}

fn show_priority(priority: Option<u8>) -> (out: String)
    ensures
        out@ == priority_text(priority),
{
    match priority {
        None => "None".to_owned(),
        Some(level) => "Some(".to_owned().concat(decimal_text(level as u64).as_str()).concat(")"),
    }
}

/// The message of a launch error.
pub open spec fn launcher_error_text(e: LauncherErrorView) -> Seq<char> {
    match e {
        LauncherErrorView::InvalidRegistryPolicy { error } => "registry policy is invalid: "@
            + problem_text(error),
        LauncherErrorView::UnknownRegisteredApplication { desktop_id } => "desktop application `"@
            + desktop_id + "` is not registered"@,
        LauncherErrorView::DisabledApplication { desktop_id } => "desktop application `"@
            + desktop_id + "` is disabled"@,
        LauncherErrorView::UnavailableApplication { desktop_id } => "desktop application `"@
            + desktop_id + "` is not currently discoverable"@,
        LauncherErrorView::TerminalApplication { desktop_id } => "desktop application `"@
            + desktop_id + "` requires Terminal=true and cannot be launched"@,
        LauncherErrorView::TopologyNotHybrid { classification } => {
            "reliable E-cores are unavailable: detected topology is "@ + topology_class_text(
                classification,
            )
        },
        LauncherErrorView::EmptyEfficiencyCpus => {
            "reliable E-cores are unavailable: hybrid topology has no efficiency CPUs"@
        },
        LauncherErrorView::InvalidAffinityCpu { cpu, source } => "CPU "@ + decimal(cpu as nat)
            + " cannot be represented in the Linux affinity set: "@ + source,
        LauncherErrorView::InvalidLaunchDelay { desktop_id } => "launch delay for `"@ + desktop_id
            + "` cannot be represented safely"@,
        LauncherErrorView::CurrentExecutable { source } => {
            "failed to resolve the current launcher executable: "@ + source
        },
        LauncherErrorView::InvalidExecArgument { field, position } => "launch "@ + field
            + " contains an interior NUL byte: nul byte found in provided data at position: "@
            + decimal(position as nat),
        LauncherErrorView::InvalidIoPolicy { class, priority } => "invalid "@ + io_class_text(class)
            + " I/O policy with priority "@ + priority_text(priority),
        LauncherErrorView::ApplyAffinity { source } => "failed to apply E-core affinity: "@
            + source,
        LauncherErrorView::AffinityMismatch { requested, actual } => "requested E-core affinity "@
            + number_list(requested) + ", but kernel reported "@ + number_list(actual),
        LauncherErrorView::ApplyNice { nice, source } => "failed to apply nice value "@
            + signed_decimal(nice as int) + ": "@ + source,
        LauncherErrorView::NiceMismatch { requested, actual } => "requested nice value "@
            + signed_decimal(requested as int) + ", but kernel reported "@ + signed_decimal(
            actual as int,
        ),
        LauncherErrorView::ApplyIoPriority { class, priority, source } => "failed to apply "@
            + io_class_text(class) + " I/O priority "@ + priority_text(priority) + ": "@ + source,
        LauncherErrorView::IoPriorityMismatch { requested, actual } => {
            "requested I/O priority mask "@ + decimal(requested as nat)
                + ", but kernel reported "@ + decimal(actual as nat)
        },
        LauncherErrorView::Exec { executable, source } => "failed to exec target "@ + lossy_text(
            executable,
        ) + ": "@ + source,
        LauncherErrorView::HelperAcknowledgement { source } => {
            "helper acknowledgement channel failed: "@ + source
        },
        LauncherErrorView::RuntimeLaunchFailed { failure, report } => failure_text(failure),
    }
}

/// The stage that a helper reports for an error.
pub open spec fn error_stage(e: LauncherErrorView) -> LaunchFailureStage {
    match e {
        LauncherErrorView::ApplyAffinity { .. } | LauncherErrorView::AffinityMismatch {
            ..
        } | LauncherErrorView::InvalidAffinityCpu { .. } => LaunchFailureStage::Affinity,
        LauncherErrorView::ApplyNice { .. } | LauncherErrorView::NiceMismatch {
            ..
        } => LaunchFailureStage::Nice,
        LauncherErrorView::InvalidIoPolicy { .. } | LauncherErrorView::ApplyIoPriority {
            ..
        } | LauncherErrorView::IoPriorityMismatch { .. } => LaunchFailureStage::IoPriority,
        LauncherErrorView::Exec { .. } | LauncherErrorView::InvalidExecArgument {
            ..
        } => LaunchFailureStage::Exec,
        _ => LaunchFailureStage::Acknowledgement,
    }
}

impl LauncherError {
    /// The message shown to the user.
    pub fn message(&self) -> (out: String)
        ensures
            out@ == launcher_error_text(self@),
    {
        match self {
            LauncherError::InvalidRegistryPolicy { error } => {
                "registry policy is invalid: ".to_owned().concat(error.text().as_str())
            },
            LauncherError::UnknownRegisteredApplication { desktop_id } => {
                "desktop application `".to_owned().concat(desktop_id.as_str()).concat(
                    "` is not registered",
                )
            },
            LauncherError::DisabledApplication { desktop_id } => {
                "desktop application `".to_owned().concat(desktop_id.as_str()).concat(
                    "` is disabled",
                )
            },
            LauncherError::UnavailableApplication { desktop_id } => {
                "desktop application `".to_owned().concat(desktop_id.as_str()).concat(
                    "` is not currently discoverable",
                )
            },
            LauncherError::TerminalApplication { desktop_id } => {
                "desktop application `".to_owned().concat(desktop_id.as_str()).concat(
                    "` requires Terminal=true and cannot be launched",
                )
            },
            LauncherError::TopologyNotHybrid { classification } => {
                "reliable E-cores are unavailable: detected topology is ".to_owned().concat(
                    classification.name().as_str(),
                )
            },
            LauncherError::EmptyEfficiencyCpus => {
                "reliable E-cores are unavailable: hybrid topology has no efficiency CPUs".to_owned()
            },
            LauncherError::InvalidAffinityCpu { cpu, source } => {
                "CPU ".to_owned().concat(decimal_text(*cpu as u64).as_str()).concat(
                    " cannot be represented in the Linux affinity set: ",
                ).concat(source.as_str())
            },
            LauncherError::InvalidLaunchDelay { desktop_id } => {
                "launch delay for `".to_owned().concat(desktop_id.as_str()).concat(
                    "` cannot be represented safely",
                )
            },
            LauncherError::CurrentExecutable { source } => {
                "failed to resolve the current launcher executable: ".to_owned().concat(
                    source.as_str(),
                )
            },
            LauncherError::InvalidExecArgument { field, position } => {
                "launch ".to_owned().concat(field.as_str()).concat(
                    " contains an interior NUL byte: nul byte found in provided data at position: ",
                ).concat(decimal_text(*position as u64).as_str())
            },
            LauncherError::InvalidIoPolicy { class, priority } => {
                "invalid ".to_owned().concat(class.name().as_str()).concat(
                    " I/O policy with priority ",
                ).concat(show_priority(*priority).as_str())
            },
            LauncherError::ApplyAffinity { source } => {
                "failed to apply E-core affinity: ".to_owned().concat(source.as_str())
            },
            LauncherError::AffinityMismatch { requested, actual } => {
                "requested E-core affinity ".to_owned().concat(
                    number_list_text(requested).as_str(),
                ).concat(", but kernel reported ").concat(number_list_text(actual).as_str())
            },
            LauncherError::ApplyNice { nice, source } => {
                "failed to apply nice value ".to_owned().concat(
                    signed_decimal_text(*nice as i64).as_str(),
                ).concat(": ").concat(source.as_str())
            },
            LauncherError::NiceMismatch { requested, actual } => {
                "requested nice value ".to_owned().concat(
                    signed_decimal_text(*requested as i64).as_str(),
                ).concat(", but kernel reported ").concat(
                    signed_decimal_text(*actual as i64).as_str(),
                )
            },
            LauncherError::ApplyIoPriority { class, priority, source } => {
                "failed to apply ".to_owned().concat(class.name().as_str()).concat(
                    " I/O priority ",
                ).concat(show_priority(*priority).as_str()).concat(": ").concat(source.as_str())
            },
            LauncherError::IoPriorityMismatch { requested, actual } => {
                "requested I/O priority mask ".to_owned().concat(
                    decimal_text(*requested as u64).as_str(),
                ).concat(", but kernel reported ").concat(decimal_text(*actual as u64).as_str())
            },
            LauncherError::Exec { executable, source } => {
                "failed to exec target ".to_owned().concat(executable.display().as_str()).concat(
                    ": ",
                ).concat(source.as_str())
            },
            LauncherError::HelperAcknowledgement { source } => {
                "helper acknowledgement channel failed: ".to_owned().concat(source.as_str())
            },
            LauncherError::RuntimeLaunchFailed { failure, report } => failure.message(),
        }
    }

    /// Exec-success records retained before a later runtime failure.
    pub fn initiated(&self) -> (out: &[InitiatedApplication])
        ensures
            views(out@) == match self@ {
                LauncherErrorView::RuntimeLaunchFailed { failure, report } => report.initiated,
                _ => Seq::empty(),
            },
    {
        match self {
            LauncherError::RuntimeLaunchFailed { failure, report } => report.initiated.as_slice(),
            _ => {
                let out: &[InitiatedApplication] = &[];
                assert(views(out@) =~= Seq::empty());
                out
            },
        }
    }

    /// Partial report retained by a runtime launch failure.
    pub fn launch_report(&self) -> (out: Option<&LaunchReport>)
        ensures
            match self@ {
                LauncherErrorView::RuntimeLaunchFailed { failure, report } => out is Some
                    && out->0@ == report,
                _ => out is None,
            },
    {
        match self {
            LauncherError::RuntimeLaunchFailed { failure, report } => Some(&**report),
            _ => None,
        }
    }

    /// The stage that a helper reports for the error.
    pub fn helper_stage(&self) -> (out: LaunchFailureStage)
        ensures
            out == error_stage(self@),
    {
        match self {
            LauncherError::ApplyAffinity { .. } | LauncherError::AffinityMismatch {
                ..
            } | LauncherError::InvalidAffinityCpu { .. } => LaunchFailureStage::Affinity,
            LauncherError::ApplyNice { .. } | LauncherError::NiceMismatch {
                ..
            } => LaunchFailureStage::Nice,
            LauncherError::InvalidIoPolicy { .. } | LauncherError::ApplyIoPriority {
                ..
            } | LauncherError::IoPriorityMismatch { .. } => LaunchFailureStage::IoPriority,
            LauncherError::Exec { .. } | LauncherError::InvalidExecArgument {
                ..
            } => LaunchFailureStage::Exec,
            _ => LaunchFailureStage::Acknowledgement,
        }
    }
}

} // verus!
