//! Running chosen desktop applications on the efficiency cores of a hybrid
//! CPU: topology, desktop discovery, an explicit registry, fail-closed
//! launches, supervision of verified process trees, startup at login and
//! diagnostics.
//!
//! The library decides and never acts. What was seen of the system comes in
//! as plain values, and what is to be done goes out as plain values.

pub mod cli;
pub mod discovery;
pub mod doctor;
pub mod float;
pub mod integration;
pub mod launcher;
pub mod laws;
pub mod order;
pub mod path;
pub mod registry;
pub mod replace;
pub mod rounding;
pub mod supervisor;
pub mod text;
pub mod topology;

pub use discovery::desktop_entry::DesktopEntryParseError;
pub use discovery::exec_parser::{ExecParseError, ParsedExec};
pub use discovery::resolver::{ExecutableResolutionError, ExecutableResolver};
pub use discovery::scanner::{DesktopApplicationScanner, DiscoveryOptions};
pub use discovery::types::{
    DiscoveredApplication, DiscoveryError, DiscoveryReport, DiscoveryWarning,
    DiscoveryWarningCategory, DiscoveryWarningSeverity,
};
pub use doctor::checks::SessionEnvironment;
pub use doctor::diagnose::{diagnose, DoctorOptions};
pub use doctor::report::{DoctorCheck, DoctorReport, DoctorStatus};
pub use integration::autostart::{assess_autostart, AutostartAssessment, AutostartState};
pub use integration::error::IntegrationError;
pub use integration::paths::{IntegrationPaths, USER_UNIT_NAME};
pub use integration::startup::{
    CommandResult, ManagerEnvironmentStatus, StartupChange, StartupManager, StartupStatus,
};
pub use launcher::error::{
    InitiatedApplication, LaunchFailure, LaunchFailureStage, LaunchReport, LauncherError,
};
pub use launcher::execution::ExecutionOptions;
pub use launcher::plan::{
    build_launch_plan, launch_schedule, LaunchPlan, PlannedApplication, ScheduledLaunch,
};
pub use path::UnixPath;
pub use registry::config_path::resolve_config_path;
pub use registry::error::{RegistryError, ValidationError};
pub use registry::model::{
    AppRegistry, ApplicationSettingsUpdate, IoPriorityClass, LauncherDefaults,
    RegisteredApplication, CURRENT_SCHEMA_VERSION, MAX_REGISTERED_APPLICATIONS,
};
pub use registry::operations::{
    AddApplicationsResult, RegisteredApplicationAvailability, RegisteredApplicationStatus,
    RegistryMutationResult,
};
pub use registry::store::{RegistryLoad, RegistryStore};
pub use registry::validation::validate_registry;
pub use supervisor::enroll::supervise_process_trees;
pub use supervisor::types::{
    SupervisionReport, SupervisorError, SupervisorOptions, SupervisorWarning,
    DEFAULT_SUPERVISOR_POLL_INTERVAL,
};
pub use topology::detector::CpuTopologyDetector;
pub use topology::evidence::{DetectionEvidence, EvidenceKind, EvidenceSource, EvidenceStrength};
pub use topology::types::{
    CoreClass, CpuTopology, DetectorError, PhysicalCore, TopologyClass,
};
