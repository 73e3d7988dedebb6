//! Startup at login through a unit of the user's systemd manager.
//!
//! The operations give plans: what has to be done, in order. The first action
//! that fails ends a plan.
use vstd::prelude::*;
use vstd::string::StrSliceExecFns;
use vstd::string::StringExecFns;

use super::autostart::{
    assess_autostart, assessments, autostart_paths, preflight_suppression, state_at, state_of,
    suppression_failure, AssessmentView, AutostartAssessment, AutostartState, ObservedFile,
};
use super::error::{IntegrationError, IntegrationErrorView};
use super::files::{
    generated_unit, is_generated_unit, owned_autostart_contents, owned_override, ownership_failure,
    read_optional_regular, regular_text, reject_unowned, startup_marker, startup_marker_text,
    string_outcome, unit_contents, unit_for, FileState, FileStateView, OwnedFile, OwnedView,
};
use super::paths::{
    absolute_path_failure, failure, path_bytes_failure, user_root_failure, validate_absolute_path,
    validate_path_bytes, validate_user_root, USER_UNIT_NAME, IntegrationPaths, PathsView,
    RootStates,
};

use crate::path::{lossy, lossy_text, UnixPath};
use crate::registry::model::{AppRegistry, RegisteredView};
use crate::text::{
    find_char, find_in, group_views, lines, lines_of, optional_text_view, same_text, trim,
    trim_text, views,
};

verus! {

/// An operation of the user's systemd manager.
#[derive(Clone, Copy, Debug, PartialEq, Eq, Structural)]
pub enum SystemctlOperation {
    DaemonReload,
    Enable,
    Disable,
    IsEnabled,
    ShowEnvironment,
}

impl SystemctlOperation {
    pub open spec fn spec_name(self) -> Seq<char> {
        match self {
            SystemctlOperation::DaemonReload => "daemon-reload"@,
            SystemctlOperation::Enable => "enable"@,
            SystemctlOperation::Disable => "disable"@,
            SystemctlOperation::IsEnabled => "is-enabled"@,
            SystemctlOperation::ShowEnvironment => "show-environment"@,
        }
    }

    /// The direct arguments of `systemctl`.
    pub open spec fn words(self) -> Seq<Seq<char>> {
        match self {
            SystemctlOperation::DaemonReload | SystemctlOperation::ShowEnvironment => {
                seq!["--user"@, self.spec_name()]
            },
            _ => seq!["--user"@, self.spec_name(), USER_UNIT_NAME@],
        }
    }

    /// The name of the operation.
    pub fn name(self) -> (out: String)
        ensures
            out@ == self.spec_name(),
    {
        match self {
            SystemctlOperation::DaemonReload => "daemon-reload".to_owned(),
            SystemctlOperation::Enable => "enable".to_owned(),
            SystemctlOperation::Disable => "disable".to_owned(),
            SystemctlOperation::IsEnabled => "is-enabled".to_owned(),
            SystemctlOperation::ShowEnvironment => "show-environment".to_owned(),
        }
    }

    /// The direct arguments of `systemctl`.
    pub fn arguments(self) -> (out: Vec<String>)
        ensures
            views(out@) == self.words(),
    {
        broadcast use group_views;

        let mut out: Vec<String> = Vec::new();
        out.push("--user".to_owned());
        out.push(self.name());
        match self {
            SystemctlOperation::DaemonReload | SystemctlOperation::ShowEnvironment => {},
            _ => {
                out.push(USER_UNIT_NAME.to_owned());
            },
        }
        assert(views(out@) =~= self.words());
        out
    }
}

/// Result of one direct command invocation.
#[derive(Debug, PartialEq, Eq)]
pub struct CommandResult {
    /// Whether the command returned a successful exit status.
    pub success: bool,
    /// Captured standard output.
    pub stdout: Vec<u8>,
    /// Captured standard error.
    pub stderr: Vec<u8>,
}

/// What came of starting a command.
#[derive(Debug, PartialEq, Eq)]
pub enum CommandOutcome {
    Finished(CommandResult),
    /// The command could not be run; the system's message.
    Failed(String),
}

/// What is said of a command that failed, from what it wrote.
pub open spec fn diagnostic(stdout: Seq<char>, stderr: Seq<char>) -> Seq<char> {
    let detail = if trim(stderr).len() == 0 {
        trim(stdout)
    } else {
        trim(stderr)
    };
    if detail.len() == 0 {
        "command returned a non-zero status"@
    } else {
        detail
    }
}

/// What is said of a command that failed, from the text that it wrote.
pub fn diagnostic_text(stdout: &str, stderr: &str) -> (out: String)
    ensures
        out@ == diagnostic(stdout@, stderr@),
{
    let trimmed = trim_text(stderr);
    let detail = if trimmed.unicode_len() == 0 {
        trim_text(stdout)
    } else {
        trimmed
    };
    if detail.unicode_len() == 0 {
        "command returned a non-zero status".to_owned()
    } else {
        detail.to_owned()
    }
}

/// What is said of a command that failed.
pub fn command_diagnostic(result: &CommandResult) -> (out: String)
    ensures
        out@ == diagnostic(lossy_text(result.stdout@), lossy_text(result.stderr@)),
{
    let stdout = lossy(&result.stdout);
    let stderr = lossy(&result.stderr);
    diagnostic_text(stdout.as_str(), stderr.as_str())
}

/// Why an operation of the manager failed.
pub open spec fn systemctl_failure(
    operation: SystemctlOperation,
    outcome: CommandOutcome,
) -> Option<IntegrationErrorView> {
    match outcome {
        CommandOutcome::Failed(source) => Some(
            IntegrationErrorView::Systemctl { operation: operation.spec_name(), reason: source@ },
        ),
        CommandOutcome::Finished(result) => if result.success {
            None
        } else {
            Some(
                IntegrationErrorView::Systemctl {
                    operation: operation.spec_name(),
                    reason: diagnostic(lossy_text(result.stdout@), lossy_text(result.stderr@)),
                },
            )
        },
    }
}

/// Whether an operation of the manager succeeded.
pub fn systemctl_result(operation: SystemctlOperation, outcome: &CommandOutcome) -> (out: Result<
    (),
    IntegrationError,
>)
    ensures
        failure(out) == systemctl_failure(operation, *outcome),
{
    match outcome {
        CommandOutcome::Failed(source) => Err(
            IntegrationError::Systemctl { operation: operation.name(), reason: source.clone() },
        ),
        CommandOutcome::Finished(result) => if result.success {
            Ok(())
        } else {
            Err(
                IntegrationError::Systemctl {
                    operation: operation.name(),
                    reason: command_diagnostic(result),
                },
            )
        },
    }
}

/// States of a unit that is not enabled and about which there is nothing more
/// to say.
pub open spec fn is_plain_state(state: Seq<char>) -> bool {
    state == "disabled"@ || state == "static"@ || state == "indirect"@ || state == "not-found"@
}

/// Whether a unit is enabled, and what else is to say, from the text that the
/// manager wrote.
pub open spec fn enabled_with(success: bool, stdout: Seq<char>, stderr: Seq<char>) -> (
    Option<bool>,
    Option<Seq<char>>,
) {
    if success {
        (Some(true), None)
    } else if is_plain_state(trim(stdout)) {
        (Some(false), None)
    } else {
        (Some(false), Some(diagnostic(stdout, stderr)))
    }
}

/// Whether a unit is enabled, and what else is to say.
pub open spec fn enabled_state(outcome: CommandOutcome) -> (Option<bool>, Option<Seq<char>>) {
    match outcome {
        CommandOutcome::Failed(source) => (None, Some(source@)),
        CommandOutcome::Finished(result) => enabled_with(
            result.success,
            lossy_text(result.stdout@),
            lossy_text(result.stderr@),
        ),
    }
}

/// Whether a unit is enabled, and what else is to say, from the text that the
/// manager wrote.
pub fn read_enabled_text(success: bool, stdout: &str, stderr: &str) -> (out: (
    Option<bool>,
    Option<String>,
))
    ensures
        (out.0, optional_text_view(out.1)) == enabled_with(success, stdout@, stderr@),
{
    if success {
        return (Some(true), None);
    }
    let state = trim_text(stdout);
    if same_text(state, "disabled") || same_text(state, "static") || same_text(state, "indirect")
        || same_text(state, "not-found") {
        (Some(false), None)
    } else {
        (Some(false), Some(diagnostic_text(stdout, stderr)))
    }
}

fn read_enabled(outcome: &CommandOutcome) -> (out: (Option<bool>, Option<String>))
    ensures
        (out.0, optional_text_view(out.1)) == enabled_state(*outcome),
{
    match outcome {
        CommandOutcome::Failed(source) => (None, Some(source.clone())),
        CommandOutcome::Finished(result) => {
            let stdout = lossy(&result.stdout);
            let stderr = lossy(&result.stderr);
            read_enabled_text(result.success, stdout.as_str(), stderr.as_str())
        },
    }
}

/// Presence-only view of graphical variables in the systemd user manager.
#[derive(Clone, Copy, Debug, PartialEq, Eq, Structural)]
pub struct ManagerEnvironmentStatus {
    pub display: bool,
    pub wayland_display: bool,
    pub current_desktop: bool,
    pub session_bus: bool,
}

impl Default for ManagerEnvironmentStatus {
    fn default() -> (out: Self)
        ensures
            out == (ManagerEnvironmentStatus {
                display: false,
                wayland_display: false,
                current_desktop: false,
                session_bus: false,
            }),
    {
        ManagerEnvironmentStatus {
            display: false,
            wayland_display: false,
            current_desktop: false,
            session_bus: false,
        }
    }
}

impl ManagerEnvironmentStatus {
    pub open spec fn ready(self) -> bool {
        (self.display || self.wayland_display) && self.current_desktop && self.session_bus
    }

    /// A display protocol, desktop identity, and session bus are all present.
    pub fn is_ready(&self) -> (out: bool)
        ensures
            out == self.ready(),
    {
        (self.display || self.wayland_display) && self.current_desktop && self.session_bus
    }
}

/// A line that gives a variable a value that is not empty.
pub open spec fn sets_variable(line: Seq<char>, key: Seq<char>) -> bool {
    let at = find_char(line, '=');
    at + 1 < line.len() && line.take(at) == key
}

/// Some line gives a variable a value that is not empty.
pub open spec fn has_variable(lines: Seq<Seq<char>>, key: Seq<char>) -> bool {
    exists|i: int| 0 <= i < lines.len() && #[trigger] sets_variable(lines[i], key)
}

/// The graphical variables that an environment sets.
pub open spec fn environment_status(text: Seq<char>) -> ManagerEnvironmentStatus {
    let all = lines(text);
    ManagerEnvironmentStatus {
        display: has_variable(all, "DISPLAY"@),
        wayland_display: has_variable(all, "WAYLAND_DISPLAY"@),
        current_desktop: has_variable(all, "XDG_CURRENT_DESKTOP"@),
        session_bus: has_variable(all, "DBUS_SESSION_BUS_ADDRESS"@),
    }
}

fn line_sets(line: &str, key: &str) -> (out: bool)
    ensures
        out == sets_variable(line@, key@),
{
    let at: usize = find_in(line, '=');
    let n: usize = line.unicode_len();
    if at >= n || at + 1 >= n {
        return false;
    }
    let name = line.substring_char(0, at);
    assert(name@ =~= line@.take(at as int));
    same_text(name, key)
}

fn lines_set(lines: &Vec<String>, key: &str) -> (out: bool)
    ensures
        out == has_variable(views(lines@), key@),
{
    let ghost all = views(lines@);
    let mut i: usize = 0;
    while i < lines.len()
        invariant
            i <= lines@.len(),
            all == views(lines@),
            forall|k: int| 0 <= k < i ==> !#[trigger] sets_variable(all[k], key@),
        decreases lines.len() - i,
    {
        assert(all[i as int] == lines@[i as int]@);
        if line_sets(lines[i].as_str(), key) {
            assert(sets_variable(all[i as int], key@));
            return true;
        }
        i += 1;
    }
    false
}

/// The graphical variables that the text of an environment sets.
pub fn parse_environment_text(text: &str) -> (out: ManagerEnvironmentStatus)
    ensures
        out == environment_status(text@),
{
    let all = lines_of(text);
    ManagerEnvironmentStatus {
        display: lines_set(&all, "DISPLAY"),
        wayland_display: lines_set(&all, "WAYLAND_DISPLAY"),
        current_desktop: lines_set(&all, "XDG_CURRENT_DESKTOP"),
        session_bus: lines_set(&all, "DBUS_SESSION_BUS_ADDRESS"),
    }
}

/// The graphical variables that the manager's environment sets.
pub fn parse_manager_environment(stdout: &Vec<u8>) -> (out: ManagerEnvironmentStatus)
    ensures
        out == environment_status(lossy_text(stdout@)),
{
    parse_environment_text(lossy(stdout).as_str())
}

/// The manager's environment, or what is said where it could not be had.
pub open spec fn manager_environment(outcome: CommandOutcome) -> (
    Option<ManagerEnvironmentStatus>,
    Option<Seq<char>>,
) {
    match outcome {
        CommandOutcome::Failed(source) => (None, Some(source@)),
        CommandOutcome::Finished(result) => if result.success {
            (Some(environment_status(lossy_text(result.stdout@))), None)
        } else {
            (None, Some(diagnostic(lossy_text(result.stdout@), lossy_text(result.stderr@))))
        },
    }
}

fn read_manager_environment(outcome: &CommandOutcome) -> (out: (
    Option<ManagerEnvironmentStatus>,
    Option<String>,
))
    ensures
        (out.0, optional_text_view(out.1)) == manager_environment(*outcome),
{
    match outcome {
        CommandOutcome::Failed(source) => (None, Some(source.clone())),
        CommandOutcome::Finished(result) => if result.success {
            (Some(parse_manager_environment(&result.stdout)), None)
        } else {
            (None, Some(command_diagnostic(result)))
        },
    }
}

/// One action of a plan.
#[derive(Debug, PartialEq, Eq)]
pub enum StartupAction {
    /// Write a file in place of one that is missing or owned.
    Write { path: UnixPath, contents: String, owned: OwnedFile },
    /// Remove an owned file.
    Remove { path: UnixPath, owned: OwnedFile },
    Systemctl(SystemctlOperation),
}

/// An action by its contents.
pub enum ActionView {
    Write { path: Seq<u8>, contents: Seq<char>, owned: OwnedView },
    Remove { path: Seq<u8>, owned: OwnedView },
    Systemctl(SystemctlOperation),
}

impl View for StartupAction {
    type V = ActionView;

    open spec fn view(&self) -> ActionView {
        match self {
            StartupAction::Write { path, contents, owned } => ActionView::Write {
                path: path@,
                contents: contents@,
                owned: owned@,
            },
            StartupAction::Remove { path, owned } => ActionView::Remove {
                path: path@,
                owned: owned@,
            },
            StartupAction::Systemctl(operation) => ActionView::Systemctl(*operation),
        }
    }
}

/// Mutating startup operation summary.
#[derive(Debug, PartialEq, Eq)]
pub struct StartupChange {
    /// Unit installed or removed by this operation.
    pub unit_changed: bool,
    /// Desktop IDs whose launcher-owned overrides were created or removed.
    pub autostart_overrides_changed: Vec<String>,
}

/// A summary by its contents.
pub struct ChangeView {
    pub unit_changed: bool,
    pub autostart_overrides_changed: Seq<Seq<char>>,
}

impl View for StartupChange {
    type V = ChangeView;

    open spec fn view(&self) -> ChangeView {
        ChangeView {
            unit_changed: self.unit_changed,
            autostart_overrides_changed: views(self.autostart_overrides_changed@),
        }
    }
}

/// Actions, and the summary that holds once all of them succeeded.
#[derive(Debug, PartialEq, Eq)]
pub struct StartupPlan {
    pub actions: Vec<StartupAction>,
    pub change: StartupChange,
}

/// A plan by its contents.
pub struct PlanView {
    pub actions: Seq<ActionView>,
    pub change: ChangeView,
}

impl View for StartupPlan {
    type V = PlanView;

    open spec fn view(&self) -> PlanView {
        PlanView { actions: views(self.actions@), change: self.change@ }
    }
}

/// A plan or an error, by contents.
pub open spec fn plan_outcome(out: Result<StartupPlan, IntegrationError>) -> Result<
    PlanView,
    IntegrationErrorView,
> {
    match out {
        Ok(plan) => Ok(plan@),
        Err(e) => Err(e@),
    }
}

/// Read-only startup integration state.
#[derive(Debug, PartialEq, Eq)]
pub struct StartupStatus {
    /// User-level unit location.
    pub unit_path: UnixPath,
    /// Whether a unit file exists at that location.
    pub unit_present: bool,
    /// Whether present contents match the launcher's generated format.
    pub unit_owned: bool,
    /// Whether present contents exactly match current executable/config inputs.
    pub unit_current: bool,
    /// Whether the startup ownership marker exists.
    pub ownership_present: bool,
    /// Whether a present ownership marker has the exact expected contents.
    pub ownership_owned: bool,
    /// `systemctl --user is-enabled` result; absent when systemctl was unavailable.
    pub enabled: Option<bool>,
    /// Read-only systemctl diagnostic, when its invocation failed.
    pub systemctl_diagnostic: Option<String>,
    /// Relevant environment readiness reported by the systemd user manager.
    pub manager_environment: Option<ManagerEnvironmentStatus>,
    /// Diagnostic when user-manager environment could not be queried.
    pub manager_environment_diagnostic: Option<String>,
    /// Enabled registered applications' autostart assessments.
    pub autostart: Vec<AutostartAssessment>,
}

/// A status by its contents.
pub struct StatusView {
    pub unit_path: Seq<u8>,
    pub unit_present: bool,
    pub unit_owned: bool,
    pub unit_current: bool,
    pub ownership_present: bool,
    pub ownership_owned: bool,
    pub enabled: Option<bool>,
    pub systemctl_diagnostic: Option<Seq<char>>,
    pub manager_environment: Option<ManagerEnvironmentStatus>,
    pub manager_environment_diagnostic: Option<Seq<char>>,
    pub autostart: Seq<AssessmentView>,
}

impl View for StartupStatus {
    type V = StatusView;

    open spec fn view(&self) -> StatusView {
        StatusView {
            unit_path: self.unit_path@,
            unit_present: self.unit_present,
            unit_owned: self.unit_owned,
            unit_current: self.unit_current,
            ownership_present: self.ownership_present,
            ownership_owned: self.ownership_owned,
            enabled: self.enabled,
            systemctl_diagnostic: optional_text_view(self.systemctl_diagnostic),
            manager_environment: self.manager_environment,
            manager_environment_diagnostic: optional_text_view(self.manager_environment_diagnostic),
            autostart: views(self.autostart@),
        }
    }
}

/// A status or an error, by contents.
pub open spec fn status_outcome(out: Result<StartupStatus, IntegrationError>) -> Result<
    StatusView,
    IntegrationErrorView,
> {
    match out {
        Ok(status) => Ok(status@),
        Err(e) => Err(e@),
    }
}

/// Reusable manager for user-level startup integration.
#[derive(Debug, PartialEq, Eq)]
pub struct StartupManager {
    pub paths: IntegrationPaths,
    pub launcher_executable: UnixPath,
    pub registry_path: UnixPath,
    pub systemctl_executable: UnixPath,
}

/// A manager by its contents.
pub struct ManagerView {
    pub paths: PathsView,
    pub launcher_executable: Seq<u8>,
    pub registry_path: Seq<u8>,
    pub systemctl_executable: Seq<u8>,
}

impl View for StartupManager {
    type V = ManagerView;

    open spec fn view(&self) -> ManagerView {
        ManagerView {
            paths: self.paths@,
            launcher_executable: self.launcher_executable@,
            registry_path: self.registry_path@,
            systemctl_executable: self.systemctl_executable@,
        }
    }
}

/// Why there can be no manager with the given contents.
pub open spec fn manager_failure(manager: ManagerView, states: RootStates) -> Option<
    IntegrationErrorView,
> {
    let config = user_root_failure(
        manager.paths.config_home,
        "XDG configuration home"@,
        states.config_home@,
        states.user,
    );
    let state = user_root_failure(
        manager.paths.state_home,
        "XDG state home"@,
        states.state_home@,
        states.user,
    );
    let launcher = absolute_path_failure(manager.launcher_executable, "launcher executable"@);
    let registry = absolute_path_failure(manager.registry_path, "registry configuration"@);
    if config is Some {
        config
    } else if state is Some {
        state
    } else if launcher is Some {
        launcher
    } else if registry is Some {
        registry
    } else {
        path_bytes_failure(manager.systemctl_executable, "systemctl executable"@)
    }
}

impl ManagerView {
    /// The unit for the current paths.
    pub open spec fn unit(self) -> Result<Seq<char>, IntegrationErrorView> {
        unit_for(self.launcher_executable, self.registry_path)
    }
}

pub open spec fn item_if<T>(condition: bool, item: T) -> Seq<T> {
    if condition {
        seq![item]
    } else {
        Seq::empty()
    }
}

pub open spec fn is_duplicate() -> spec_fn(AssessmentView) -> bool {
    |one: AssessmentView| one.state == AutostartState::DuplicateRisk
}

/// The action that suppresses the duplicate of an application.
pub open spec fn suppression() -> spec_fn(AssessmentView) -> ActionView {
    |one: AssessmentView|
        ActionView::Write {
            path: one.user_override,
            contents: owned_override(one.desktop_id),
            owned: OwnedView::Exactly(owned_override(one.desktop_id)),
        }
}

pub open spec fn assessed_id() -> spec_fn(AssessmentView) -> Seq<char> {
    |one: AssessmentView| one.desktop_id
}

/// The plan that enables startup, where everything that it looks at is in
/// order.
pub open spec fn enabling(
    manager: ManagerView,
    unit: Seq<char>,
    current: Option<Seq<char>>,
    marked: bool,
    duplicates: Seq<AssessmentView>,
) -> PlanView {
    PlanView {
        actions: item_if(
            current != Some(unit),
            ActionView::Write {
                path: manager.paths.unit_path(),
                contents: unit,
                owned: OwnedView::Unit,
            },
        ) + item_if(
            !marked,
            ActionView::Write {
                path: manager.paths.ownership_path(),
                contents: startup_marker(),
                owned: OwnedView::Exactly(startup_marker()),
            },
        ) + seq![
            ActionView::Systemctl(SystemctlOperation::DaemonReload),
            ActionView::Systemctl(SystemctlOperation::Enable),
        ] + duplicates.map_values(suppression()),
        change: ChangeView {
            unit_changed: current != Some(unit),
            autostart_overrides_changed: duplicates.map_values(assessed_id()),
        },
    }
}

/// The plan that enables startup.
pub open spec fn enable_plan(
    manager: ManagerView,
    apps: Seq<RegisteredView>,
    suppress: bool,
    files: Seq<(Seq<u8>, FileStateView)>,
) -> Result<PlanView, IntegrationErrorView> {
    let unit_path = manager.paths.unit_path();
    let ownership_path = manager.paths.ownership_path();
    let unit_state = state_at(files, unit_path);
    let ownership_state = state_at(files, ownership_path);
    match assessments(manager.paths, apps, files) {
        Err(e) => Err(e),
        Ok(all) => if suppress && suppression_failure(all) is Some {
            Err(suppression_failure(all)->0)
        } else {
            match manager.unit() {
                Err(e) => Err(e),
                Ok(unit) => if ownership_failure(unit_path, OwnedView::Unit, unit_state) is Some {
                    Err(ownership_failure(unit_path, OwnedView::Unit, unit_state)->0)
                } else if ownership_failure(
                    ownership_path,
                    OwnedView::Exactly(startup_marker()),
                    ownership_state,
                ) is Some {
                    Err(
                        ownership_failure(
                            ownership_path,
                            OwnedView::Exactly(startup_marker()),
                            ownership_state,
                        )->0,
                    )
                } else {
                    Ok(
                        enabling(
                            manager,
                            unit,
                            regular_text(unit_path, unit_state)->Ok_0,
                            regular_text(ownership_path, ownership_state)->Ok_0 is Some,
                            if suppress {
                                all.filter(is_duplicate())
                            } else {
                                Seq::empty()
                            },
                        ),
                    )
                },
            }
        },
    }
}

/// The plan that disables startup, where there is a unit or a marker.
pub open spec fn disabling(manager: ManagerView, unit: bool, marked: bool) -> Seq<ActionView> {
    if unit || marked {
        seq![ActionView::Systemctl(SystemctlOperation::Disable)] + item_if(
            unit,
            ActionView::Remove { path: manager.paths.unit_path(), owned: OwnedView::Unit },
        ) + item_if(
            marked,
            ActionView::Remove {
                path: manager.paths.ownership_path(),
                owned: OwnedView::Exactly(startup_marker()),
            },
        ) + seq![ActionView::Systemctl(SystemctlOperation::DaemonReload)]
    } else {
        Seq::empty()
    }
}

/// The plan that disables startup.
pub open spec fn disable_plan(manager: ManagerView, files: Seq<(Seq<u8>, FileStateView)>) -> Result<
    PlanView,
    IntegrationErrorView,
> {
    let unit_path = manager.paths.unit_path();
    let ownership_path = manager.paths.ownership_path();
    let unit = regular_text(unit_path, state_at(files, unit_path));
    let ownership = regular_text(ownership_path, state_at(files, ownership_path));
    match unit {
        Err(e) => Err(e),
        Ok(unit) => match ownership {
            Err(e) => Err(e),
            Ok(ownership) => if unit is Some && !generated_unit(unit->0) {
                Err(IntegrationErrorView::UnownedFile { path: unit_path })
            } else if ownership is Some && ownership->0 != startup_marker() {
                Err(IntegrationErrorView::UnownedFile { path: ownership_path })
            } else {
                Ok(
                    PlanView {
                        actions: disabling(manager, unit is Some, ownership is Some),
                        change: ChangeView {
                            unit_changed: unit is Some,
                            autostart_overrides_changed: Seq::empty(),
                        },
                    },
                )
            },
        },
    }
}

/// The state of startup integration.
pub open spec fn startup_status(
    manager: ManagerView,
    apps: Seq<RegisteredView>,
    files: Seq<(Seq<u8>, FileStateView)>,
    enabled: CommandOutcome,
    environment: CommandOutcome,
) -> Result<StatusView, IntegrationErrorView> {
    let unit_path = manager.paths.unit_path();
    let ownership_path = manager.paths.ownership_path();
    match manager.unit() {
        Err(e) => Err(e),
        Ok(desired) => match regular_text(unit_path, state_at(files, unit_path)) {
            Err(e) => Err(e),
            Ok(current) => match regular_text(ownership_path, state_at(files, ownership_path)) {
                Err(e) => Err(e),
                Ok(ownership) => match assessments(manager.paths, apps, files) {
                    Err(e) => Err(e),
                    Ok(autostart) => Ok(
                        StatusView {
                            unit_path,
                            unit_present: current is Some,
                            unit_owned: current is Some && generated_unit(current->0),
                            unit_current: current == Some(desired),
                            ownership_present: ownership is Some,
                            ownership_owned: ownership == Some(startup_marker()),
                            enabled: enabled_state(enabled).0,
                            systemctl_diagnostic: enabled_state(enabled).1,
                            manager_environment: manager_environment(environment).0,
                            manager_environment_diagnostic: manager_environment(environment).1,
                            autostart,
                        },
                    ),
                },
            },
        },
    }
}

fn create_suppressions(all: &Vec<AutostartAssessment>) -> (out: (Vec<StartupAction>, Vec<String>))
    ensures
        views(out.0@) == views(all@).filter(is_duplicate()).map_values(suppression()),
        views(out.1@) == views(all@).filter(is_duplicate()).map_values(assessed_id()),
{
    broadcast use group_views;

    let ghost whole = views(all@);
    let ghost risky = is_duplicate();
    let mut actions: Vec<StartupAction> = Vec::new();
    let mut ids: Vec<String> = Vec::new();
    let mut i: usize = 0;
    proof {
        reveal(Seq::filter);
        assert(whole.take(0).filter(risky) =~= Seq::empty());
        assert(whole.take(0).filter(risky).map_values(suppression()) =~= Seq::empty());
        assert(whole.take(0).filter(risky).map_values(assessed_id()) =~= Seq::empty());
    }
    while i < all.len()
        invariant
            i <= all@.len(),
            whole == views(all@),
            risky == is_duplicate(),
            views(actions@) == whole.take(i as int).filter(risky).map_values(suppression()),
            views(ids@) == whole.take(i as int).filter(risky).map_values(assessed_id()),
        decreases all.len() - i,
    {
        let ghost front = whole.take(i as int).filter(risky);
        proof {
            assert(whole.take(i + 1) =~= whole.take(i as int).push(all@[i as int]@));
            whole.take(i as int).lemma_filter_push(all@[i as int]@, risky);
        }
        if all[i].state == AutostartState::DuplicateRisk {
            let contents = owned_autostart_contents(all[i].desktop_id.as_str());
            actions.push(
                StartupAction::Write {
                    path: all[i].user_override.clone(),
                    contents: contents.clone(),
                    owned: OwnedFile::Exactly(contents),
                },
            );
            ids.push(all[i].desktop_id.clone());
            proof {
                let one = all@[i as int]@;
                assert(front.push(one).map_values(suppression()) =~= front.map_values(
                    suppression(),
                ).push(suppression()(one)));
                assert(front.push(one).map_values(assessed_id()) =~= front.map_values(
                    assessed_id(),
                ).push(assessed_id()(one)));
            }
        }
        i += 1;
    }
    assert(whole.take(whole.len() as int) =~= whole);
    (actions, ids)
}

impl StartupManager {
    /// Construct a manager without reading or changing integration state. The
    /// states are those of the configuration home and of the state home.
    pub fn new(
        paths: IntegrationPaths,
        launcher_executable: UnixPath,
        registry_path: UnixPath,
        systemctl_executable: UnixPath,
        states: &RootStates,
    ) -> (out: Result<Self, IntegrationError>)
        ensures
            ({
                let manager = ManagerView {
                    paths: paths@,
                    launcher_executable: launcher_executable@,
                    registry_path: registry_path@,
                    systemctl_executable: systemctl_executable@,
                };
                match manager_failure(manager, *states) {
                    Some(e) => out matches Err(error) && error@ == e,
                    None => out matches Ok(made) && made@ == manager,
                }
            }),
    {
        match validate_user_root(
            &paths.config_home,
            "XDG configuration home",
            &states.config_home,
            states.user,
        ) {
            Ok(_) => {},
            Err(e) => {
                return Err(e);
            },
        }
        match validate_user_root(
            &paths.state_home,
            "XDG state home",
            &states.state_home,
            states.user,
        ) {
            Ok(_) => {},
            Err(e) => {
                return Err(e);
            },
        }
        match validate_absolute_path(&launcher_executable, "launcher executable") {
            Ok(_) => {},
            Err(e) => {
                return Err(e);
            },
        }
        match validate_absolute_path(&registry_path, "registry configuration") {
            Ok(_) => {},
            Err(e) => {
                return Err(e);
            },
        }
        match validate_path_bytes(&systemctl_executable, "systemctl executable") {
            Ok(_) => {},
            Err(e) => {
                return Err(e);
            },
        }
        Ok(StartupManager { paths, launcher_executable, registry_path, systemctl_executable })
    }

    /// Return deterministic unit contents for the current paths.
    pub fn unit_contents(&self) -> (out: Result<String, IntegrationError>)
        ensures
            string_outcome(out) == self@.unit(),
    {
        unit_contents(&self.launcher_executable, &self.registry_path)
    }

    /// The paths to look at before an operation.
    pub fn observed_paths(&self, registry: &AppRegistry) -> (out: Vec<UnixPath>)
        ensures
            forall|path: Seq<u8>|
                views(out@).contains(path) <==> #[trigger] super::autostart::inspected(
                    self@.paths,
                    registry@.apps,
                    path,
                ) || path == self@.paths.unit_path() || path == self@.paths.ownership_path(),
    {
        broadcast use group_views;

        let mut out = autostart_paths(&self.paths, registry);
        let ghost first = views(out@);
        out.push(self.paths.unit_path());
        let ghost second = views(out@);
        out.push(self.paths.ownership_path());
        proof {
            assert forall|path: Seq<u8>|
                views(out@).contains(path) <==> #[trigger] super::autostart::inspected(
                    self@.paths,
                    registry@.apps,
                    path,
                ) || path == self@.paths.unit_path() || path == self@.paths.ownership_path() by {
                super::autostart::lemma_push_contains(first, self@.paths.unit_path(), path);
                super::autostart::lemma_push_contains(second, self@.paths.ownership_path(), path);
            }
        }
        out
    }

    /// Plan to install or update the owned unit, enable it for
    /// graphical-session startup, and optionally create explicit
    /// duplicate-autostart suppressions.
    pub fn enable(
        &self,
        registry: &AppRegistry,
        suppress_autostart: bool,
        files: &Vec<ObservedFile>,
    ) -> (out: Result<StartupPlan, IntegrationError>)
        ensures
            plan_outcome(out) == enable_plan(
                self@,
                registry@.apps,
                suppress_autostart,
                views(files@),
            ),
    {
        broadcast use group_views;

        let all = match assess_autostart(&self.paths, registry, files) {
            Ok(all) => all,
            Err(e) => {
                return Err(e);
            },
        };
        if suppress_autostart {
            match preflight_suppression(&all) {
                Ok(_) => {},
                Err(e) => {
                    return Err(e);
                },
            }
        }
        let contents = match self.unit_contents() {
            Ok(contents) => contents,
            Err(e) => {
                return Err(e);
            },
        };
        let unit_path = self.paths.unit_path();
        let ownership_path = self.paths.ownership_path();
        let unit_state = state_of(files, &unit_path);
        let ownership_state = state_of(files, &ownership_path);
        match reject_unowned(&unit_path, &OwnedFile::Unit, &unit_state) {
            Ok(_) => {},
            Err(e) => {
                return Err(e);
            },
        }
        match reject_unowned(
            &ownership_path,
            &OwnedFile::Exactly(startup_marker_text()),
            &ownership_state,
        ) {
            Ok(_) => {},
            Err(e) => {
                return Err(e);
            },
        }
        let unit_changed = match &unit_state {
            FileState::Text(current) => !same_text(current.as_str(), contents.as_str()),
            _ => true,
        };
        let marked = match &ownership_state {
            FileState::Text(_) => true,
            _ => false,
        };
        let ghost current = regular_text(unit_path@, unit_state@)->Ok_0;
        assert(unit_changed == (current != Some(contents@)));
        let ghost unit = contents@;
        let mut actions: Vec<StartupAction> = Vec::new();
        let ghost first = item_if(
            unit_changed,
            ActionView::Write {
                path: self@.paths.unit_path(),
                contents: unit,
                owned: OwnedView::Unit,
            },
        );
        if unit_changed {
            actions.push(
                StartupAction::Write { path: unit_path, contents, owned: OwnedFile::Unit },
            );
        }
        assert(views(actions@) =~= first);
        let ghost second = item_if(
            !marked,
            ActionView::Write {
                path: self@.paths.ownership_path(),
                contents: startup_marker(),
                owned: OwnedView::Exactly(startup_marker()),
            },
        );
        if !marked {
            actions.push(
                StartupAction::Write {
                    path: ownership_path,
                    contents: startup_marker_text(),
                    owned: OwnedFile::Exactly(startup_marker_text()),
                },
            );
        }
        assert(views(actions@) =~= first + second);
        actions.push(StartupAction::Systemctl(SystemctlOperation::DaemonReload));
        actions.push(StartupAction::Systemctl(SystemctlOperation::Enable));
        assert(views(actions@) =~= first + second + seq![
            ActionView::Systemctl(SystemctlOperation::DaemonReload),
            ActionView::Systemctl(SystemctlOperation::Enable),
        ]);
        let ghost front = views(actions@);
        let mut changed: Vec<String> = Vec::new();
        let ghost duplicates = if suppress_autostart {
            views(all@).filter(is_duplicate())
        } else {
            Seq::empty()
        };
        if suppress_autostart {
            let (mut more, ids) = create_suppressions(&all);
            actions.append(&mut more);
            changed = ids;
            assert(views(actions@) == front + duplicates.map_values(suppression()));
        } else {
            assert(duplicates.map_values(suppression()) =~= Seq::empty());
            assert(front + duplicates.map_values(suppression()) =~= front);
            assert(views(changed@) =~= duplicates.map_values(assessed_id()));
        }
        let plan = StartupPlan {
            actions,
            change: StartupChange { unit_changed, autostart_overrides_changed: changed },
        };
        assert(plan@ == enabling(self@, unit, current, marked, duplicates));
        Ok(plan)
    }

    /// Plan to disable and remove only launcher-owned integration. Running
    /// targets and the application registry are untouched. The overrides
    /// follow with [`StartupManager::remove_owned_suppressions`].
    pub fn disable(&self, files: &Vec<ObservedFile>) -> (out: Result<
        StartupPlan,
        IntegrationError,
    >)
        ensures
            plan_outcome(out) == disable_plan(self@, views(files@)),
    {
        broadcast use group_views;

        let unit_path = self.paths.unit_path();
        let ownership_path = self.paths.ownership_path();
        let unit = match read_optional_regular(&unit_path, &state_of(files, &unit_path)) {
            Ok(unit) => unit,
            Err(e) => {
                return Err(e);
            },
        };
        let ownership = match read_optional_regular(
            &ownership_path,
            &state_of(files, &ownership_path),
        ) {
            Ok(ownership) => ownership,
            Err(e) => {
                return Err(e);
            },
        };
        match &unit {
            Some(contents) => {
                if !is_generated_unit(contents.as_str()) {
                    return Err(IntegrationError::UnownedFile { path: unit_path });
                }
            },
            None => {},
        }
        match &ownership {
            Some(contents) => {
                if !same_text(contents.as_str(), startup_marker_text().as_str()) {
                    return Err(IntegrationError::UnownedFile { path: ownership_path });
                }
            },
            None => {},
        }
        let unit_changed = unit.is_some();
        let marked = ownership.is_some();
        let mut actions: Vec<StartupAction> = Vec::new();
        if unit_changed || marked {
            actions.push(StartupAction::Systemctl(SystemctlOperation::Disable));
            if unit_changed {
                actions.push(StartupAction::Remove { path: unit_path, owned: OwnedFile::Unit });
            }
            if marked {
                actions.push(
                    StartupAction::Remove {
                        path: ownership_path,
                        owned: OwnedFile::Exactly(startup_marker_text()),
                    },
                );
            }
            actions.push(StartupAction::Systemctl(SystemctlOperation::DaemonReload));
        }
        assert(views(actions@) =~= disabling(self@, unit_changed, marked));
        let changed: Vec<String> = Vec::new();
        assert(views(changed@) =~= Seq::empty());
        Ok(
            StartupPlan {
                actions,
                change: StartupChange { unit_changed, autostart_overrides_changed: changed },
            },
        )
    }

    /// The state of startup integration: from the files that were seen, and
    /// from what the manager answered to [`SystemctlOperation::IsEnabled`] and
    /// to [`SystemctlOperation::ShowEnvironment`].
    pub fn status(
        &self,
        registry: &AppRegistry,
        files: &Vec<ObservedFile>,
        enabled: &CommandOutcome,
        environment: &CommandOutcome,
    ) -> (out: Result<StartupStatus, IntegrationError>)
        ensures
            status_outcome(out) == startup_status(
                self@,
                registry@.apps,
                views(files@),
                *enabled,
                *environment,
            ),
    {
        let desired = match self.unit_contents() {
            Ok(contents) => contents,
            Err(e) => {
                return Err(e);
            },
        };
        let unit_path = self.paths.unit_path();
        let ownership_path = self.paths.ownership_path();
        let current = match read_optional_regular(&unit_path, &state_of(files, &unit_path)) {
            Ok(current) => current,
            Err(e) => {
                return Err(e);
            },
        };
        let ownership = match read_optional_regular(
            &ownership_path,
            &state_of(files, &ownership_path),
        ) {
            Ok(ownership) => ownership,
            Err(e) => {
                return Err(e);
            },
        };
        let autostart = match assess_autostart(&self.paths, registry, files) {
            Ok(autostart) => autostart,
            Err(e) => {
                return Err(e);
            },
        };
        let (unit_owned, unit_current) = match &current {
            Some(contents) => (
                is_generated_unit(contents.as_str()),
                same_text(contents.as_str(), desired.as_str()),
            ),
            None => (false, false),
        };
        let ownership_owned = match &ownership {
            Some(contents) => same_text(contents.as_str(), startup_marker_text().as_str()),
            None => false,
        };
        let (enabled, systemctl_diagnostic) = read_enabled(enabled);
        let (manager_environment, manager_environment_diagnostic) = read_manager_environment(
            environment,
        );
        Ok(
            StartupStatus {
                unit_path,
                unit_present: current.is_some(),
                unit_owned,
                unit_current,
                ownership_present: ownership.is_some(),
                ownership_owned,
                enabled,
                systemctl_diagnostic,
                manager_environment,
                manager_environment_diagnostic,
                autostart,
            },
        )
    }
}

} // verus!
