//! All checks, in the order of the pipeline.
use vstd::prelude::*;

use super::checks::{
    affinity_check, affinity_view, allowed_cpus, autostart_check, autostart_view,
    dependencies_check, dependencies_view, discovery_outcome, enabled_check, enabled_view,
    environment_check, environment_view, load_outcome, platform_check, platform_view,
    policies_check, policies_view, procfs_check, procfs_view, registry_check, registry_path_check,
    registry_path_view, registry_view, resolution_check, resolution_view, session_check,
    session_view, startup_check, startup_view, topology_check, topology_outcome, topology_view,
    ProcfsReadiness, SessionEnvironment, SessionView,
};
use super::report::{report_of, CheckView, DoctorCheck, DoctorReport};
use crate::discovery::scanner::{
    discovery, DesktopApplicationScanner, DiscoveryOptions, DiscoverySnapshot,
};
use crate::discovery::types::{DiscoveryError, DiscoveryErrorView, DiscoveryReport, ReportView};
use crate::integration::autostart::ObservedFile;
use crate::integration::error::{IntegrationError, IntegrationErrorView};
use crate::integration::paths::{IntegrationPaths, RootStates};
use crate::integration::startup::{
    manager_failure, startup_status, status_outcome, CommandOutcome, ManagerView, StartupManager,
    StartupStatus, StatusView,
};
use crate::launcher::plan::{collect_enabled, enabled_ids};
use crate::order::copy_numbers;
use crate::path::{FileTree, UnixPath};
use crate::registry::error::{RegistryError, RegistryErrorView};
use crate::registry::model::{default_registry, AppRegistry, RegistryView};
use crate::registry::store::{loaded, ConfigState, RegistryLoad, RegistryStore};
use crate::text::{group_views, views};
use crate::topology::detector::{default_policy, detection, CpuTopologyDetector};
use crate::topology::sysfs::RootStatus;
use crate::topology::types::{CpuTopology, CpuTopologyView, DetectorError, DetectorErrorView};

verus! {

/// Fully injectable doctor inputs; no path is mutated.
pub struct DoctorOptions {
    pub registry_path: UnixPath,
    pub discovery: DiscoveryOptions,
    pub sysfs_root: UnixPath,
    pub proc_root: UnixPath,
    pub integration_paths: IntegrationPaths,
    pub launcher_executable: UnixPath,
    pub systemctl_executable: UnixPath,
    pub session: SessionEnvironment,
}

/// What was seen of the system.
pub struct DoctorObservations {
    /// The name of the platform.
    pub platform: String,
    /// What stands at the registry path.
    pub config: ConfigState,
    /// What discovery reads.
    pub discovery: DiscoverySnapshot,
    /// What stands at the CPU directory.
    pub sysfs_status: RootStatus,
    /// What detection reads.
    pub sysfs: FileTree,
    /// The CPUs on which this process may run, or the system's message.
    pub affinity: Result<nix::sched::CpuSet, String>,
    /// What stands at the integration roots.
    pub roots: RootStates,
    /// What stands at the paths that startup integration looks at.
    pub files: Vec<ObservedFile>,
    /// Whether the user's systemd manager has the unit enabled.
    pub enabled: CommandOutcome,
    /// The environment of the user's systemd manager.
    pub environment: CommandOutcome,
    pub procfs: ProcfsReadiness,
}

/// The registry to go by: the empty one where none can be used.
pub open spec fn usable_registry(
    outcome: Result<(RegistryView, bool), RegistryErrorView>,
) -> RegistryView {
    match outcome {
        Ok(load) => load.0,
        Err(_) => default_registry(),
    }
}

pub open spec fn manager_of(options: DoctorOptions) -> ManagerView {
    ManagerView {
        paths: options.integration_paths@,
        launcher_executable: options.launcher_executable@,
        registry_path: options.registry_path@,
        systemctl_executable: options.systemctl_executable@,
    }
}

/// How startup integration stands.
pub open spec fn startup_state(
    options: DoctorOptions,
    observed: DoctorObservations,
    registry: RegistryView,
) -> Result<StatusView, IntegrationErrorView> {
    match manager_failure(manager_of(options), observed.roots) {
        Some(e) => Err(e),
        None => startup_status(
            manager_of(options),
            registry.apps,
            views(observed.files@),
            observed.enabled,
            observed.environment,
        ),
    }
}

/// The CPUs to launch on: none where detection failed.
pub open spec fn detected_cpus(topology: Result<CpuTopologyView, DetectorErrorView>) -> Seq<u32> {
    match topology {
        Ok(found) => found.efficiency_cpus,
        Err(_) => Seq::empty(),
    }
}

/// What the parts of the pipeline came to.
pub struct DoctorFindings {
    pub platform: String,
    pub registry_path: UnixPath,
    pub registry: Result<RegistryLoad, RegistryError>,
    pub discovery: Result<DiscoveryReport, DiscoveryError>,
    pub topology: Result<CpuTopology, DetectorError>,
    pub affinity: Result<nix::sched::CpuSet, String>,
    pub startup: Result<StartupStatus, IntegrationError>,
    pub session: SessionEnvironment,
    pub proc_root: UnixPath,
    pub procfs: ProcfsReadiness,
}

/// Findings by their contents.
pub struct FindingsView {
    pub platform: Seq<char>,
    pub registry_path: Seq<u8>,
    pub registry: Result<(RegistryView, bool), RegistryErrorView>,
    pub discovery: Result<ReportView, DiscoveryErrorView>,
    pub topology: Result<CpuTopologyView, DetectorErrorView>,
    pub allowed: Result<Seq<u32>, Seq<char>>,
    pub startup: Result<StatusView, IntegrationErrorView>,
    pub session: SessionView,
    pub proc_root: Seq<u8>,
    pub procfs: ProcfsReadiness,
}

impl View for DoctorFindings {
    type V = FindingsView;

    open spec fn view(&self) -> FindingsView {
        FindingsView {
            platform: self.platform@,
            registry_path: self.registry_path@,
            registry: load_outcome(self.registry),
            discovery: discovery_outcome(self.discovery),
            topology: topology_outcome(self.topology),
            allowed: allowed_cpus(self.affinity),
            startup: status_outcome(self.startup),
            session: self.session@,
            proc_root: self.proc_root@,
            procfs: self.procfs,
        }
    }
}

/// What the parts of the pipeline come to, from what was seen.
pub open spec fn findings(options: DoctorOptions, observed: DoctorObservations) -> FindingsView {
    let registry = loaded(options.registry_path@, observed.config);
    FindingsView {
        platform: observed.platform@,
        registry_path: options.registry_path@,
        registry,
        discovery: discovery(options.discovery@, observed.discovery),
        topology: detection(
            observed.sysfs_status,
            observed.sysfs@,
            options.sysfs_root@,
            default_policy(),
        ),
        allowed: allowed_cpus(observed.affinity),
        startup: startup_state(options, observed, usable_registry(registry)),
        session: options.session@,
        proc_root: options.proc_root@,
        procfs: observed.procfs,
    }
}

/// The checks on some findings, in order.
pub open spec fn checks_on(found: FindingsView) -> Seq<CheckView> {
    let apps = usable_registry(found.registry).apps;
    let ids = enabled_ids(apps);
    seq![
        platform_view(found.platform),
        registry_path_view(found.registry_path),
        registry_view(found.registry),
        enabled_view(ids),
        resolution_view(found.registry is Ok, ids, found.discovery),
        topology_view(ids.len() > 0, found.topology),
        affinity_view(detected_cpus(found.topology), ids.len() > 0, found.allowed),
        policies_view(apps),
        startup_view(found.startup),
        environment_view(found.startup),
        autostart_view(found.startup),
        session_view(found.session),
        procfs_view(found.proc_root, found.procfs),
        dependencies_view(),
    ]
}

fn copy_cpus(topology: &Result<CpuTopology, DetectorError>) -> (out: Vec<u32>)
    ensures
        out@ == detected_cpus(topology_outcome(*topology)),
{
    match topology {
        Ok(found) => copy_numbers(&found.efficiency_cpus),
        Err(_) => {
            let out: Vec<u32> = Vec::new();
            assert(out@ =~= Seq::empty());
            out
        },
    }
}

fn collect_ids(registry: &Result<RegistryLoad, RegistryError>) -> (out: Vec<String>)
    ensures
        views(out@) == enabled_ids(usable_registry(load_outcome(*registry)).apps),
{
    match registry {
        Ok(load) => collect_enabled(&load.registry.apps),
        Err(_) => {
            let registry = AppRegistry::default();
            collect_enabled(&registry.apps)
        },
    }
}

fn check_policies(registry: &Result<RegistryLoad, RegistryError>) -> (out: DoctorCheck)
    ensures
        out@ == policies_view(usable_registry(load_outcome(*registry)).apps),
{
    match registry {
        Ok(load) => policies_check(&load.registry.apps),
        Err(_) => {
            let registry = AppRegistry::default();
            policies_check(&registry.apps)
        },
    }
}

/// Run all checks on some findings.
pub fn report_on(found: DoctorFindings) -> (out: DoctorReport)
    ensures
        out@ == report_of(checks_on(found@)),
{
    broadcast use group_views;

    let ghost expected = checks_on(found@);
    let ids = collect_ids(&found.registry);
    let any_enabled = ids.len() > 0;
    assert(views(ids@).len() == ids@.len());
    let efficiency_cpus = copy_cpus(&found.topology);
    let mut checks: Vec<DoctorCheck> = Vec::new();
    checks.push(platform_check(found.platform));
    checks.push(registry_path_check(&found.registry_path));
    checks.push(registry_check(&found.registry));
    checks.push(enabled_check(&ids));
    checks.push(resolution_check(found.registry.is_ok(), &ids, &found.discovery));
    checks.push(topology_check(any_enabled, &found.topology));
    checks.push(affinity_check(&efficiency_cpus, any_enabled, &found.affinity));
    checks.push(check_policies(&found.registry));
    checks.push(startup_check(&found.startup));
    checks.push(environment_check(&found.startup));
    checks.push(autostart_check(&found.startup));
    checks.push(session_check(&found.session));
    checks.push(procfs_check(&found.proc_root, found.procfs));
    checks.push(dependencies_check());
    assert(views(checks@) =~= expected);
    DoctorReport::new(checks)
}

/// Run all checks on what was seen.
pub fn diagnose(options: DoctorOptions, observed: DoctorObservations) -> (out: DoctorReport)
    ensures
        out@ == report_of(checks_on(findings(options, observed))),
{
    let ghost expected = findings(options, observed);
    let ghost whole = observed;
    let ghost asked = options;
    let DoctorObservations {
        platform,
        config,
        discovery: seen,
        sysfs_status,
        sysfs,
        affinity,
        roots,
        files,
        enabled,
        environment,
        procfs,
    } = observed;
    let DoctorOptions {
        registry_path,
        discovery: discovery_options,
        sysfs_root,
        proc_root,
        integration_paths,
        launcher_executable,
        systemctl_executable,
        session,
    } = options;
    let registry = load_registry(&registry_path, config);
    let discovery = DesktopApplicationScanner::from_options(discovery_options).discover(&seen);
    let topology = CpuTopologyDetector::new(sysfs_root).detect(&sysfs_status, &sysfs);
    let shown_path = registry_path.clone();
    let startup = match StartupManager::new(
        integration_paths,
        launcher_executable,
        registry_path,
        systemctl_executable,
        &roots,
    ) {
        Ok(manager) => match &registry {
            Ok(load) => manager.status(&load.registry, &files, &enabled, &environment),
            Err(_) => {
                let empty = AppRegistry::default();
                manager.status(&empty, &files, &enabled, &environment)
            },
        },
        Err(e) => Err(e),
    };
    assert(status_outcome(startup) == expected.startup);
    let found = DoctorFindings {
        platform,
        registry_path: shown_path,
        registry,
        discovery,
        topology,
        affinity,
        startup,
        session,
        proc_root,
        procfs,
    };
    assert(found@.discovery == expected.discovery);
    assert(found@.topology == expected.topology);
    assert(found@ == expected);
    report_on(found)
}

fn load_registry(path: &UnixPath, config: ConfigState) -> (out: Result<RegistryLoad, RegistryError>)
    ensures
        load_outcome(out) == loaded(path@, config),
{
    RegistryStore::new(path.clone()).load_with_status(config)
}

/// The checks are always the same, in the same order.
pub proof fn checks_have_a_fixed_order(found: FindingsView)
    ensures
        checks_on(found).len() == 14,
        checks_on(found)[0].id == "platform"@,
        checks_on(found)[1].id == "registry_path"@,
        checks_on(found)[2].id == "registry"@,
        checks_on(found)[3].id == "enabled_applications"@,
        checks_on(found)[4].id == "desktop_resolution"@,
        checks_on(found)[5].id == "topology"@,
        checks_on(found)[6].id == "affinity_api"@,
        checks_on(found)[7].id == "runtime_policies"@,
        checks_on(found)[8].id == "startup_integration"@,
        checks_on(found)[9].id == "user_manager_environment"@,
        checks_on(found)[10].id == "desktop_autostart"@,
        checks_on(found)[11].id == "graphical_session"@,
        checks_on(found)[12].id == "procfs"@,
        checks_on(found)[13].id == "runtime_dependencies"@,
{
}

} // verus!
