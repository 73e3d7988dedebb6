//! The checks, each of one part of the launcher pipeline.
use vstd::prelude::*;

use super::report::{CheckView, DoctorCheck, DoctorDetail, DoctorStatus};
use crate::discovery::types::{
    discovery_error_text, ApplicationView, DiscoveryError, DiscoveryErrorView, DiscoveryReport,
    ReportView,
};
use crate::integration::autostart::{
    is_conflict, AssessmentView, AutostartAssessment, AutostartState,
};
use crate::integration::error::{integration_error_text, IntegrationError, IntegrationErrorView};
use crate::integration::startup::{ManagerEnvironmentStatus, StartupStatus, StatusView};
use crate::launcher::plan::{discovered_with, find_discovered};
use crate::launcher::policy::{cpu_members, cpu_set_values, members_below, CPU_SET_SIZE};
use crate::order::contains_number;
use crate::path::{lossy_text, UnixPath};
use crate::registry::error::{registry_error_text, RegistryError, RegistryErrorView};
use crate::registry::model::{IoPriorityClass, RegisteredApplication, RegisteredView, RegistryView};
use crate::registry::store::RegistryLoad;
use crate::text::{decimal, decimal_text, group_views, join, join_text, optional_text_view, views};
use crate::topology::types::{
    detector_error_text, topology_class_text, CpuTopology, CpuTopologyView, DetectorError,
    DetectorErrorView, TopologyClass,
};

verus! {

/// A yes or no as it stands in details.
pub open spec fn flag_text(flag: bool) -> Seq<char> {
    if flag {
        "true"@
    } else {
        "false"@
    }
}

fn show_flag(flag: bool) -> (out: String)
    ensures
        out@ == flag_text(flag),
{
    if flag {
        "true".to_owned()
    } else {
        "false".to_owned()
    }
}

fn detail(key: &str, value: String) -> (out: DoctorDetail)
    ensures
        out@ == (key@, value@),
{
    DoctorDetail { key: key.to_owned(), value }
}

fn check(id: &str, status: DoctorStatus, summary: &str, details: Vec<DoctorDetail>) -> (out:
    DoctorCheck)
    ensures
        out@ == (CheckView { id: id@, status, summary: summary@, details: views(details@) }),
{
    DoctorCheck { id: id.to_owned(), status, summary: summary.to_owned(), details }
}

fn one_detail(key: &str, value: String) -> (out: Vec<DoctorDetail>)
    ensures
        views(out@) == seq![(key@, value@)],
{
    let mut out: Vec<DoctorDetail> = Vec::new();
    out.push(detail(key, value));
    assert(views(out@) =~= seq![(key@, value@)]);
    out
}

/// The status of a condition that launching needs.
pub open spec fn needed(met: bool, any_enabled: bool) -> DoctorStatus {
    if met {
        DoctorStatus::Ready
    } else if any_enabled {
        DoctorStatus::Error
    } else {
        DoctorStatus::Warning
    }
}

fn judge_needed(met: bool, any_enabled: bool) -> (out: DoctorStatus)
    ensures
        out == needed(met, any_enabled),
{
    if met {
        DoctorStatus::Ready
    } else if any_enabled {
        DoctorStatus::Error
    } else {
        DoctorStatus::Warning
    }
}

pub open spec fn platform_view(platform: Seq<char>) -> CheckView {
    CheckView {
        id: "platform"@,
        status: DoctorStatus::Ready,
        summary: "Linux runtime is supported."@,
        details: seq![("platform"@, platform)],
    }
}

/// The platform.
pub fn platform_check(platform: String) -> (out: DoctorCheck)
    ensures
        out@ == platform_view(platform@),
{
    check(
        "platform",
        DoctorStatus::Ready,
        "Linux runtime is supported.",
        one_detail("platform", platform),
    )
}

pub open spec fn registry_path_view(path: Seq<u8>) -> CheckView {
    CheckView {
        id: "registry_path"@,
        status: DoctorStatus::Ready,
        summary: "Registry path resolved without creating it."@,
        details: seq![("path"@, lossy_text(path))],
    }
}

/// Where the registry is.
pub fn registry_path_check(path: &UnixPath) -> (out: DoctorCheck)
    ensures
        out@ == registry_path_view(path@),
{
    check(
        "registry_path",
        DoctorStatus::Ready,
        "Registry path resolved without creating it.",
        one_detail("path", path.display()),
    )
}

pub open spec fn registry_view(loaded: Result<(RegistryView, bool), RegistryErrorView>) -> CheckView {
    match loaded {
        Ok(load) => CheckView {
            id: "registry"@,
            status: DoctorStatus::Ready,
            summary: if load.1 {
                "Registry syntax and policy are valid."@
            } else {
                "Registry is absent; the empty default registry is valid."@
            },
            details: seq![
                ("applications"@, decimal(load.0.apps.len())),
                ("exists"@, flag_text(load.1)),
            ],
        },
        Err(e) => CheckView {
            id: "registry"@,
            status: DoctorStatus::Error,
            summary: "Registry cannot be used."@,
            details: seq![("error"@, registry_error_text(e))],
        },
    }
}

/// A load or an error, by contents.
pub open spec fn load_outcome(loaded: Result<RegistryLoad, RegistryError>) -> Result<
    (RegistryView, bool),
    RegistryErrorView,
> {
    match loaded {
        Ok(load) => Ok((load.registry@, load.exists)),
        Err(e) => Err(e@),
    }
}

/// Whether the registry can be used.
pub fn registry_check(loaded: &Result<RegistryLoad, RegistryError>) -> (out: DoctorCheck)
    ensures
        out@ == registry_view(load_outcome(*loaded)),
{
    broadcast use group_views;

    match loaded {
        Ok(load) => {
            assert(views(load.registry.apps@).len() == load.registry.apps@.len());
            let mut details: Vec<DoctorDetail> = Vec::new();
            details.push(
                detail("applications", decimal_text(load.registry.apps.len() as u64)),
            );
            details.push(detail("exists", show_flag(load.exists)));
            assert(views(details@) =~= seq![
                ("applications"@, decimal(load.registry@.apps.len())),
                ("exists"@, flag_text(load.exists)),
            ]);
            let summary = if load.exists {
                "Registry syntax and policy are valid."
            } else {
                "Registry is absent; the empty default registry is valid."
            };
            check("registry", DoctorStatus::Ready, summary, details)
        },
        Err(e) => check(
            "registry",
            DoctorStatus::Error,
            "Registry cannot be used.",
            one_detail("error", e.message()),
        ),
    }
}

pub open spec fn enabled_view(ids: Seq<Seq<char>>) -> CheckView {
    CheckView {
        id: "enabled_applications"@,
        status: DoctorStatus::Ready,
        summary: if ids.len() == 0 {
            "No applications are enabled; launch is a valid no-op."@
        } else {
            "Enabled applications remain explicitly registry-controlled."@
        },
        details: seq![("desktop_ids"@, join(ids, ","@))],
    }
}

/// Which applications are enabled.
pub fn enabled_check(ids: &Vec<String>) -> (out: DoctorCheck)
    ensures
        out@ == enabled_view(views(ids@)),
{
    assert(views(ids@).len() == ids@.len());
    let summary = if ids.len() == 0 {
        "No applications are enabled; launch is a valid no-op."
    } else {
        "Enabled applications remain explicitly registry-controlled."
    };
    check(
        "enabled_applications",
        DoctorStatus::Ready,
        summary,
        one_detail("desktop_ids", join_text(ids, ",")),
    )
}

pub open spec fn is_unavailable(current: Seq<ApplicationView>) -> spec_fn(Seq<char>) -> bool {
    |id: Seq<char>| discovered_with(current, id) is None
}

pub open spec fn is_terminal(current: Seq<ApplicationView>) -> spec_fn(Seq<char>) -> bool {
    |id: Seq<char>| discovered_with(current, id) is Some && discovered_with(current, id)->0.terminal
}

pub open spec fn resolution_view(
    registry_valid: bool,
    ids: Seq<Seq<char>>,
    discovery: Result<ReportView, DiscoveryErrorView>,
) -> CheckView {
    match discovery {
        Err(e) => CheckView {
            id: "desktop_resolution"@,
            status: needed(false, ids.len() > 0),
            summary: "Desktop discovery could not complete."@,
            details: seq![("error"@, discovery_error_text(e))],
        },
        Ok(report) => if !registry_valid {
            CheckView {
                id: "desktop_resolution"@,
                status: DoctorStatus::Error,
                summary: "Desktop resolution cannot be assessed until the registry is valid."@,
                details: Seq::empty(),
            }
        } else {
            let unavailable = ids.filter(is_unavailable(report.applications));
            let terminal = ids.filter(is_terminal(report.applications));
            let ready = unavailable.len() == 0 && terminal.len() == 0;
            CheckView {
                id: "desktop_resolution"@,
                status: if ready {
                    DoctorStatus::Ready
                } else {
                    DoctorStatus::Error
                },
                summary: if ready {
                    "Every enabled desktop ID resolves to a current non-terminal target."@
                } else {
                    "One or more enabled desktop IDs cannot be launched safely."@
                },
                details: seq![
                    ("discovery_warnings"@, decimal(report.warnings.len())),
                    ("terminal"@, join(terminal, ","@)),
                    ("unavailable"@, join(unavailable, ","@)),
                ],
            }
        },
    }
}

/// A discovery report or an error, by contents.
pub open spec fn discovery_outcome(discovery: Result<DiscoveryReport, DiscoveryError>) -> Result<
    ReportView,
    DiscoveryErrorView,
> {
    match discovery {
        Ok(report) => Ok(report@),
        Err(e) => Err(e@),
    }
}

fn split_unresolved(ids: &Vec<String>, report: &DiscoveryReport) -> (out: (Vec<String>, Vec<String>))
    ensures
        views(out.0@) == views(ids@).filter(is_unavailable(report@.applications)),
        views(out.1@) == views(ids@).filter(is_terminal(report@.applications)),
{
    broadcast use group_views;

    let ghost all = views(ids@);
    let ghost missing = is_unavailable(report@.applications);
    let ghost in_terminal = is_terminal(report@.applications);
    let mut unavailable: Vec<String> = Vec::new();
    let mut terminal: Vec<String> = Vec::new();
    let mut i: usize = 0;
    proof {
        reveal(Seq::filter);
        assert(all.take(0).filter(missing) =~= Seq::empty());
        assert(all.take(0).filter(in_terminal) =~= Seq::empty());
    }
    while i < ids.len()
        invariant
            i <= ids@.len(),
            all == views(ids@),
            missing == is_unavailable(report@.applications),
            in_terminal == is_terminal(report@.applications),
            views(unavailable@) == all.take(i as int).filter(missing),
            views(terminal@) == all.take(i as int).filter(in_terminal),
        decreases ids.len() - i,
    {
        proof {
            assert(all.take(i + 1) =~= all.take(i as int).push(ids@[i as int]@));
            all.take(i as int).lemma_filter_push(ids@[i as int]@, missing);
            all.take(i as int).lemma_filter_push(ids@[i as int]@, in_terminal);
        }
        match find_discovered(&report.applications, ids[i].as_str()) {
            None => {
                unavailable.push(ids[i].clone());
            },
            Some(application) => {
                if application.terminal {
                    terminal.push(ids[i].clone());
                }
            },
        }
        i += 1;
    }
    assert(all.take(all.len() as int) =~= all);
    (unavailable, terminal)
}

/// Whether the enabled applications can be launched.
pub fn resolution_check(
    registry_valid: bool,
    ids: &Vec<String>,
    discovery: &Result<DiscoveryReport, DiscoveryError>,
) -> (out: DoctorCheck)
    ensures
        out@ == resolution_view(registry_valid, views(ids@), discovery_outcome(*discovery)),
{
    broadcast use group_views;

    assert(views(ids@).len() == ids@.len());
    let report = match discovery {
        Err(e) => {
            return check(
                "desktop_resolution",
                judge_needed(false, ids.len() > 0),
                "Desktop discovery could not complete.",
                one_detail("error", e.message()),
            );
        },
        Ok(report) => report,
    };
    if !registry_valid {
        let details: Vec<DoctorDetail> = Vec::new();
        assert(views(details@) =~= Seq::empty());
        return check(
            "desktop_resolution",
            DoctorStatus::Error,
            "Desktop resolution cannot be assessed until the registry is valid.",
            details,
        );
    }
    let (unavailable, terminal) = split_unresolved(ids, report);
    assert(views(unavailable@).len() == unavailable@.len());
    assert(views(terminal@).len() == terminal@.len());
    assert(views(report.warnings@).len() == report.warnings@.len());
    let ready = unavailable.len() == 0 && terminal.len() == 0;
    let mut details: Vec<DoctorDetail> = Vec::new();
    details.push(detail("discovery_warnings", decimal_text(report.warnings.len() as u64)));
    details.push(detail("terminal", join_text(&terminal, ",")));
    details.push(detail("unavailable", join_text(&unavailable, ",")));
    assert(views(details@) =~= seq![
        ("discovery_warnings"@, decimal(report@.warnings.len())),
        ("terminal"@, join(views(terminal@), ","@)),
        ("unavailable"@, join(views(unavailable@), ","@)),
    ]);
    check(
        "desktop_resolution",
        if ready {
            DoctorStatus::Ready
        } else {
            DoctorStatus::Error
        },
        if ready {
            "Every enabled desktop ID resolves to a current non-terminal target."
        } else {
            "One or more enabled desktop IDs cannot be launched safely."
        },
        details,
    )
}

/// CPU numbers with commas between them.
pub open spec fn cpus_text(cpus: Seq<u32>) -> Seq<char> {
    join(cpus.map_values(|cpu: u32| decimal(cpu as nat)), ","@)
}

/// CPU numbers with commas between them.
pub fn join_cpus(cpus: &Vec<u32>) -> (out: String)
    ensures
        out@ == cpus_text(cpus@),
{
    broadcast use group_views;

    let ghost shown = |cpu: u32| decimal(cpu as nat);
    let mut parts: Vec<String> = Vec::new();
    let mut i: usize = 0;
    assert(cpus@.take(0).map_values(shown) =~= Seq::empty());
    while i < cpus.len()
        invariant
            i <= cpus@.len(),
            shown == (|cpu: u32| decimal(cpu as nat)),
            views(parts@) == cpus@.take(i as int).map_values(shown),
        decreases cpus.len() - i,
    {
        assert(cpus@.take(i + 1).map_values(shown) =~= cpus@.take(i as int).map_values(shown).push(
            shown(cpus@[i as int]),
        ));
        parts.push(decimal_text(cpus[i] as u64));
        i += 1;
    }
    assert(cpus@.take(cpus@.len() as int) =~= cpus@);
    join_text(&parts, ",")
}

pub open spec fn topology_view(
    any_enabled: bool,
    topology: Result<CpuTopologyView, DetectorErrorView>,
) -> CheckView {
    match topology {
        Ok(found) => {
            let launchable = found.classification == TopologyClass::Hybrid
                && found.efficiency_cpus.len() > 0;
            CheckView {
                id: "topology"@,
                status: needed(launchable, any_enabled),
                summary: if launchable {
                    "Reliable hybrid topology and E-core CPUs were detected."@
                } else {
                    "Reliable non-empty E-core topology is unavailable; launch will fail closed."@
                },
                details: seq![
                    ("classification"@, topology_class_text(found.classification)),
                    ("efficiency_cpus"@, cpus_text(found.efficiency_cpus)),
                ],
            }
        },
        Err(e) => CheckView {
            id: "topology"@,
            status: needed(false, any_enabled),
            summary: "CPU topology detection failed; launch will fail closed."@,
            details: seq![("error"@, detector_error_text(e))],
        },
    }
}

/// A topology or an error, by contents.
pub open spec fn topology_outcome(topology: Result<CpuTopology, DetectorError>) -> Result<
    CpuTopologyView,
    DetectorErrorView,
> {
    match topology {
        Ok(found) => Ok(found@),
        Err(e) => Err(e@),
    }
}

/// Whether there are efficiency cores to launch on.
pub fn topology_check(any_enabled: bool, topology: &Result<CpuTopology, DetectorError>) -> (out:
    DoctorCheck)
    ensures
        out@ == topology_view(any_enabled, topology_outcome(*topology)),
{
    broadcast use group_views;

    match topology {
        Ok(found) => {
            let launchable = found.classification == TopologyClass::Hybrid
                && found.efficiency_cpus.len() > 0;
            let mut details: Vec<DoctorDetail> = Vec::new();
            details.push(detail("classification", found.classification.name()));
            details.push(detail("efficiency_cpus", join_cpus(&found.efficiency_cpus)));
            assert(views(details@) =~= seq![
                ("classification"@, topology_class_text(found.classification)),
                ("efficiency_cpus"@, cpus_text(found.efficiency_cpus@)),
            ]);
            check(
                "topology",
                judge_needed(launchable, any_enabled),
                if launchable {
                    "Reliable hybrid topology and E-core CPUs were detected."
                } else {
                    "Reliable non-empty E-core topology is unavailable; launch will fail closed."
                },
                details,
            )
        },
        Err(e) => check(
            "topology",
            judge_needed(false, any_enabled),
            "CPU topology detection failed; launch will fail closed.",
            one_detail("error", e.message()),
        ),
    }
}

/// Every CPU can be in an affinity set and is allowed.
pub open spec fn cpus_usable(cpus: Seq<u32>, allowed: Seq<u32>) -> bool {
    &&& cpus.len() > 0
    &&& forall|k: int|
        0 <= k < cpus.len() ==> (#[trigger] cpus[k]) < CPU_SET_SIZE && allowed.contains(cpus[k])
}

/// The affinity of this process: the CPUs it may run on, or the system's
/// message.
pub open spec fn allowed_cpus(affinity: Result<nix::sched::CpuSet, String>) -> Result<
    Seq<u32>,
    Seq<char>,
> {
    match affinity {
        Ok(set) => Ok(members_below(cpu_members(set), CPU_SET_SIZE as int)),
        Err(message) => Err(message@),
    }
}

pub open spec fn affinity_view(
    cpus: Seq<u32>,
    any_enabled: bool,
    allowed: Result<Seq<u32>, Seq<char>>,
) -> CheckView {
    match allowed {
        Ok(allowed) => CheckView {
            id: "affinity_api"@,
            status: needed(cpus_usable(cpus, allowed), any_enabled),
            summary: if cpus_usable(cpus, allowed) {
                "The affinity API can represent every detected E-core allowed to this process."@
            } else {
                "Detected E-cores are empty, unrepresentable, or outside this process's allowed CPU set."@
            },
            details: seq![
                ("allowed_cpus"@, cpus_text(allowed)),
                ("requested_cpus"@, cpus_text(cpus)),
            ],
        },
        Err(message) => CheckView {
            id: "affinity_api"@,
            status: needed(false, any_enabled),
            summary: "The current process affinity set could not be read."@,
            details: seq![("error"@, message)],
        },
    }
}

fn are_usable(cpus: &Vec<u32>, allowed: &Vec<u32>) -> (out: bool)
    ensures
        out == cpus_usable(cpus@, allowed@),
{
    if cpus.len() == 0 {
        return false;
    }
    let mut i: usize = 0;
    while i < cpus.len()
        invariant
            i <= cpus@.len(),
            0 < cpus@.len(),
            forall|k: int|
                0 <= k < i ==> (#[trigger] cpus@[k]) < CPU_SET_SIZE && allowed@.contains(cpus@[k]),
        decreases cpus.len() - i,
    {
        if cpus[i] as usize >= CPU_SET_SIZE || !contains_number(allowed, cpus[i]) {
            assert(!(cpus@[i as int] < CPU_SET_SIZE && allowed@.contains(cpus@[i as int])));
            return false;
        }
        i += 1;
    }
    true
}

/// Whether this process may run on the efficiency cores.
pub fn affinity_check(
    efficiency_cpus: &Vec<u32>,
    any_enabled: bool,
    affinity: &Result<nix::sched::CpuSet, String>,
) -> (out: DoctorCheck)
    ensures
        out@ == affinity_view(efficiency_cpus@, any_enabled, allowed_cpus(*affinity)),
{
    broadcast use group_views;

    match affinity {
        Ok(set) => {
            let allowed = cpu_set_values(set);
            let usable = are_usable(efficiency_cpus, &allowed);
            let mut details: Vec<DoctorDetail> = Vec::new();
            details.push(detail("allowed_cpus", join_cpus(&allowed)));
            details.push(detail("requested_cpus", join_cpus(efficiency_cpus)));
            assert(views(details@) =~= seq![
                ("allowed_cpus"@, cpus_text(allowed@)),
                ("requested_cpus"@, cpus_text(efficiency_cpus@)),
            ]);
            check(
                "affinity_api",
                judge_needed(usable, any_enabled),
                if usable {
                    "The affinity API can represent every detected E-core allowed to this process."
                } else {
                    "Detected E-cores are empty, unrepresentable, or outside this process's allowed CPU set."
                },
                details,
            )
        },
        Err(message) => check(
            "affinity_api",
            judge_needed(false, any_enabled),
            "The current process affinity set could not be read.",
            one_detail("error", message.clone()),
        ),
    }
}

/// An enabled application whose policy may need privileges.
pub open spec fn needs_privilege(application: RegisteredView) -> bool {
    application.enabled && (application.policy.nice < 0 || application.policy.io_class
        == IoPriorityClass::Realtime)
}

/// The IDs of the enabled applications whose policies may need privileges.
pub open spec fn privileged_ids(apps: Seq<RegisteredView>) -> Seq<Seq<char>>
    decreases apps.len(),
{
    if apps.len() == 0 {
        Seq::empty()
    } else if needs_privilege(apps.last()) {
        privileged_ids(apps.drop_last()).push(apps.last().desktop_id)
    } else {
        privileged_ids(apps.drop_last())
    }
}

pub open spec fn policies_view(apps: Seq<RegisteredView>) -> CheckView {
    let ids = privileged_ids(apps);
    CheckView {
        id: "runtime_policies"@,
        status: if ids.len() == 0 {
            DoctorStatus::Ready
        } else {
            DoctorStatus::Warning
        },
        summary: if ids.len() == 0 {
            "Stored nice and I/O policies are valid and do not normally require privilege."@
        } else {
            "Some valid policies may fail without additional Linux privileges."@
        },
        details: seq![("privilege_sensitive"@, join(ids, ","@))],
    }
}

/// Whether the policies of the enabled applications may need privileges.
pub fn policies_check(apps: &Vec<RegisteredApplication>) -> (out: DoctorCheck)
    ensures
        out@ == policies_view(views(apps@)),
{
    broadcast use group_views;

    let ghost all = views(apps@);
    let mut ids: Vec<String> = Vec::new();
    let mut i: usize = 0;
    assert(all.take(0) =~= Seq::empty());
    while i < apps.len()
        invariant
            i <= apps@.len(),
            all == views(apps@),
            views(ids@) == privileged_ids(all.take(i as int)),
        decreases apps.len() - i,
    {
        assert(all.take(i + 1).drop_last() =~= all.take(i as int));
        assert(all.take(i + 1).last() == apps@[i as int]@);
        if apps[i].enabled && (apps[i].nice < 0 || apps[i].io_class == IoPriorityClass::Realtime) {
            ids.push(apps[i].desktop_id.clone());
        }
        i += 1;
    }
    assert(all.take(all.len() as int) =~= all);
    assert(views(ids@).len() == ids@.len());
    let plain = ids.len() == 0;
    check(
        "runtime_policies",
        if plain {
            DoctorStatus::Ready
        } else {
            DoctorStatus::Warning
        },
        if plain {
            "Stored nice and I/O policies are valid and do not normally require privilege."
        } else {
            "Some valid policies may fail without additional Linux privileges."
        },
        one_detail("privilege_sensitive", join_text(&ids, ",")),
    )
}

/// How startup integration stands.
pub open spec fn startup_severity(status: StatusView) -> DoctorStatus {
    if (status.unit_present && !status.unit_owned) || (status.ownership_present
        && !status.ownership_owned) || (status.unit_present && !status.unit_current) {
        DoctorStatus::Error
    } else if !status.unit_present || !status.ownership_owned || status.enabled != Some(true) {
        DoctorStatus::Warning
    } else {
        DoctorStatus::Ready
    }
}

pub open spec fn enabled_text(enabled: Option<bool>) -> Seq<char> {
    match enabled {
        Some(flag) => flag_text(flag),
        None => "unknown"@,
    }
}

/// A text, or nothing where there is none.
pub open spec fn text_or_empty(text: Option<Seq<char>>) -> Seq<char> {
    match text {
        Some(text) => text,
        None => Seq::empty(),
    }
}

fn copy_or_empty(text: &Option<String>) -> (out: String)
    ensures
        out@ == text_or_empty(optional_text_view(*text)),
{
    match text {
        Some(text) => text.clone(),
        None => String::new(),
    }
}

pub open spec fn startup_view(status: Result<StatusView, IntegrationErrorView>) -> CheckView {
    match status {
        Ok(status) => CheckView {
            id: "startup_integration"@,
            status: startup_severity(status),
            summary: match startup_severity(status) {
                DoctorStatus::Ready => "User graphical-session startup is installed and enabled."@,
                DoctorStatus::Warning => {
                    "User startup is optional, missing, disabled, or cannot be queried."@
                },
                DoctorStatus::Error => "The startup unit exists but is unowned or stale."@,
            },
            details: seq![
                ("current"@, flag_text(status.unit_current)),
                ("enabled"@, enabled_text(status.enabled)),
                ("owned"@, flag_text(status.unit_owned)),
                ("ownership_owned"@, flag_text(status.ownership_owned)),
                ("ownership_present"@, flag_text(status.ownership_present)),
                ("present"@, flag_text(status.unit_present)),
                ("systemctl_diagnostic"@, text_or_empty(status.systemctl_diagnostic)),
                ("unit"@, lossy_text(status.unit_path)),
            ],
        },
        Err(e) => CheckView {
            id: "startup_integration"@,
            status: DoctorStatus::Error,
            summary: "Startup integration paths or state are invalid."@,
            details: seq![("error"@, integration_error_text(e))],
        },
    }
}

fn judge_startup(status: &StartupStatus) -> (out: DoctorStatus)
    ensures
        out == startup_severity(status@),
{
    let enabled = match status.enabled {
        Some(flag) => flag,
        None => false,
    };
    if (status.unit_present && !status.unit_owned) || (status.ownership_present
        && !status.ownership_owned) || (status.unit_present && !status.unit_current) {
        DoctorStatus::Error
    } else if !status.unit_present || !status.ownership_owned || !enabled {
        DoctorStatus::Warning
    } else {
        DoctorStatus::Ready
    }
}

/// Whether startup at login is installed and enabled.
pub fn startup_check(status: &Result<StartupStatus, IntegrationError>) -> (out: DoctorCheck)
    ensures
        out@ == startup_view(crate::integration::startup::status_outcome(*status)),
{
    broadcast use group_views;

    let status = match status {
        Err(e) => {
            return check(
                "startup_integration",
                DoctorStatus::Error,
                "Startup integration paths or state are invalid.",
                one_detail("error", e.message()),
            );
        },
        Ok(status) => status,
    };
    let severity = judge_startup(status);
    let mut details: Vec<DoctorDetail> = Vec::new();
    details.push(detail("current", show_flag(status.unit_current)));
    details.push(
        detail(
            "enabled",
            match status.enabled {
                Some(flag) => show_flag(flag),
                None => "unknown".to_owned(),
            },
        ),
    );
    details.push(detail("owned", show_flag(status.unit_owned)));
    details.push(detail("ownership_owned", show_flag(status.ownership_owned)));
    details.push(detail("ownership_present", show_flag(status.ownership_present)));
    details.push(detail("present", show_flag(status.unit_present)));
    details.push(
        detail("systemctl_diagnostic", copy_or_empty(&status.systemctl_diagnostic)),
    );
    details.push(detail("unit", status.unit_path.display()));
    assert(views(details@) =~= seq![
        ("current"@, flag_text(status.unit_current)),
        ("enabled"@, enabled_text(status.enabled)),
        ("owned"@, flag_text(status.unit_owned)),
        ("ownership_owned"@, flag_text(status.ownership_owned)),
        ("ownership_present"@, flag_text(status.ownership_present)),
        ("present"@, flag_text(status.unit_present)),
        ("systemctl_diagnostic"@, text_or_empty(status@.systemctl_diagnostic)),
        ("unit"@, lossy_text(status.unit_path@)),
    ]);
    check(
        "startup_integration",
        severity,
        match severity {
            DoctorStatus::Ready => "User graphical-session startup is installed and enabled.",
            DoctorStatus::Warning => {
                "User startup is optional, missing, disabled, or cannot be queried."
            },
            DoctorStatus::Error => "The startup unit exists but is unowned or stale.",
        },
        details,
    )
}

pub open spec fn environment_ready(environment: Option<ManagerEnvironmentStatus>) -> bool {
    environment matches Some(found) && found.ready()
}

pub open spec fn environment_view(status: Result<StatusView, IntegrationErrorView>) -> CheckView {
    match status {
        Ok(status) => {
            let ready = environment_ready(status.manager_environment);
            CheckView {
                id: "user_manager_environment"@,
                status: if ready {
                    DoctorStatus::Ready
                } else {
                    DoctorStatus::Warning
                },
                summary: if ready {
                    "The systemd user manager has graphical desktop and session-bus context."@
                } else {
                    "The systemd user manager is missing graphical/desktop/session-bus context or could not be queried."@
                },
                details: seq![
                    ("diagnostic"@, text_or_empty(status.manager_environment_diagnostic)),
                    ("ready"@, flag_text(ready)),
                ],
            }
        },
        Err(e) => CheckView {
            id: "user_manager_environment"@,
            status: DoctorStatus::Warning,
            summary: "The systemd user-manager environment could not be assessed."@,
            details: seq![("error"@, integration_error_text(e))],
        },
    }
}

/// Whether the user's systemd manager knows the graphical session.
pub fn environment_check(status: &Result<StartupStatus, IntegrationError>) -> (out: DoctorCheck)
    ensures
        out@ == environment_view(crate::integration::startup::status_outcome(*status)),
{
    broadcast use group_views;

    let status = match status {
        Err(e) => {
            return check(
                "user_manager_environment",
                DoctorStatus::Warning,
                "The systemd user-manager environment could not be assessed.",
                one_detail("error", e.message()),
            );
        },
        Ok(status) => status,
    };
    let ready = match &status.manager_environment {
        Some(environment) => environment.is_ready(),
        None => false,
    };
    let mut details: Vec<DoctorDetail> = Vec::new();
    details.push(
        detail("diagnostic", copy_or_empty(&status.manager_environment_diagnostic)),
    );
    details.push(detail("ready", show_flag(ready)));
    assert(views(details@) =~= seq![
        ("diagnostic"@, text_or_empty(status@.manager_environment_diagnostic)),
        ("ready"@, flag_text(ready)),
    ]);
    check(
        "user_manager_environment",
        if ready {
            DoctorStatus::Ready
        } else {
            DoctorStatus::Warning
        },
        if ready {
            "The systemd user manager has graphical desktop and session-bus context."
        } else {
            "The systemd user manager is missing graphical/desktop/session-bus context or could not be queried."
        },
        details,
    )
}

/// The IDs of the assessments with a property.
pub open spec fn assessed_ids(
    all: Seq<AssessmentView>,
    keep: spec_fn(AssessmentView) -> bool,
) -> Seq<Seq<char>>
    decreases all.len(),
{
    if all.len() == 0 {
        Seq::empty()
    } else if keep(all.last()) {
        assessed_ids(all.drop_last(), keep).push(all.last().desktop_id)
    } else {
        assessed_ids(all.drop_last(), keep)
    }
}

pub open spec fn is_duplicate_risk() -> spec_fn(AssessmentView) -> bool {
    |one: AssessmentView| one.state == AutostartState::DuplicateRisk
}

pub open spec fn is_user_conflict() -> spec_fn(AssessmentView) -> bool {
    |one: AssessmentView| is_conflict(one)
}

pub open spec fn is_suppressed() -> spec_fn(AssessmentView) -> bool {
    |one: AssessmentView| one.state == AutostartState::SuppressedByLauncher
}

pub open spec fn autostart_view(status: Result<StatusView, IntegrationErrorView>) -> CheckView {
    match status {
        Ok(status) => {
            let duplicate = assessed_ids(status.autostart, is_duplicate_risk());
            let conflicts = assessed_ids(status.autostart, is_user_conflict());
            let owned = assessed_ids(status.autostart, is_suppressed());
            let clear = duplicate.len() == 0 && conflicts.len() == 0;
            CheckView {
                id: "desktop_autostart"@,
                status: if clear {
                    DoctorStatus::Ready
                } else {
                    DoctorStatus::Warning
                },
                summary: if clear {
                    "No duplicate desktop-autostart risk was detected."@
                } else {
                    "Desktop autostart may duplicate a managed launch or has a user-file conflict."@
                },
                details: seq![
                    ("duplicate_risk"@, join(duplicate, ","@)),
                    ("owned_overrides"@, join(owned, ","@)),
                    ("user_conflicts"@, join(conflicts, ","@)),
                ],
            }
        },
        Err(e) => CheckView {
            id: "desktop_autostart"@,
            status: DoctorStatus::Error,
            summary: "Autostart state could not be inspected safely."@,
            details: seq![("error"@, integration_error_text(e))],
        },
    }
}

fn sort_assessments(all: &Vec<AutostartAssessment>) -> (out: (Vec<String>, Vec<String>, Vec<String>))
    ensures
        views(out.0@) == assessed_ids(views(all@), is_duplicate_risk()),
        views(out.1@) == assessed_ids(views(all@), is_user_conflict()),
        views(out.2@) == assessed_ids(views(all@), is_suppressed()),
{
    broadcast use group_views;

    let ghost whole = views(all@);
    let mut duplicate: Vec<String> = Vec::new();
    let mut conflicts: Vec<String> = Vec::new();
    let mut owned: Vec<String> = Vec::new();
    let mut i: usize = 0;
    assert(whole.take(0) =~= Seq::empty());
    while i < all.len()
        invariant
            i <= all@.len(),
            whole == views(all@),
            views(duplicate@) == assessed_ids(whole.take(i as int), is_duplicate_risk()),
            views(conflicts@) == assessed_ids(whole.take(i as int), is_user_conflict()),
            views(owned@) == assessed_ids(whole.take(i as int), is_suppressed()),
        decreases all.len() - i,
    {
        let one = &all[i];
        proof {
            assert(whole.take(i + 1).drop_last() =~= whole.take(i as int));
            assert(whole.take(i + 1).last() == one@);
            assert(views(one.system_entries@).len() == one.system_entries@.len());
        }
        match one.state {
            AutostartState::DuplicateRisk => {
                duplicate.push(one.desktop_id.clone());
            },
            AutostartState::UserOverride => {
                if one.system_entries.len() > 0 {
                    conflicts.push(one.desktop_id.clone());
                }
            },
            AutostartState::SuppressedByLauncher => {
                owned.push(one.desktop_id.clone());
            },
            AutostartState::NotPresent => {},
        }
        i += 1;
    }
    assert(whole.take(whole.len() as int) =~= whole);
    (duplicate, conflicts, owned)
}

/// Whether the desktop would start a managed application too.
pub fn autostart_check(status: &Result<StartupStatus, IntegrationError>) -> (out: DoctorCheck)
    ensures
        out@ == autostart_view(crate::integration::startup::status_outcome(*status)),
{
    broadcast use group_views;

    let status = match status {
        Err(e) => {
            return check(
                "desktop_autostart",
                DoctorStatus::Error,
                "Autostart state could not be inspected safely.",
                one_detail("error", e.message()),
            );
        },
        Ok(status) => status,
    };
    let (duplicate, conflicts, owned) = sort_assessments(&status.autostart);
    assert(views(duplicate@).len() == duplicate@.len());
    assert(views(conflicts@).len() == conflicts@.len());
    let clear = duplicate.len() == 0 && conflicts.len() == 0;
    let mut details: Vec<DoctorDetail> = Vec::new();
    details.push(detail("duplicate_risk", join_text(&duplicate, ",")));
    details.push(detail("owned_overrides", join_text(&owned, ",")));
    details.push(detail("user_conflicts", join_text(&conflicts, ",")));
    assert(views(details@) =~= seq![
        ("duplicate_risk"@, join(views(duplicate@), ","@)),
        ("owned_overrides"@, join(views(owned@), ","@)),
        ("user_conflicts"@, join(views(conflicts@), ","@)),
    ]);
    check(
        "desktop_autostart",
        if clear {
            DoctorStatus::Ready
        } else {
            DoctorStatus::Warning
        },
        if clear {
            "No duplicate desktop-autostart risk was detected."
        } else {
            "Desktop autostart may duplicate a managed launch or has a user-file conflict."
        },
        details,
    )
}

/// Session values relevant to graphical applications launched by a user manager.
#[derive(Debug, PartialEq, Eq)]
pub struct SessionEnvironment {
    pub display: Option<String>,
    pub wayland_display: Option<String>,
    pub current_desktop: Option<String>,
    pub dbus_session_bus_address: Option<String>,
}

/// Session values by their contents.
pub struct SessionView {
    pub display: Option<Seq<char>>,
    pub wayland_display: Option<Seq<char>>,
    pub current_desktop: Option<Seq<char>>,
    pub dbus_session_bus_address: Option<Seq<char>>,
}

impl View for SessionEnvironment {
    type V = SessionView;

    open spec fn view(&self) -> SessionView {
        SessionView {
            display: optional_text_view(self.display),
            wayland_display: optional_text_view(self.wayland_display),
            current_desktop: optional_text_view(self.current_desktop),
            dbus_session_bus_address: optional_text_view(self.dbus_session_bus_address),
        }
    }
}

impl Default for SessionEnvironment {
    fn default() -> (out: Self)
        ensures
            out@ == (SessionView {
                display: None,
                wayland_display: None,
                current_desktop: None,
                dbus_session_bus_address: None,
            }),
    {
        SessionEnvironment {
            display: None,
            wayland_display: None,
            current_desktop: None,
            dbus_session_bus_address: None,
        }
    }
}

/// The value of a variable: an empty one counts as absent.
pub open spec fn variable_value(bytes: Option<Seq<u8>>) -> Option<Seq<char>> {
    match bytes {
        Some(bytes) => if bytes.len() > 0 {
            Some(lossy_text(bytes))
        } else {
            None
        },
        None => None,
    }
}

/// The value of a variable.
pub fn environment_value(value: Option<UnixPath>) -> (out: Option<String>)
    ensures
        optional_text_view(out) == variable_value(crate::path::optional_path(value)),
{
    match value {
        Some(value) => if value.bytes.len() > 0 {
            Some(value.display())
        } else {
            None
        },
        None => None,
    }
}

impl SessionEnvironment {
    /// The session that the values of its variables give.
    pub fn from_environment(
        display: Option<UnixPath>,
        wayland_display: Option<UnixPath>,
        current_desktop: Option<UnixPath>,
        dbus_session_bus_address: Option<UnixPath>,
    ) -> (out: Self)
        ensures
            out@ == (SessionView {
                display: variable_value(crate::path::optional_path(display)),
                wayland_display: variable_value(crate::path::optional_path(wayland_display)),
                current_desktop: variable_value(crate::path::optional_path(current_desktop)),
                dbus_session_bus_address: variable_value(
                    crate::path::optional_path(dbus_session_bus_address),
                ),
            }),
    {
        SessionEnvironment {
            display: environment_value(display),
            wayland_display: environment_value(wayland_display),
            current_desktop: environment_value(current_desktop),
            dbus_session_bus_address: environment_value(dbus_session_bus_address),
        }
    }
}

pub open spec fn session_ready(session: SessionView) -> bool {
    (session.display is Some || session.wayland_display is Some)
        && session.dbus_session_bus_address is Some && session.current_desktop is Some
}

pub open spec fn session_view(session: SessionView) -> CheckView {
    let ready = session_ready(session);
    CheckView {
        id: "graphical_session"@,
        status: if ready {
            DoctorStatus::Ready
        } else {
            DoctorStatus::Warning
        },
        summary: if ready {
            "Current graphical/session environment appears ready."@
        } else {
            "Current environment is missing graphical, desktop, or session-bus context; ensure the user manager imports it."@
        },
        details: seq![
            ("current_desktop"@, text_or_empty(session.current_desktop)),
            (
                "dbus_session_bus"@,
                if session.dbus_session_bus_address is Some {
                    "present"@
                } else {
                    "missing"@
                },
            ),
            ("display"@, text_or_empty(session.display)),
            ("wayland_display"@, text_or_empty(session.wayland_display)),
        ],
    }
}

/// Whether the current session is a graphical one.
pub fn session_check(session: &SessionEnvironment) -> (out: DoctorCheck)
    ensures
        out@ == session_view(session@),
{
    broadcast use group_views;

    let bus = session.dbus_session_bus_address.is_some();
    let ready = (session.display.is_some() || session.wayland_display.is_some()) && bus
        && session.current_desktop.is_some();
    let mut details: Vec<DoctorDetail> = Vec::new();
    details.push(detail("current_desktop", copy_or_empty(&session.current_desktop)));
    details.push(
        detail(
            "dbus_session_bus",
            if bus {
                "present".to_owned()
            } else {
                "missing".to_owned()
            },
        ),
    );
    details.push(detail("display", copy_or_empty(&session.display)));
    details.push(detail("wayland_display", copy_or_empty(&session.wayland_display)));
    assert(views(details@) =~= session_view(session@).details);
    check(
        "graphical_session",
        if ready {
            DoctorStatus::Ready
        } else {
            DoctorStatus::Warning
        },
        if ready {
            "Current graphical/session environment appears ready."
        } else {
            "Current environment is missing graphical, desktop, or session-bus context; ensure the user manager imports it."
        },
        details,
    )
}

/// What can be read below the root of `/proc`.
#[derive(Clone, Copy, Debug, PartialEq, Eq, Structural)]
pub struct ProcfsReadiness {
    pub root_is_directory: bool,
    /// Whether this process's `stat` file can be read.
    pub stat_readable: bool,
    /// Whether this process's threads can be listed.
    pub tasks_readable: bool,
    /// Whether this process's `children` file can be read.
    pub children_readable: bool,
}

pub open spec fn procfs_view(root: Seq<u8>, procfs: ProcfsReadiness) -> CheckView {
    let ready = procfs.root_is_directory && procfs.stat_readable && procfs.tasks_readable
        && procfs.children_readable;
    CheckView {
        id: "procfs"@,
        status: if ready {
            DoctorStatus::Ready
        } else {
            DoctorStatus::Error
        },
        summary: if ready {
            "Procfs exposes process identity, task, and child metadata for supervision."@
        } else {
            "Procfs process/task metadata required by supervision is unavailable."@
        },
        details: seq![
            ("children_readable"@, flag_text(procfs.children_readable)),
            ("ready"@, flag_text(ready)),
            ("root"@, lossy_text(root)),
            ("stat_readable"@, flag_text(procfs.stat_readable)),
            ("tasks_readable"@, flag_text(procfs.tasks_readable)),
        ],
    }
}

/// Whether `/proc` tells what supervision needs.
pub fn procfs_check(root: &UnixPath, procfs: ProcfsReadiness) -> (out: DoctorCheck)
    ensures
        out@ == procfs_view(root@, procfs),
{
    broadcast use group_views;

    let ready = procfs.root_is_directory && procfs.stat_readable && procfs.tasks_readable
        && procfs.children_readable;
    let mut details: Vec<DoctorDetail> = Vec::new();
    details.push(detail("children_readable", show_flag(procfs.children_readable)));
    details.push(detail("ready", show_flag(ready)));
    details.push(detail("root", root.display()));
    details.push(detail("stat_readable", show_flag(procfs.stat_readable)));
    details.push(detail("tasks_readable", show_flag(procfs.tasks_readable)));
    assert(views(details@) =~= procfs_view(root@, procfs).details);
    check(
        "procfs",
        if ready {
            DoctorStatus::Ready
        } else {
            DoctorStatus::Error
        },
        if ready {
            "Procfs exposes process identity, task, and child metadata for supervision."
        } else {
            "Procfs process/task metadata required by supervision is unavailable."
        },
        details,
    )
}

pub open spec fn dependencies_view() -> CheckView {
    CheckView {
        id: "runtime_dependencies"@,
        status: DoctorStatus::Ready,
        summary: "Affinity, nice, I/O-priority, direct exec, and bounded acknowledgement APIs are compiled in."@,
        details: seq![("privilege"@, "not globally required"@), ("shell"@, "not used"@)],
    }
}

/// What the launcher is built with.
pub fn dependencies_check() -> (out: DoctorCheck)
    ensures
        out@ == dependencies_view(),
{
    broadcast use group_views;

    let mut details: Vec<DoctorDetail> = Vec::new();
    details.push(detail("privilege", "not globally required".to_owned()));
    details.push(detail("shell", "not used".to_owned()));
    assert(views(details@) =~= dependencies_view().details);
    check(
        "runtime_dependencies",
        DoctorStatus::Ready,
        "Affinity, nice, I/O-priority, direct exec, and bounded acknowledgement APIs are compiled in.",
        details,
    )
}

} // verus!
