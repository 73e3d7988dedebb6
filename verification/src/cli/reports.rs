//! What the commands on startup, supervision, topology and configuration tell
//! the user, line by line.
use vstd::prelude::*;
use vstd::string::StrSliceExecFns;
use vstd::string::StringExecFns;

use super::present::{
    core_line, core_report, display_cpu_list, flag_word, plural_text, shown_cpus, supervision_line,
    supervision_summary,
};
use super::select::plural;
use crate::discovery::types::{DiscoveryReport, WarningView};
use crate::doctor::checks::flag_text;
use crate::integration::autostart::{AssessmentView, AutostartState};
use crate::integration::startup::{ChangeView, StartupChange, StartupStatus, StatusView};
use crate::launcher::error::{failure_text, InitiatedView, LaunchReport, LaunchReportView};
use crate::path::{lossy_text, UnixPath};
use crate::supervisor::types::{SupervisionReport, SupervisionView, SupervisorWarningView};
use crate::text::{decimal, decimal_text, group_views, join, join_text, views};
use crate::topology::evidence::EvidenceView;
use crate::topology::types::{topology_class_text, CpuTopology, CpuTopologyView, PhysicalCoreView};

verus! {

/// What is told of startup that was enabled.
pub open spec fn enabled_lines(change: ChangeView, suppress: bool) -> Seq<Seq<char>> {
    seq!["Enabled user startup for the ecore-launcher supervisor."@] + (
    if change.autostart_overrides_changed.len() > 0 {
        seq![
            "Suppressed desktop autostart for: "@ + join(
                change.autostart_overrides_changed,
                ", "@,
            ) + "."@,
        ]
    } else if suppress {
        seq!["No matching system autostart entries required new overrides."@]
    } else {
        Seq::empty()
    }) + seq!["No managed application was launched by this command."@]
}

/// What is told of startup that was enabled.
pub fn enabled_report(change: &StartupChange, suppress: bool) -> (out: Vec<String>)
    ensures
        views(out@) == enabled_lines(change@, suppress),
{
    broadcast use group_views;

    assert(change@.autostart_overrides_changed.len() == change.autostart_overrides_changed@.len());
    let mut out: Vec<String> = Vec::new();
    out.push("Enabled user startup for the ecore-launcher supervisor.".to_owned());
    if change.autostart_overrides_changed.len() > 0 {
        out.push(
            "Suppressed desktop autostart for: ".to_owned().concat(
                join_text(&change.autostart_overrides_changed, ", ").as_str(),
            ).concat("."),
        );
    } else if suppress {
        out.push("No matching system autostart entries required new overrides.".to_owned());
    }
    out.push("No managed application was launched by this command.".to_owned());
    assert(views(out@) =~= enabled_lines(change@, suppress));
    out
}

/// What is told of startup that was disabled.
pub open spec fn disabled_lines(change: ChangeView) -> Seq<Seq<char>> {
    seq![
        if change.unit_changed {
            "Disabled and removed launcher-owned user startup integration."@
        } else {
            "Launcher-owned user startup integration was not installed."@
        },
    ] + (if change.autostart_overrides_changed.len() > 0 {
        seq![
            "Removed launcher-owned autostart overrides for: "@ + join(
                change.autostart_overrides_changed,
                ", "@,
            ) + "."@,
        ]
    } else {
        Seq::empty()
    }) + seq!["Running desktop applications and the registry were left untouched."@]
}

/// What is told of startup that was disabled.
pub fn disabled_report(change: &StartupChange) -> (out: Vec<String>)
    ensures
        views(out@) == disabled_lines(change@),
{
    broadcast use group_views;

    assert(change@.autostart_overrides_changed.len() == change.autostart_overrides_changed@.len());
    let mut out: Vec<String> = Vec::new();
    if change.unit_changed {
        out.push("Disabled and removed launcher-owned user startup integration.".to_owned());
    } else {
        out.push("Launcher-owned user startup integration was not installed.".to_owned());
    }
    if change.autostart_overrides_changed.len() > 0 {
        out.push(
            "Removed launcher-owned autostart overrides for: ".to_owned().concat(
                join_text(&change.autostart_overrides_changed, ", ").as_str(),
            ).concat("."),
        );
    }
    out.push("Running desktop applications and the registry were left untouched.".to_owned());
    assert(views(out@) =~= disabled_lines(change@));
    out
}

pub open spec fn autostart_name(state: AutostartState) -> Seq<char> {
    match state {
        AutostartState::NotPresent => "NotPresent"@,
        AutostartState::DuplicateRisk => "DuplicateRisk"@,
        AutostartState::SuppressedByLauncher => "SuppressedByLauncher"@,
        AutostartState::UserOverride => "UserOverride"@,
    }
}

fn name_autostart(state: AutostartState) -> (out: &'static str)
    ensures
        out@ == autostart_name(state),
{
    match state {
        AutostartState::NotPresent => "NotPresent",
        AutostartState::DuplicateRisk => "DuplicateRisk",
        AutostartState::SuppressedByLauncher => "SuppressedByLauncher",
        AutostartState::UserOverride => "UserOverride",
    }
}

pub open spec fn assessment_line() -> spec_fn(AssessmentView) -> Seq<char> {
    |one: AssessmentView| "  "@ + one.desktop_id + ": "@ + autostart_name(one.state)
}

pub open spec fn enabled_word(enabled: Option<bool>) -> Seq<char> {
    match enabled {
        Some(enabled) => if enabled {
            "yes"@
        } else {
            "no"@
        },
        None => "unknown"@,
    }
}

/// What is told of the unit.
pub open spec fn unit_lines(status: StatusView) -> Seq<Seq<char>> {
    seq![
        "User startup integration"@,
        "Unit: "@ + lossy_text(status.unit_path),
        "Present: "@ + flag_text(status.unit_present),
        "Launcher-owned: "@ + flag_text(status.unit_owned),
        "Current: "@ + flag_text(status.unit_current),
        "Ownership marker: "@ + flag_text(status.ownership_owned),
        "Enabled: "@ + enabled_word(status.enabled),
    ]
}

/// What is told of systemd.
pub open spec fn manager_lines(status: StatusView) -> Seq<Seq<char>> {
    (match status.systemctl_diagnostic {
        Some(diagnostic) => seq!["systemctl diagnostic: "@ + diagnostic],
        None => Seq::empty(),
    }) + (match status.manager_environment {
        Some(environment) => seq![
            "User-manager graphical environment: "@ + flag_text(environment.ready()),
        ],
        None => match status.manager_environment_diagnostic {
            Some(diagnostic) => seq!["User-manager environment diagnostic: "@ + diagnostic],
            None => Seq::empty(),
        },
    })
}

/// What is told of the applications' autostart entries.
pub open spec fn autostart_lines(all: Seq<AssessmentView>) -> Seq<Seq<char>> {
    if all.len() == 0 {
        seq!["Autostart: no enabled registered applications."@]
    } else {
        seq!["Autostart:"@] + all.map_values(assessment_line())
    }
}

/// What is told of the state of startup.
pub open spec fn status_lines(status: StatusView) -> Seq<Seq<char>> {
    unit_lines(status) + manager_lines(status) + autostart_lines(status.autostart)
}

fn push_unit(out: &mut Vec<String>, status: &StartupStatus)
    ensures
        views(final(out)@) == views(old(out)@) + unit_lines(status@),
{
    broadcast use group_views;

    let ghost before = views(out@);
    let enabled = match status.enabled {
        Some(enabled) => if enabled {
            "yes"
        } else {
            "no"
        },
        None => "unknown",
    };
    out.push("User startup integration".to_owned());
    out.push("Unit: ".to_owned().concat(status.unit_path.display().as_str()));
    out.push("Present: ".to_owned().concat(flag_word(status.unit_present)));
    out.push("Launcher-owned: ".to_owned().concat(flag_word(status.unit_owned)));
    out.push("Current: ".to_owned().concat(flag_word(status.unit_current)));
    out.push("Ownership marker: ".to_owned().concat(flag_word(status.ownership_owned)));
    out.push("Enabled: ".to_owned().concat(enabled));
    assert(views(out@) =~= before + unit_lines(status@));
}

fn push_manager(out: &mut Vec<String>, status: &StartupStatus)
    ensures
        views(final(out)@) == views(old(out)@) + manager_lines(status@),
{
    broadcast use group_views;

    let ghost before = views(out@);
    match &status.systemctl_diagnostic {
        Some(diagnostic) => {
            out.push("systemctl diagnostic: ".to_owned().concat(diagnostic.as_str()));
        },
        None => {},
    }
    match &status.manager_environment {
        Some(environment) => {
            out.push(
                "User-manager graphical environment: ".to_owned().concat(
                    flag_word(environment.is_ready()),
                ),
            );
        },
        None => match &status.manager_environment_diagnostic {
            Some(diagnostic) => {
                out.push(
                    "User-manager environment diagnostic: ".to_owned().concat(diagnostic.as_str()),
                );
            },
            None => {},
        },
    }
    assert(views(out@) =~= before + manager_lines(status@));
}

/// What is told of the state of startup.
pub fn status_report(status: &StartupStatus) -> (out: Vec<String>)
    ensures
        views(out@) == status_lines(status@),
{
    broadcast use group_views;

    let ghost all = status@.autostart;
    let ghost shown = assessment_line();
    let mut out: Vec<String> = Vec::new();
    push_unit(&mut out, status);
    push_manager(&mut out, status);
    let ghost head = unit_lines(status@) + manager_lines(status@);
    assert(views(out@) =~= head);
    assert(all.len() == status.autostart@.len());
    if status.autostart.len() == 0 {
        out.push("Autostart: no enabled registered applications.".to_owned());
        assert(views(out@) =~= status_lines(status@));
        return out;
    }
    out.push("Autostart:".to_owned());
    let mut i: usize = 0;
    assert(views(out@) =~= head + (seq!["Autostart:"@] + all.take(0).map_values(shown)));
    while i < status.autostart.len()
        invariant
            i <= status.autostart@.len(),
            all == views(status.autostart@),
            shown == assessment_line(),
            views(out@) == head + (seq!["Autostart:"@] + all.take(i as int).map_values(shown)),
        decreases status.autostart.len() - i,
    {
        let one = &status.autostart[i];
        let ghost before = views(out@);
        out.push(
            "  ".to_owned().concat(one.desktop_id.as_str()).concat(": ").concat(
                name_autostart(one.state),
            ),
        );
        assert(views(out@) == before.push(shown(all[i as int])));
        assert(all.take(i + 1).map_values(shown) =~= all.take(i as int).map_values(shown).push(
            shown(all[i as int]),
        ));
        assert(views(out@) =~= head + (seq!["Autostart:"@] + all.take(i + 1).map_values(shown)));
        i += 1;
    }
    assert(all.take(all.len() as int) =~= all);
    out
}

pub open spec fn supervised_line() -> spec_fn(InitiatedView) -> Seq<char> {
    |one: InitiatedView|
        "Exec succeeded for "@ + one.desktop_id + " (PID "@ + decimal(one.pid as nat) + ")."@
}

/// What is told of the launches before a supervision.
pub open spec fn launch_lines(report: LaunchReportView) -> Seq<Seq<char>> {
    if report.initiated.len() == 0 {
        seq!["No enabled registered applications to supervise."@]
    } else {
        report.initiated.map_values(supervised_line())
    }
}

/// What is told of the launches before a supervision.
pub fn launches_report(report: &LaunchReport) -> (out: Vec<String>)
    ensures
        views(out@) == launch_lines(report@),
{
    broadcast use group_views;

    let ghost all = report@.initiated;
    let ghost shown = supervised_line();
    let mut out: Vec<String> = Vec::new();
    assert(all.len() == report.initiated@.len());
    if report.initiated.len() == 0 {
        out.push("No enabled registered applications to supervise.".to_owned());
        assert(views(out@) =~= launch_lines(report@));
        return out;
    }
    let mut i: usize = 0;
    assert(views(out@) =~= all.take(0).map_values(shown));
    while i < report.initiated.len()
        invariant
            i <= report.initiated@.len(),
            all == views(report.initiated@),
            shown == supervised_line(),
            views(out@) == all.take(i as int).map_values(shown),
        decreases report.initiated.len() - i,
    {
        let one = &report.initiated[i];
        let ghost before = views(out@);
        out.push(
            "Exec succeeded for ".to_owned().concat(one.desktop_id.as_str()).concat(
                " (PID ",
            ).concat(decimal_text(one.pid as u64).as_str()).concat(")."),
        );
        assert(views(out@) == before.push(shown(all[i as int])));
        assert(all.take(i + 1).map_values(shown) =~= before.push(shown(all[i as int])));
        i += 1;
    }
    assert(all.take(all.len() as int) =~= all);
    out
}

/// What is told of a supervision that has ended.
pub open spec fn supervised_lines(launch: LaunchReportView, supervision: SupervisionView) -> Seq<
    Seq<char>,
> {
    seq![supervision_line(supervision)] + (match launch.failure {
        Some(failure) => seq!["Failed before exec: "@ + failure_text(failure)],
        None => Seq::empty(),
    })
}

/// What is told of a supervision that has ended.
pub fn supervised_report(launch: &LaunchReport, supervision: &SupervisionReport) -> (out: Vec<
    String,
>)
    ensures
        views(out@) == supervised_lines(launch@, supervision@),
{
    broadcast use group_views;

    let mut out: Vec<String> = Vec::new();
    out.push(supervision_summary(supervision));
    match &launch.failure {
        Some(failure) => {
            out.push("Failed before exec: ".to_owned().concat(failure.message().as_str()));
        },
        None => {},
    }
    assert(views(out@) =~= supervised_lines(launch@, supervision@));
    out
}

pub open spec fn supervisor_note() -> spec_fn(SupervisorWarningView) -> Seq<char> {
    |warning: SupervisorWarningView|
        "supervisor warning for "@ + warning.desktop_id + ": "@ + warning.reason
}

/// The warnings of a supervision, one line each.
pub fn supervisor_notes(supervision: &SupervisionReport) -> (out: Vec<String>)
    ensures
        views(out@) == supervision@.warnings.map_values(supervisor_note()),
{
    broadcast use group_views;

    let ghost all = supervision@.warnings;
    let ghost shown = supervisor_note();
    let mut out: Vec<String> = Vec::new();
    let mut i: usize = 0;
    assert(views(out@) =~= all.take(0).map_values(shown));
    while i < supervision.warnings.len()
        invariant
            i <= supervision.warnings@.len(),
            all == views(supervision.warnings@),
            shown == supervisor_note(),
            views(out@) == all.take(i as int).map_values(shown),
        decreases supervision.warnings.len() - i,
    {
        let warning = &supervision.warnings[i];
        let ghost before = views(out@);
        out.push(
            "supervisor warning for ".to_owned().concat(warning.desktop_id.as_str()).concat(
                ": ",
            ).concat(warning.reason.as_str()),
        );
        assert(views(out@) == before.push(shown(all[i as int])));
        assert(all.take(i + 1).map_values(shown) =~= before.push(shown(all[i as int])));
        i += 1;
    }
    assert(all.take(all.len() as int) =~= all);
    out
}

pub open spec fn interpretation_line() -> spec_fn(EvidenceView) -> Seq<char> {
    |item: EvidenceView| "  - "@ + item.interpretation
}

pub open spec fn core_lines(cores: Seq<PhysicalCoreView>) -> Seq<Seq<char>> {
    cores.map_values(|core: PhysicalCoreView| core_line(core))
}

/// What is told of a topology before its cores.
pub open spec fn topology_head(topology: CpuTopologyView) -> Seq<Seq<char>> {
    seq![
        "CPU topology"@,
        ""@,
        "Classification: "@ + topology_class_text(topology.classification),
        "Confidence:     "@ + topology.confidence.text(),
        "Online CPUs:    "@ + shown_cpus(topology.online_cpus),
        "P-core CPUs:    "@ + shown_cpus(topology.performance_cpus),
        "E-core CPUs:    "@ + shown_cpus(topology.efficiency_cpus),
        ""@,
        "Physical cores:"@,
    ]
}

/// What is told of a topology.
pub open spec fn topology_lines(topology: CpuTopologyView) -> Seq<Seq<char>> {
    topology_head(topology) + core_lines(topology.physical_cores) + seq![
        ""@,
        "Evidence:"@,
    ] + topology.evidence.map_values(interpretation_line())
}

fn begin_topology(topology: &CpuTopology) -> (out: Vec<String>)
    ensures
        views(out@) == topology_head(topology@),
{
    broadcast use group_views;

    let mut out: Vec<String> = Vec::new();
    out.push("CPU topology".to_owned());
    out.push("".to_owned());
    out.push("Classification: ".to_owned().concat(topology.classification.name().as_str()));
    out.push(
        "Confidence:     ".to_owned().concat(topology.confidence.with_two_decimals().as_str()),
    );
    out.push(
        "Online CPUs:    ".to_owned().concat(display_cpu_list(&topology.online_cpus).as_str()),
    );
    out.push(
        "P-core CPUs:    ".to_owned().concat(
            display_cpu_list(&topology.performance_cpus).as_str(),
        ),
    );
    out.push(
        "E-core CPUs:    ".to_owned().concat(display_cpu_list(&topology.efficiency_cpus).as_str()),
    );
    out.push("".to_owned());
    out.push("Physical cores:".to_owned());
    assert(views(out@) =~= topology_head(topology@));
    out
}

/// What is told of a topology.
pub fn topology_report(topology: &CpuTopology) -> (out: Vec<String>)
    ensures
        views(out@) == topology_lines(topology@),
{
    broadcast use group_views;

    let ghost head = topology_head(topology@);
    let ghost cores = topology@.physical_cores;
    let ghost shown = |core: PhysicalCoreView| core_line(core);
    let mut out = begin_topology(topology);
    let mut i: usize = 0;
    assert(views(out@) =~= head + cores.take(0).map_values(shown));
    while i < topology.physical_cores.len()
        invariant
            i <= topology.physical_cores@.len(),
            cores == views(topology.physical_cores@),
            shown == (|core: PhysicalCoreView| core_line(core)),
            views(out@) == head + cores.take(i as int).map_values(shown),
        decreases topology.physical_cores.len() - i,
    {
        let ghost before = views(out@);
        out.push(core_report(&topology.physical_cores[i]));
        assert(views(out@) == before.push(shown(cores[i as int])));
        assert(cores.take(i + 1).map_values(shown) =~= cores.take(i as int).map_values(shown).push(
            shown(cores[i as int]),
        ));
        assert(views(out@) =~= head + cores.take(i + 1).map_values(shown));
        i += 1;
    }
    assert(cores.take(cores.len() as int) =~= cores);
    out.push("".to_owned());
    out.push("Evidence:".to_owned());
    let ghost middle = head + core_lines(cores) + seq![""@, "Evidence:"@];
    let ghost notes = topology@.evidence;
    let ghost told = interpretation_line();
    let mut k: usize = 0;
    assert(views(out@) =~= middle + notes.take(0).map_values(told));
    while k < topology.evidence.len()
        invariant
            k <= topology.evidence@.len(),
            notes == views(topology.evidence@),
            told == interpretation_line(),
            views(out@) == middle + notes.take(k as int).map_values(told),
        decreases topology.evidence.len() - k,
    {
        let ghost before = views(out@);
        out.push("  - ".to_owned().concat(topology.evidence[k].interpretation.as_str()));
        assert(views(out@) == before.push(told(notes[k as int])));
        assert(notes.take(k + 1).map_values(told) =~= notes.take(k as int).map_values(told).push(
            told(notes[k as int]),
        ));
        assert(views(out@) =~= middle + notes.take(k + 1).map_values(told));
        k += 1;
    }
    assert(notes.take(notes.len() as int) =~= notes);
    out
}

/// What is told of a valid configuration.
pub fn configuration_report(path: &UnixPath, exists: bool) -> (out: String)
    ensures
        out@ == "Configuration "@ + lossy_text(path@) + (if exists {
            " is valid."@
        } else {
            " does not exist; the empty default registry is valid."@
        }),
{
    let rest = if exists {
        " is valid."
    } else {
        " does not exist; the empty default registry is valid."
    };
    "Configuration ".to_owned().concat(path.display().as_str()).concat(rest)
}

/// What is told of an application that was configured.
pub fn configured_report(desktop_id: &str, changed: bool) -> (out: String)
    ensures
        out@ == if changed {
            "Configured "@ + desktop_id@ + "."@
        } else {
            desktop_id@ + " already had the requested settings."@
        },
{
    if changed {
        "Configured ".to_owned().concat(desktop_id).concat(".")
    } else {
        desktop_id.to_owned().concat(" already had the requested settings.")
    }
}

/// The question before a removal.
pub fn removal_question(count: usize) -> (out: String)
    ensures
        out@ == "Remove "@ + decimal(count as nat) + " application"@ + plural_text(count as nat)
            + "? [y/N]"@,
{
    "Remove ".to_owned().concat(decimal_text(count as u64).as_str()).concat(
        " application",
    ).concat(plural(count)).concat("? [y/N]")
}

pub open spec fn discovery_note() -> spec_fn(WarningView) -> Seq<char> {
    |warning: WarningView| lossy_text(warning.path) + ": "@ + warning.reason
}

/// The diagnostics of a discovery, one line each.
pub fn discovery_notes(report: &DiscoveryReport) -> (out: Vec<String>)
    ensures
        views(out@) == report@.warnings.map_values(discovery_note()),
{
    broadcast use group_views;

    let ghost all = report@.warnings;
    let ghost shown = discovery_note();
    let mut out: Vec<String> = Vec::new();
    let mut i: usize = 0;
    assert(views(out@) =~= all.take(0).map_values(shown));
    while i < report.warnings.len()
        invariant
            i <= report.warnings@.len(),
            all == views(report.warnings@),
            shown == discovery_note(),
            views(out@) == all.take(i as int).map_values(shown),
        decreases report.warnings.len() - i,
    {
        let warning = &report.warnings[i];
        let ghost before = views(out@);
        out.push(warning.path.display().concat(": ").concat(warning.reason.as_str()));
        assert(views(out@) == before.push(shown(all[i as int])));
        assert(all.take(i + 1).map_values(shown) =~= before.push(shown(all[i as int])));
        i += 1;
    }
    assert(all.take(all.len() as int) =~= all);
    out
}

} // verus!
