use ecore_launcher::cli::present::{
    addition_report, check_report, core_report, discovery_report, display_cpu_list,
    mutation_report, pad, registry_entry, registry_list, run_report, supervision_summary,
};
use ecore_launcher::cli::reports::{
    configuration_report, configured_report, disabled_report, discovery_notes, enabled_report,
    launches_report, removal_question, status_report, supervised_report, supervisor_notes,
    topology_report,
};
use ecore_launcher::cli::select::{
    availability_label, can_select, confirm_removal, discovery_options, find_status,
    interactive_selection, select_ids, selection_menu, LineRead,
};
use ecore_launcher::doctor::report::DoctorDetail;
use ecore_launcher::float::Single;
use ecore_launcher::{
    AddApplicationsResult, AppRegistry, AutostartAssessment, AutostartState, CoreClass,
    CpuTopology, DetectionEvidence, DiscoveredApplication, DiscoveryOptions, DiscoveryReport,
    DiscoveryWarning, DiscoveryWarningCategory, DiscoveryWarningSeverity, DoctorCheck,
    DoctorStatus, EvidenceKind, EvidenceSource, EvidenceStrength, InitiatedApplication,
    IoPriorityClass, LaunchFailure, LaunchFailureStage, LaunchPlan, LaunchReport,
    ManagerEnvironmentStatus, PhysicalCore,
    PlannedApplication, RegisteredApplication, RegisteredApplicationAvailability,
    RegisteredApplicationStatus, RegistryError, RegistryMutationResult, StartupChange,
    StartupStatus, SupervisionReport, SupervisorWarning, TopologyClass, UnixPath,
};

fn path(text: &str) -> UnixPath {
    UnixPath::from_text(text)
}

fn discovered(desktop_id: &str, name: &str) -> DiscoveredApplication {
    DiscoveredApplication {
        desktop_id: desktop_id.to_owned(),
        name: name.to_owned(),
        generic_name: None,
        executable: path("/bin/true"),
        arguments: Vec::new(),
        icon: None,
        desktop_file: path("/data").join(desktop_id),
        terminal: false,
        categories: Vec::new(),
        startup_wm_class: None,
        source_priority: 0,
        no_display: false,
    }
}

fn report() -> DiscoveryReport {
    DiscoveryReport {
        applications: vec![discovered("a.desktop", "Alpha"), discovered("b.desktop", "Beta")],
        warnings: Vec::new(),
    }
}

fn registered(desktop_id: &str, name: &str) -> RegisteredApplication {
    RegisteredApplication {
        desktop_id: desktop_id.to_owned(),
        name: name.to_owned(),
        ..RegisteredApplication::default()
    }
}

fn line(text: &str) -> LineRead {
    LineRead::Line(text.to_owned())
}

#[test]
fn requested_ids_are_distinct_and_known() {
    let chosen = select_ids(
        &report(),
        &vec!["b.desktop".to_owned(), "a.desktop".to_owned(), "b.desktop".to_owned()],
    )
    .unwrap_or_else(|error| panic!("select: {}", error.message()));
    let mut ids: Vec<_> = chosen.iter().map(|one| one.desktop_id.as_str()).collect();
    ids.sort_unstable();
    assert_eq!(ids, ["a.desktop", "b.desktop"]);
    assert_eq!(
        select_ids(&report(), &vec!["c.desktop".to_owned()]),
        Err(RegistryError::UnknownDiscoveredApplication {
            desktop_id: "c.desktop".to_owned()
        })
    );
}

#[test]
fn menu_marks_registered_applications() {
    let registry = AppRegistry {
        apps: vec![registered("b.desktop", "Beta")],
        ..AppRegistry::default()
    };
    assert_eq!(
        selection_menu(&report(), &registry),
        ["  1. [ ] Alpha (a.desktop)", "  2. [registered] Beta (b.desktop)"]
    );
}

#[test]
fn numbers_select_from_the_menu() {
    let chosen = interactive_selection(&report(), true, line(" 2, 1,2 \n"))
        .unwrap_or_else(|error| panic!("select: {}", error.message()));
    let mut ids: Vec<_> = chosen.iter().map(|one| one.desktop_id.as_str()).collect();
    ids.sort_unstable();
    assert_eq!(ids, ["a.desktop", "b.desktop"]);
    assert_eq!(
        interactive_selection(&report(), true, line("3\n")),
        Err(RegistryError::InvalidInteractiveSelection {
            value: "3".to_owned()
        })
    );
    assert_eq!(
        interactive_selection(&report(), true, line("\n")),
        Err(RegistryError::InteractiveCanceled)
    );
    assert_eq!(
        interactive_selection(&report(), false, line("1\n")),
        Err(RegistryError::InteractiveInputUnavailable)
    );
    assert!(matches!(
        interactive_selection(&report(), true, LineRead::ReadFailed("closed".to_owned())),
        Err(RegistryError::InteractiveIo { .. })
    ));
    assert_eq!(can_select(&report(), true), Ok(()));
    assert!(can_select(&report(), false).is_err());
}

#[test]
fn removal_needs_a_yes() {
    assert_eq!(confirm_removal(true, line("yes\n")), Ok(()));
    assert_eq!(confirm_removal(true, line("Y\n")), Ok(()));
    assert_eq!(
        confirm_removal(true, line("maybe\n")),
        Err(RegistryError::InteractiveCanceled)
    );
    assert_eq!(
        confirm_removal(false, line("yes\n")),
        Err(RegistryError::InteractiveInputUnavailable)
    );
}

#[test]
fn discovery_options_replace_the_environment() {
    let environment = || DiscoveryOptions {
        data_home: Some(path("/home/user/.local/share")),
        data_dirs: vec![path("/usr/share")],
        executable_path: vec![path("/bin")],
        locale: None,
        current_desktops: Vec::new(),
        include_no_display: false,
        ignore_desktop_filter: false,
        require_existing_roots: false,
    };
    let plain = discovery_options(environment(), false, false, &None, &Vec::new());
    assert_eq!(plain.data_home, Some(path("/home/user/.local/share")));
    assert!(!plain.require_existing_roots);
    let explicit = discovery_options(
        environment(),
        true,
        true,
        &Some(path("/fixture/home")),
        &vec![path("/fixture/dir")],
    );
    assert_eq!(explicit.data_home, Some(path("/fixture/home")));
    assert_eq!(explicit.data_dirs, [path("/fixture/dir")]);
    assert!(explicit.include_no_display && explicit.ignore_desktop_filter);
    assert!(explicit.require_existing_roots);
}

#[test]
fn discovery_reports_count_what_was_found() {
    let lines = discovery_report(&report());
    assert_eq!(lines[0], "Installed applications");
    assert_eq!(lines[lines.len() - 2], "Found 2 applications.");
    assert_eq!(
        lines[lines.len() - 1],
        "Skipped 0 invalid, unavailable, filtered, overridden, or duplicate entries."
    );
}

#[test]
fn registered_applications_are_listed_in_columns() {
    assert_eq!(
        registry_list(&Vec::new()),
        [
            "Managed applications",
            "",
            "No applications are registered.",
            "",
            "0 registered applications."
        ]
    );
    let one = RegisteredApplicationStatus {
        application: registered("a.desktop", "Alpha"),
        availability: RegisteredApplicationAvailability::Unknown,
    };
    let lines = registry_list(&vec![one]);
    assert_eq!(
        lines[3],
        "enabled   unchecked     a.desktop  Alpha  0s  5"
    );
    assert_eq!(lines[5], "1 registered application.");
    assert_eq!(
        availability_label(&RegisteredApplicationAvailability::Available {
            current_name: "Alpha".to_owned()
        }),
        "available (Alpha)"
    );
    let entry = registry_entry(&RegisteredApplicationStatus {
        application: registered("a.desktop", "Alpha"),
        availability: RegisteredApplicationAvailability::Unavailable,
    });
    assert!(entry.iter().any(|line| line.contains("a.desktop")));
    assert!(entry.iter().any(|line| line.contains("unavailable")));
}

#[test]
fn changes_are_reported_by_id() {
    let lines = addition_report(&AddApplicationsResult {
        added: vec!["a.desktop".to_owned()],
        already_registered: vec!["b.desktop".to_owned()],
    });
    assert_eq!(
        lines,
        [
            "Added 1 application.",
            "  added: a.desktop",
            "  already registered: b.desktop"
        ]
    );
    let lines = mutation_report(
        "Enabled",
        &RegistryMutationResult {
            changed: vec!["a.desktop".to_owned(), "b.desktop".to_owned()],
            unchanged: vec!["c.desktop".to_owned()],
        },
    );
    assert_eq!(
        lines,
        [
            "Enabled 2 applications.",
            "  changed: a.desktop",
            "  changed: b.desktop",
            "  unchanged: c.desktop"
        ]
    );
}

#[test]
fn launches_are_reported_with_quoted_arguments() {
    let plan = LaunchPlan {
        applications: vec![PlannedApplication {
            desktop_id: "a.desktop".to_owned(),
            name: "Alpha".to_owned(),
            executable: path("/bin/true"),
            arguments: vec!["two words".to_owned(), "quo\"te".to_owned()],
            delay_seconds: 2,
            nice: 5,
            io_class: IoPriorityClass::Idle,
            io_priority: None,
            enforce_process_tree: false,
        }],
        efficiency_cpus: vec![1, 3],
    };
    let report = LaunchReport {
        initiated: vec![InitiatedApplication {
            desktop_id: "a.desktop".to_owned(),
            pid: 42,
            process_start_time_ticks: None,
            exec_succeeded: true,
        }],
        failure: None,
    };
    let dry = run_report(&plan, &LaunchReport::default(), true);
    assert_eq!(
        dry,
        [
            "Validated launch plan (dry run):",
            "  a.desktop: /bin/true [\"two words\", \"quo\\\"te\"]",
            "    delay=2s nice=5 io_class=idle io_priority=none enforce_process_tree=false",
            "E-core CPUs: [1, 3]"
        ]
    );
    let real = run_report(&plan, &report, false);
    assert_eq!(
        real,
        ["Exec succeeded for a.desktop (PID 42); application completion is not monitored."]
    );
    assert_eq!(
        launches_report(&report),
        ["Exec succeeded for a.desktop (PID 42)."]
    );
    assert_eq!(
        launches_report(&LaunchReport::default()),
        ["No enabled registered applications to supervise."]
    );
    let nothing = LaunchPlan {
        applications: Vec::new(),
        efficiency_cpus: Vec::new(),
    };
    assert_eq!(
        run_report(&nothing, &LaunchReport::default(), false),
        ["No enabled registered applications to launch."]
    );
}

#[test]
fn supervision_is_reported_with_its_failure_and_warnings() {
    let launch = LaunchReport {
        initiated: Vec::new(),
        failure: Some(LaunchFailure {
            desktop_id: "a.desktop".to_owned(),
            pid: None,
            stage: LaunchFailureStage::HelperSpawn,
            reason: "gone".to_owned(),
        }),
    };
    let supervision = SupervisionReport {
        warnings: vec![SupervisorWarning {
            desktop_id: "a.desktop".to_owned(),
            pid: Some(42),
            reason: "unreadable".to_owned(),
        }],
        ..SupervisionReport::default()
    };
    let lines = supervised_report(&launch, &supervision);
    assert_eq!(
        lines,
        [
            "No enforce-enabled live process tree required monitoring.",
            "Failed before exec: failed to launch `a.desktop` during helper_spawn: gone"
        ]
    );
    assert_eq!(
        supervisor_notes(&supervision),
        ["supervisor warning for a.desktop: unreadable"]
    );
}

#[test]
fn startup_changes_are_reported() {
    let nothing = StartupChange {
        unit_changed: false,
        autostart_overrides_changed: Vec::new(),
    };
    let both = StartupChange {
        unit_changed: true,
        autostart_overrides_changed: vec!["a.desktop".to_owned(), "b.desktop".to_owned()],
    };
    assert_eq!(
        enabled_report(&nothing, false),
        [
            "Enabled user startup for the ecore-launcher supervisor.",
            "No managed application was launched by this command."
        ]
    );
    assert_eq!(
        enabled_report(&nothing, true)[1],
        "No matching system autostart entries required new overrides."
    );
    assert_eq!(
        enabled_report(&both, true)[1],
        "Suppressed desktop autostart for: a.desktop, b.desktop."
    );
    assert_eq!(
        disabled_report(&nothing),
        [
            "Launcher-owned user startup integration was not installed.",
            "Running desktop applications and the registry were left untouched."
        ]
    );
    assert_eq!(
        disabled_report(&both),
        [
            "Disabled and removed launcher-owned user startup integration.",
            "Removed launcher-owned autostart overrides for: a.desktop, b.desktop.",
            "Running desktop applications and the registry were left untouched."
        ]
    );
}

#[test]
fn the_state_of_startup_is_reported() {
    let status = StartupStatus {
        unit_path: path("/home/user/.config/systemd/user/ecore-launcher.service"),
        unit_present: true,
        unit_owned: true,
        unit_current: false,
        ownership_present: true,
        ownership_owned: true,
        enabled: Some(true),
        systemctl_diagnostic: None,
        manager_environment: Some(ManagerEnvironmentStatus {
            display: true,
            wayland_display: false,
            current_desktop: true,
            session_bus: true,
        }),
        manager_environment_diagnostic: None,
        autostart: vec![AutostartAssessment {
            desktop_id: "a.desktop".to_owned(),
            state: AutostartState::DuplicateRisk,
            system_entries: vec![path("/etc/xdg/autostart/a.desktop")],
            user_override: path("/home/user/.config/autostart/a.desktop"),
        }],
    };
    assert_eq!(
        status_report(&status),
        [
            "User startup integration",
            "Unit: /home/user/.config/systemd/user/ecore-launcher.service",
            "Present: true",
            "Launcher-owned: true",
            "Current: false",
            "Ownership marker: true",
            "Enabled: yes",
            "User-manager graphical environment: true",
            "Autostart:",
            "  a.desktop: DuplicateRisk"
        ]
    );
    let unknown = StartupStatus {
        enabled: None,
        systemctl_diagnostic: Some("not found".to_owned()),
        manager_environment: None,
        manager_environment_diagnostic: Some("no bus".to_owned()),
        autostart: Vec::new(),
        ..status
    };
    assert_eq!(
        status_report(&unknown)[6..],
        [
            "Enabled: unknown",
            "systemctl diagnostic: not found",
            "User-manager environment diagnostic: no bus",
            "Autostart: no enabled registered applications."
        ]
    );
}

#[test]
fn topologies_are_reported_core_by_core() {
    let topology = CpuTopology {
        online_cpus: vec![0, 1],
        physical_cores: vec![PhysicalCore {
            package_id: Some(0),
            core_id: Some(1),
            logical_cpus: vec![1],
            core_class: CoreClass::Uniform,
            confidence: Single { bits: 0.82_f32.to_bits() },
            evidence: Vec::new(),
        }],
        performance_cpus: Vec::new(),
        efficiency_cpus: Vec::new(),
        classification: TopologyClass::Uniform,
        confidence: Single { bits: 0.82_f32.to_bits() },
        evidence: vec![DetectionEvidence {
            source: EvidenceSource::Classifier,
            affected_cpus: vec![0, 1],
            observed_value: "observed".to_owned(),
            interpretation: "All alike.".to_owned(),
            strength: EvidenceStrength::Strong,
            kind: EvidenceKind::Classification,
        }],
    };
    assert_eq!(
        topology_report(&topology),
        [
            "CPU topology",
            "",
            "Classification: Uniform",
            "Confidence:     0.82",
            "Online CPUs:    0-1",
            "P-core CPUs:    none",
            "E-core CPUs:    none",
            "",
            "Physical cores:",
            "  package 0, core 1: CPU 1          Uniform",
            "",
            "Evidence:",
            "  - All alike."
        ]
    );
}

#[test]
fn configuration_is_reported_in_a_line() {
    assert_eq!(
        configuration_report(&path("/etc/config.toml"), true),
        "Configuration /etc/config.toml is valid."
    );
    assert_eq!(
        configuration_report(&path("/etc/config.toml"), false),
        "Configuration /etc/config.toml does not exist; the empty default registry is valid."
    );
    assert_eq!(configured_report("a.desktop", true), "Configured a.desktop.");
    assert_eq!(
        configured_report("a.desktop", false),
        "a.desktop already had the requested settings."
    );
    assert_eq!(removal_question(1), "Remove 1 application? [y/N]");
    assert_eq!(removal_question(2), "Remove 2 applications? [y/N]");
    let notes = discovery_notes(&DiscoveryReport {
        applications: Vec::new(),
        warnings: vec![DiscoveryWarning {
            path: path("/data/broken.desktop"),
            category: DiscoveryWarningCategory::DesktopEntry,
            severity: DiscoveryWarningSeverity::Warning,
            reason: "Exec is missing or empty".to_owned(),
            skipped: true,
        }],
    });
    assert_eq!(notes, ["/data/broken.desktop: Exec is missing or empty"]);
}

#[test]
fn shown_applications_must_be_registered() {
    let all = || {
        vec![
            RegisteredApplicationStatus {
                application: registered("a.desktop", "Alpha"),
                availability: RegisteredApplicationAvailability::Unknown,
            },
            RegisteredApplicationStatus {
                application: registered("b.desktop", "Beta"),
                availability: RegisteredApplicationAvailability::Unavailable,
            },
        ]
    };
    let found = find_status(all(), "b.desktop")
        .unwrap_or_else(|error| panic!("find: {}", error.message()));
    assert_eq!(found.application.name, "Beta");
    assert!(matches!(
        find_status(all(), "c.desktop"),
        Err(RegistryError::UnknownRegisteredApplication { desktop_id }) if desktop_id == "c.desktop"
    ));
}

#[test]
fn summaries_name_the_numbers() {
    let summary = supervision_summary(&SupervisionReport {
        tracked_roots: 1,
        completed_roots: 1,
        polls: 12,
        affinity_updates: 3,
        warnings: Vec::new(),
        termination_signal: None,
    });
    assert_eq!(
        summary,
        "Supervision ended after 12 poll(s); 3 affinity update(s), 1 root(s) completed."
    );
    let stopped = supervision_summary(&SupervisionReport {
        termination_signal: Some("SIGTERM".to_owned()),
        ..SupervisionReport::default()
    });
    assert_eq!(
        stopped,
        "Supervision stopped cleanly after SIGTERM; managed applications were not signalled."
    );
    assert_eq!(
        supervision_summary(&SupervisionReport::default()),
        "No enforce-enabled live process tree required monitoring."
    );
    let check = check_report(&DoctorCheck {
        id: "registry".to_owned(),
        status: DoctorStatus::Warning,
        summary: "Something is odd.".to_owned(),
        details: vec![
            DoctorDetail {
                key: "empty".to_owned(),
                value: String::new(),
            },
            DoctorDetail {
                key: "path".to_owned(),
                value: "/tmp".to_owned(),
            },
        ],
    });
    assert_eq!(check, ["[WARNING] registry: Something is odd.", "  path: /tmp"]);
    let core = core_report(&PhysicalCore {
        package_id: Some(0),
        core_id: None,
        logical_cpus: vec![1, 3],
        core_class: CoreClass::Efficiency,
        confidence: Single { bits: 0.98_f32.to_bits() },
        evidence: Vec::new(),
    });
    assert_eq!(core, "  package 0, core unknown: CPUs 1,3        Efficiency");
    assert_eq!(display_cpu_list(&vec![1, 2, 3]), "1-3");
    assert_eq!(display_cpu_list(&Vec::new()), "none");
    assert_eq!(pad("ab", 4), "ab  ");
    assert_eq!(pad("abcde", 4), "abcde");
}

#[test]
fn foreign_bytes_are_displayed_with_replacement_characters() {
    let foreign = UnixPath { bytes: b"/bin/\xfftrue".to_vec() };
    assert_eq!(foreign.display(), "/bin/\u{fffd}true");
    assert_eq!(foreign.to_text(), None);
    assert_eq!(path("/bin/true").to_text(), Some("/bin/true".to_owned()));
}
