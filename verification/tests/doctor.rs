use ecore_launcher::discovery::scanner::{
    BytesRead, DirectoryScan, DiscoverySnapshot, EntryKind, RootScan, ScanEntry,
};
use ecore_launcher::doctor::checks::{
    dependencies_check, join_cpus, policies_check, session_check, ProcfsReadiness,
};
use ecore_launcher::doctor::diagnose::DoctorObservations;
use ecore_launcher::integration::autostart::ObservedFile;
use ecore_launcher::integration::files::{startup_marker_text, FileState};
use ecore_launcher::integration::paths::{AncestorState, RootStates};
use ecore_launcher::integration::startup::CommandOutcome;
use ecore_launcher::launcher::policy::build_cpu_set;
use ecore_launcher::path::{FileRead, FileTree, TreeFile};
use ecore_launcher::registry::store::ConfigState;
use ecore_launcher::topology::sysfs::RootStatus;
use ecore_launcher::{
    diagnose, AppRegistry, CommandResult, DiscoveryOptions, DoctorCheck, DoctorOptions,
    DoctorReport, DoctorStatus, IntegrationPaths, IoPriorityClass, RegisteredApplication,
    SessionEnvironment, StartupManager, UnixPath,
};

const USER: u32 = 1_000;

fn path(text: &str) -> UnixPath {
    UnixPath::from_text(text)
}

fn owned_root() -> Vec<AncestorState> {
    vec![AncestorState::Exists {
        path: path("/root"),
        resolved: None,
        owner: USER,
    }]
}

fn roots() -> RootStates {
    RootStates {
        config_home: owned_root(),
        state_home: owned_root(),
        user: USER,
    }
}

fn integration_paths() -> IntegrationPaths {
    IntegrationPaths {
        config_home: path("/root/config"),
        config_dirs: vec![path("/root/system-config")],
        state_home: path("/root/state"),
    }
}

fn options() -> DoctorOptions {
    DoctorOptions {
        registry_path: path("/root/config/ecore-launcher/config.toml"),
        discovery: DiscoveryOptions {
            data_home: Some(path("/root/data")),
            data_dirs: Vec::new(),
            executable_path: vec![path("/bin")],
            locale: Some("C".to_owned()),
            current_desktops: vec!["Test".to_owned()],
            include_no_display: true,
            ignore_desktop_filter: false,
            require_existing_roots: true,
        },
        sysfs_root: path("/root/sysfs"),
        proc_root: path("/proc"),
        integration_paths: integration_paths(),
        launcher_executable: path("/bin/true"),
        systemctl_executable: path("/bin/true"),
        session: SessionEnvironment {
            display: Some(":0".to_owned()),
            wayland_display: None,
            current_desktop: Some("Test".to_owned()),
            dbus_session_bus_address: Some("unix:path=/fixture".to_owned()),
        },
    }
}

fn sysfs(core_types: [&str; 2]) -> FileTree {
    let mut tree = FileTree::new();
    let mut add = |name: String, contents: &str| {
        tree.files.push(TreeFile {
            path: path("/root/sysfs").join(&name),
            read: FileRead::Contents(contents.to_owned()),
        });
    };
    add("online".to_owned(), "0,1\n");
    add("present".to_owned(), "0,1\n");
    for (cpu, core_type) in core_types.iter().enumerate() {
        add(format!("cpu{cpu}/topology/core_type"), core_type);
        add(format!("cpu{cpu}/topology/core_id"), &format!("{cpu}\n"));
        add(format!("cpu{cpu}/topology/physical_package_id"), "0\n");
        add(format!("cpu{cpu}/topology/thread_siblings_list"), &format!("{cpu}\n"));
    }
    tree
}

fn command(stdout: &str) -> CommandOutcome {
    CommandOutcome::Finished(CommandResult {
        success: true,
        stdout: stdout.as_bytes().to_vec(),
        stderr: Vec::new(),
    })
}

fn discovery(files: &[(&str, &str)]) -> DiscoverySnapshot {
    let applications = path("/root/data/applications");
    DiscoverySnapshot {
        roots: vec![(
            applications.clone(),
            RootScan::Directory(DirectoryScan::Entries(
                files
                    .iter()
                    .map(|(name, _text)| ScanEntry::Entry {
                        name: path(name),
                        kind: EntryKind::File,
                    })
                    .collect(),
            )),
        )],
        files: files
            .iter()
            .map(|(name, text)| {
                (
                    applications.join(name),
                    BytesRead::Bytes(text.as_bytes().to_vec()),
                )
            })
            .collect(),
        executables: vec![path("/bin/true")],
    }
}

fn observed() -> DoctorObservations {
    DoctorObservations {
        platform: "linux/x86_64".to_owned(),
        config: ConfigState::Missing,
        discovery: discovery(&[]),
        sysfs_status: RootStatus::Directory,
        sysfs: sysfs(["64\n", "64\n"]),
        affinity: Ok(build_cpu_set(&vec![0, 1])
            .unwrap_or_else(|error| panic!("affinity: {}", error.message()))),
        roots: roots(),
        files: Vec::new(),
        enabled: command("enabled\n"),
        environment: command(
            "DISPLAY=:0\nXDG_CURRENT_DESKTOP=Test\nDBUS_SESSION_BUS_ADDRESS=present\n",
        ),
        procfs: ProcfsReadiness {
            root_is_directory: true,
            stat_readable: true,
            tasks_readable: true,
            children_readable: true,
        },
    }
}

fn healthy_registry() -> AppRegistry {
    AppRegistry {
        apps: vec![RegisteredApplication {
            desktop_id: "healthy.desktop".to_owned(),
            name: "Stored".to_owned(),
            enabled: true,
            io_class: IoPriorityClass::Unset,
            io_priority: None,
            ..RegisteredApplication::default()
        }],
        ..AppRegistry::default()
    }
}

fn healthy() -> DoctorObservations {
    let manager = StartupManager::new(
        integration_paths(),
        path("/bin/true"),
        path("/root/config/ecore-launcher/config.toml"),
        path("/bin/true"),
        &roots(),
    )
    .unwrap_or_else(|error| panic!("manager: {}", error.message()));
    let unit = manager
        .unit_contents()
        .unwrap_or_else(|error| panic!("unit: {}", error.message()));
    DoctorObservations {
        config: ConfigState::Decoded(healthy_registry()),
        discovery: discovery(&[(
            "healthy.desktop",
            "[Desktop Entry]\nType=Application\nName=Healthy\nExec=/bin/true\n",
        )]),
        sysfs: sysfs(["32\n", "64\n"]),
        files: vec![
            ObservedFile {
                path: integration_paths().unit_path(),
                state: FileState::Text(unit),
            },
            ObservedFile {
                path: integration_paths().ownership_path(),
                state: FileState::Text(startup_marker_text()),
            },
        ],
        ..observed()
    }
}

fn check<'a>(report: &'a DoctorReport, id: &str) -> &'a DoctorCheck {
    report
        .checks
        .iter()
        .find(|check| check.id == id)
        .unwrap_or_else(|| panic!("check {id} should be present"))
}

fn detail<'a>(check: &'a DoctorCheck, key: &str) -> Option<&'a str> {
    check.detail(key).map(String::as_str)
}

#[test]
fn empty_fixture_is_read_only_deterministic_and_warns_for_uniform_topology() {
    let first = diagnose(options(), observed());
    let second = diagnose(options(), observed());
    assert_eq!(first, second);
    assert!(first
        .checks
        .iter()
        .any(|check| check.id == "topology" && check.status == DoctorStatus::Warning));
}

#[test]
fn invalid_registry_and_missing_procfs_are_errors_without_panics() {
    let report = diagnose(
        options(),
        DoctorObservations {
            config: ConfigState::Malformed("expected a value".to_owned()),
            procfs: ProcfsReadiness {
                root_is_directory: false,
                stat_readable: false,
                tasks_readable: false,
                children_readable: false,
            },
            ..observed()
        },
    );
    assert!(report.has_errors());
    assert!(report
        .checks
        .iter()
        .any(|check| check.id == "registry" && check.status == DoctorStatus::Error));
    assert!(report
        .checks
        .iter()
        .any(|check| check.id == "procfs" && check.status == DoctorStatus::Error));
}

#[test]
fn healthy_fixture_is_ok_and_unavailable_app_is_reported_without_mutation() {
    let healthy_report = diagnose(options(), healthy());
    assert_eq!(healthy_report.status, DoctorStatus::Ready);

    let unavailable = diagnose(
        options(),
        DoctorObservations {
            discovery: discovery(&[]),
            ..healthy()
        },
    );
    let check = check(&unavailable, "desktop_resolution");
    assert_eq!(check.status, DoctorStatus::Error);
    assert_eq!(detail(check, "unavailable"), Some("healthy.desktop"));
}

#[test]
fn conflicting_autostart_is_a_warning_and_remains_untouched() {
    let mut observed = healthy();
    for (file, text) in [
        ("/root/system-config/autostart/healthy.desktop", "system\n"),
        ("/root/config/autostart/healthy.desktop", "user-owned\n"),
    ] {
        observed.files.push(ObservedFile {
            path: path(file),
            state: FileState::Text(text.to_owned()),
        });
    }
    let report = diagnose(options(), observed);
    let check = check(&report, "desktop_autostart");
    assert_eq!(check.status, DoctorStatus::Warning);
    assert_eq!(detail(check, "user_conflicts"), Some("healthy.desktop"));
}

#[test]
fn unusable_efficiency_cpus_are_errors_for_enabled_applications() {
    let mut observed = healthy();
    observed.affinity = Ok(build_cpu_set(&vec![1])
        .unwrap_or_else(|error| panic!("affinity: {}", error.message())));
    let report = diagnose(options(), observed);
    assert!(report.has_errors());
    assert_eq!(check(&report, "topology").status, DoctorStatus::Ready);
    let uniform = diagnose(
        options(),
        DoctorObservations {
            sysfs: sysfs(["64\n", "64\n"]),
            ..healthy()
        },
    );
    assert_eq!(check(&uniform, "topology").status, DoctorStatus::Error);
    assert_eq!(join_cpus(&vec![1, 3]), "1,3");
}

#[test]
fn checks_have_one_order_and_the_report_the_worst_status() {
    let ready = diagnose(options(), healthy());
    let broken = diagnose(
        options(),
        DoctorObservations {
            config: ConfigState::Symlink,
            ..observed()
        },
    );
    let ids = |report: &DoctorReport| -> Vec<String> {
        report.checks.iter().map(|check| check.id.clone()).collect()
    };
    assert_eq!(ids(&ready), ids(&broken));
    assert_eq!(broken.status, DoctorStatus::Error);
    assert_eq!(
        DoctorStatus::Warning.worse(DoctorStatus::Ready),
        DoctorStatus::Warning
    );
    let one = DoctorReport::new(vec![session_check(&SessionEnvironment::default()), dependencies_check()]);
    assert_eq!(one.status, DoctorStatus::Warning);
    assert!(!one.has_errors());
    for report in [&ready, &broken] {
        for check in &report.checks {
            assert!(check.details.windows(2).all(|pair| pair[0].key < pair[1].key));
        }
    }
}

#[test]
fn privileged_policies_are_pointed_out() {
    let mut registry = healthy_registry();
    assert_eq!(policies_check(&registry.apps).status, DoctorStatus::Ready);
    registry.apps[0].nice = -5;
    assert_eq!(policies_check(&registry.apps).status, DoctorStatus::Warning);
}
