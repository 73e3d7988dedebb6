use std::collections::BTreeMap;

use ecore_launcher::integration::autostart::{
    autostart_paths, preflight_suppression, validate_desktop_id, ObservedFile,
};
use ecore_launcher::integration::files::{
    is_generated_unit, owned_autostart_contents, reject_unowned, systemd_quote_path, FileState,
    OwnedFile,
};
use ecore_launcher::integration::paths::{
    AncestorState, IntegrationEnvironment, RootStates, USER_UNIT_NAME,
};
use ecore_launcher::integration::startup::{
    parse_manager_environment, systemctl_result, CommandOutcome, StartupAction,
    SystemctlOperation,
};
use ecore_launcher::integration::suppression::{AutostartEntry, AutostartListing};
use ecore_launcher::integration::write::{check_removal, AtomicWrite, WriteEvent, WritePhase};
use ecore_launcher::replace::{DirectoryState, ReplaceEvent, ReplacePhase};
use ecore_launcher::{
    assess_autostart, AppRegistry, AutostartState, CommandResult, IntegrationError,
    IntegrationPaths, RegisteredApplication, StartupChange, StartupManager, UnixPath,
};

const USER: u32 = 1_000;

fn path(text: &str) -> UnixPath {
    UnixPath::from_text(text)
}

fn owned_root() -> Vec<AncestorState> {
    vec![AncestorState::Exists {
        path: path("/root"),
        resolved: Some(path("/root")),
        owner: USER,
    }]
}

fn roots() -> RootStates {
    RootStates {
        config_home: owned_root(),
        state_home: owned_root(),
        user: USER,
    }
}

fn registry() -> AppRegistry {
    let mut registry = AppRegistry::default();
    registry.apps.push(RegisteredApplication {
        desktop_id: "managed.desktop".to_owned(),
        name: "Managed".to_owned(),
        enabled: true,
        ..RegisteredApplication::default()
    });
    registry
}

fn manager() -> StartupManager {
    StartupManager::new(
        IntegrationPaths {
            config_home: path("/root/user"),
            config_dirs: vec![path("/root/system")],
            state_home: path("/root/state"),
        },
        path("/opt/$HOME/E Core/bin/ecore-launcher"),
        path("/home/user/config with space.toml"),
        path("/usr/bin/systemctl"),
        &roots(),
    )
    .unwrap_or_else(|error| panic!("create manager: {}", error.message()))
}

fn finished(stdout: &str) -> CommandOutcome {
    CommandOutcome::Finished(CommandResult {
        success: true,
        stdout: stdout.as_bytes().to_vec(),
        stderr: Vec::new(),
    })
}

/// The files of a session, and the calls of `systemctl`.
#[derive(Default)]
struct Session {
    files: BTreeMap<String, String>,
    links: Vec<String>,
    calls: Vec<Vec<String>>,
}

impl Session {
    fn state(&self, path: &UnixPath) -> FileState {
        if self.links.contains(&path.display()) {
            return FileState::Symlink;
        }
        match self.files.get(&path.display()) {
            Some(text) => FileState::Text(text.clone()),
            None => FileState::Missing,
        }
    }

    fn observe(&self, paths: Vec<UnixPath>) -> Vec<ObservedFile> {
        paths
            .into_iter()
            .map(|path| ObservedFile {
                state: self.state(&path),
                path,
            })
            .collect()
    }

    fn write(&mut self, path: UnixPath, contents: String, owned: OwnedFile) {
        let mut write = AtomicWrite::begin(path, owned, 7, 1)
            .unwrap_or_else(|error| panic!("begin write: {}", error.message()));
        loop {
            let event = match &write.phase {
                WritePhase::Done => break,
                WritePhase::Rejected(error) => panic!("write rejected: {}", error.message()),
                WritePhase::InspectRoot => WriteEvent::Root {
                    states: owned_root(),
                    user: USER,
                },
                WritePhase::InspectDirectory => WriteEvent::Directory(DirectoryState::Missing),
                WritePhase::CreateDirectory => WriteEvent::Outcome(ReplaceEvent::Succeeded),
                WritePhase::InspectDestination => WriteEvent::Destination(self.state(&write.path)),
                WritePhase::Replacing(inner) => match &inner.phase {
                    ReplacePhase::Recheck => WriteEvent::Destination(self.state(&write.path)),
                    _ => WriteEvent::Outcome(ReplaceEvent::Succeeded),
                },
            };
            write = write.step(event);
        }
        self.files.insert(write.path.display(), contents);
    }

    fn run(&mut self, actions: Vec<StartupAction>) {
        for action in actions {
            match action {
                StartupAction::Write {
                    path,
                    contents,
                    owned,
                } => self.write(path, contents, owned),
                StartupAction::Remove { path, owned } => {
                    let state = self.state(&path);
                    check_removal(&path, &owned, &owned_root(), USER, &state)
                        .unwrap_or_else(|error| panic!("remove: {}", error.message()));
                    self.files.remove(&path.display());
                }
                StartupAction::Systemctl(operation) => self.calls.push(operation.arguments()),
            }
        }
    }

    fn enable(
        &mut self,
        manager: &StartupManager,
        suppress: bool,
    ) -> Result<StartupChange, IntegrationError> {
        let files = self.observe(manager.observed_paths(&registry()));
        let plan = manager.enable(&registry(), suppress, &files)?;
        self.run(plan.actions);
        Ok(plan.change)
    }

    fn disable(&mut self, manager: &StartupManager) -> Result<StartupChange, IntegrationError> {
        let files = self.observe(manager.observed_paths(&registry()));
        let plan = manager.disable(&files)?;
        self.run(plan.actions);
        let mut change = plan.change;
        let directory = format!("{}/", manager.paths.autostart_dir().display());
        let entries = self
            .files
            .keys()
            .chain(self.links.iter())
            .filter_map(|name| name.strip_prefix(&directory))
            .map(|name| AutostartEntry {
                name: path(name),
                state: self.state(&manager.paths.autostart_dir().join(name)),
            })
            .collect();
        let removal = manager.remove_owned_suppressions(
            &owned_root(),
            USER,
            AutostartListing::Entries(entries),
        );
        self.run(removal.actions);
        change.autostart_overrides_changed = removal.removed;
        match removal.failure {
            Some(error) => Err(error),
            None => Ok(change),
        }
    }
}

#[test]
fn generated_unit_is_deterministic_safe_and_preserves_launched_apps() {
    let manager = manager();
    let first = manager
        .unit_contents()
        .unwrap_or_else(|error| panic!("render unit: {}", error.message()));
    assert_eq!(first, manager.unit_contents().unwrap());
    assert!(first.contains("ExecStart=:\"/opt/$HOME/E Core/bin/ecore-launcher\" --config \"/home/user/config with space.toml\" supervise"));
    assert!(first.contains("WantedBy=graphical-session.target"));
    assert!(first.contains("KillMode=process"));
    assert!(!first.contains("/etc/systemd/system"));
}

#[test]
fn enable_and_disable_use_direct_user_systemctl_arguments() {
    let manager = manager();
    let mut session = Session::default();
    session
        .enable(&manager, false)
        .unwrap_or_else(|error| panic!("enable: {}", error.message()));
    assert_eq!(session.calls[0], ["--user", "daemon-reload"]);
    assert_eq!(session.calls[1], ["--user", "enable", USER_UNIT_NAME]);
    session
        .disable(&manager)
        .unwrap_or_else(|error| panic!("disable: {}", error.message()));
    assert_eq!(session.calls[2], ["--user", "disable", USER_UNIT_NAME]);
    assert_eq!(session.calls[3], ["--user", "daemon-reload"]);
}

#[test]
fn ownership_state_allows_safe_disable_after_unit_disappears() {
    let manager = manager();
    let mut session = Session::default();
    session.enable(&manager, false).unwrap();
    session.files.remove(&manager.paths.unit_path().display());
    let change = session.disable(&manager).unwrap();
    assert!(!change.unit_changed);
    assert!(!session
        .files
        .contains_key(&manager.paths.ownership_path().display()));
    assert_eq!(session.calls[2], ["--user", "disable", USER_UNIT_NAME]);
    assert_eq!(session.calls[3], ["--user", "daemon-reload"]);
}

#[test]
fn explicit_suppression_is_owned_reversible_and_never_overwrites_user_files() {
    let manager = manager();
    let mut session = Session::default();
    session.files.insert(
        "/root/system/autostart/managed.desktop".to_owned(),
        "[Desktop Entry]\nType=Application\n".to_owned(),
    );
    let files = session.observe(autostart_paths(&manager.paths, &registry()));
    let assessments = assess_autostart(&manager.paths, &registry(), &files).unwrap();
    assert_eq!(assessments[0].state, AutostartState::DuplicateRisk);
    let change = session.enable(&manager, true).unwrap();
    assert_eq!(change.autostart_overrides_changed, ["managed.desktop"]);
    let override_path = "/root/user/autostart/managed.desktop";
    let contents = &session.files[override_path];
    assert!(contents.contains("Hidden=true"));
    assert!(contents.contains("X-Ecore-Launcher-Owned=true"));
    session.disable(&manager).unwrap();
    assert!(!session.files.contains_key(override_path));

    session
        .files
        .insert(override_path.to_owned(), "user content\n".to_owned());
    assert!(matches!(
        session.enable(&manager, true),
        Err(IntegrationError::UnownedFile { .. })
    ));
    assert_eq!(session.files[override_path], "user content\n");
    session.disable(&manager).unwrap();
    assert_eq!(session.files[override_path], "user content\n");
}

#[test]
fn status_is_read_only_and_uses_only_is_enabled() {
    let manager = manager();
    let session = Session::default();
    let files = session.observe(manager.observed_paths(&registry()));
    let status = manager
        .status(&registry(), &files, &finished("enabled\n"), &finished(""))
        .unwrap();
    assert!(!status.unit_present);
    assert!(!status.ownership_present);
    assert_eq!(status.enabled, Some(true));
    assert_eq!(
        SystemctlOperation::IsEnabled.arguments(),
        ["--user", "is-enabled", USER_UNIT_NAME]
    );
    assert_eq!(
        SystemctlOperation::ShowEnvironment.arguments(),
        ["--user", "show-environment"]
    );
}

#[test]
fn unrelated_user_autostart_file_without_system_entry_is_not_a_conflict() {
    let manager = manager();
    let mut session = Session::default();
    let override_path = "/root/user/autostart/managed.desktop";
    session
        .files
        .insert(override_path.to_owned(), "user content\n".to_owned());
    let change = session.enable(&manager, true).unwrap();
    assert!(change.autostart_overrides_changed.is_empty());
    assert_eq!(session.files[override_path], "user content\n");
    session.disable(&manager).unwrap();
    assert_eq!(session.files[override_path], "user content\n");
}

#[test]
fn disable_ignores_unrelated_autostart_symlinks() {
    let manager = manager();
    let mut session = Session::default();
    session
        .links
        .push("/root/user/autostart/unrelated.desktop".to_owned());
    let change = session.disable(&manager).unwrap();
    assert!(change.autostart_overrides_changed.is_empty());
    assert!(session.calls.is_empty());
}

#[test]
fn intermediate_symlink_into_system_state_is_rejected_before_mutation() {
    let manager = manager();
    let files = Session::default().observe(manager.observed_paths(&registry()));
    let plan = manager
        .enable(&registry(), false, &files)
        .unwrap_or_else(|error| panic!("enable: {}", error.message()));
    let Some(StartupAction::Write { path: unit, owned, .. }) = plan.actions.into_iter().next()
    else {
        panic!("the unit is written first");
    };
    let write = AtomicWrite::begin(unit, owned, 7, 1)
        .unwrap_or_else(|error| panic!("begin write: {}", error.message()))
        .step(WriteEvent::Root {
            states: vec![
                AncestorState::Missing,
                AncestorState::Exists {
                    path: path("/root/user/systemd"),
                    resolved: Some(path("/etc/systemd")),
                    owner: USER,
                },
            ],
            user: USER,
        });
    assert!(matches!(
        write.phase,
        WritePhase::Rejected(IntegrationError::UnsafeUserRoot { .. })
    ));
}

#[test]
fn traversal_desktop_id_and_control_character_paths_are_rejected() {
    let mut invalid = registry();
    invalid.apps[0].desktop_id = "../escape.desktop".to_owned();
    let paths = IntegrationPaths {
        config_home: path("/tmp/user"),
        config_dirs: vec![path("/tmp/system")],
        state_home: path("/tmp/state"),
    };
    assert!(matches!(
        assess_autostart(&paths, &invalid, &Vec::new()),
        Err(IntegrationError::InvalidDesktopId { .. })
    ));
    assert!(StartupManager::new(
        paths,
        path("/bad\npath"),
        path("/config"),
        path("systemctl"),
        &roots(),
    )
    .is_err());
    let environment = IntegrationEnvironment {
        xdg_config_home: None,
        xdg_config_dirs: Vec::new(),
        xdg_state_home: None,
        home: None,
    };
    assert!(matches!(
        IntegrationPaths::from_environment(
            &Some(path("/etc")),
            &Vec::new(),
            &Some(path("/tmp")),
            &environment,
            &roots()
        ),
        Err(IntegrationError::UnsafeUserRoot { .. })
    ));
    assert_eq!(
        IntegrationPaths::from_environment(
            &None,
            &Vec::new(),
            &Some(path("/tmp")),
            &environment,
            &roots()
        ),
        Err(IntegrationError::ConfigHomeUnavailable)
    );
}

#[test]
fn environment_supplies_the_documented_locations() {
    let environment = IntegrationEnvironment {
        xdg_config_home: None,
        xdg_config_dirs: Vec::new(),
        xdg_state_home: None,
        home: Some(path("/home/user")),
    };
    let paths = IntegrationPaths::from_environment(
        &None,
        &Vec::new(),
        &None,
        &environment,
        &roots(),
    )
    .unwrap_or_else(|error| panic!("locations: {}", error.message()));
    assert_eq!(
        paths.unit_path(),
        path("/home/user/.config/systemd/user/ecore-launcher.service")
    );
    assert_eq!(paths.autostart_dir(), path("/home/user/.config/autostart"));
    assert_eq!(paths.config_dirs, [path("/etc/xdg"), path("/usr/share")]);
    assert_eq!(paths.state_home, path("/home/user/.local/state"));
}

#[test]
fn roots_of_another_user_are_rejected() {
    let mut foreign = roots();
    foreign.user = 1;
    let manager = manager();
    assert!(matches!(
        StartupManager::new(
            manager.paths,
            manager.launcher_executable,
            manager.registry_path,
            manager.systemctl_executable,
            &foreign,
        ),
        Err(IntegrationError::UnsafeUserRoot { .. })
    ));
}

#[test]
fn enabling_twice_changes_nothing_and_disabling_undoes_it() {
    let manager = manager();
    let mut session = Session::default();
    assert!(session.enable(&manager, true).unwrap().unit_changed);
    let enabled = session.files.clone();
    assert_eq!(enabled.len(), 2);
    assert!(!session.enable(&manager, true).unwrap().unit_changed);
    assert_eq!(session.files, enabled);
    assert!(session.disable(&manager).unwrap().unit_changed);
    assert!(session.files.is_empty());
}

#[test]
fn foreign_units_are_never_replaced() {
    let manager = manager();
    let mut session = Session::default();
    session.files.insert(
        manager.paths.unit_path().display(),
        "[Unit]\nDescription=mine\n".to_owned(),
    );
    assert_eq!(
        session.enable(&manager, false),
        Err(IntegrationError::UnownedFile {
            path: manager.paths.unit_path()
        })
    );
    assert!(matches!(
        session.disable(&manager),
        Err(IntegrationError::UnownedFile { .. })
    ));
    assert!(session.calls.is_empty());
    assert!(is_generated_unit(&manager.unit_contents().unwrap()));
    assert!(!is_generated_unit("[Unit]\nDescription=mine\n"));
}

#[test]
fn symlinks_and_unreadable_files_are_rejected() {
    let unit = path("/root/unit");
    let owned = OwnedFile::Exactly("mine".to_owned());
    assert_eq!(reject_unowned(&unit, &owned, &FileState::Missing), Ok(()));
    assert_eq!(
        reject_unowned(&unit, &owned, &FileState::Text("mine".to_owned())),
        Ok(())
    );
    assert!(matches!(
        reject_unowned(&unit, &owned, &FileState::Text("other".to_owned())),
        Err(IntegrationError::UnownedFile { .. })
    ));
    assert!(matches!(
        reject_unowned(&unit, &owned, &FileState::Symlink),
        Err(IntegrationError::SymlinkRejected { .. })
    ));
    assert!(matches!(
        reject_unowned(&unit, &owned, &FileState::Failed("denied".to_owned())),
        Err(IntegrationError::FileSystem { .. })
    ));
}

#[test]
fn destinations_that_change_meanwhile_are_left_alone() {
    let write = AtomicWrite::begin(
        path("/root/user/autostart/a.desktop"),
        OwnedFile::Exactly(owned_autostart_contents("a.desktop")),
        7,
        1,
    )
    .unwrap_or_else(|error| panic!("begin write: {}", error.message()))
    .step(WriteEvent::Root {
        states: owned_root(),
        user: USER,
    })
    .step(WriteEvent::Directory(DirectoryState::Directory))
    .step(WriteEvent::Destination(FileState::Missing))
    .step(WriteEvent::Outcome(ReplaceEvent::Succeeded))
    .step(WriteEvent::Outcome(ReplaceEvent::Succeeded))
    .step(WriteEvent::Destination(FileState::Text("user".to_owned())))
    .step(WriteEvent::Outcome(ReplaceEvent::Succeeded));
    assert!(matches!(write.phase, WritePhase::Rejected(_)));
}

#[test]
fn quoted_paths_escape_what_systemd_reads() {
    assert_eq!(
        systemd_quote_path(&path("/a \"b\"\\c%d"), "launcher"),
        Ok("\"/a \\\"b\\\"\\\\c%%d\"".to_owned())
    );
    let foreign = UnixPath { bytes: vec![b'/', 0xff] };
    assert!(matches!(
        systemd_quote_path(&foreign, "launcher"),
        Err(IntegrationError::NonUtf8Path { .. })
    ));
}

#[test]
fn command_results_become_states_and_diagnostics() {
    let failed = |stdout: &str, stderr: &str| {
        CommandOutcome::Finished(CommandResult {
            success: false,
            stdout: stdout.as_bytes().to_vec(),
            stderr: stderr.as_bytes().to_vec(),
        })
    };
    assert_eq!(
        systemctl_result(SystemctlOperation::Enable, &finished("")),
        Ok(())
    );
    assert!(matches!(
        systemctl_result(SystemctlOperation::Enable, &failed("", "no bus\n")),
        Err(IntegrationError::Systemctl { reason, .. }) if reason.contains("no bus")
    ));
    let manager = manager();
    let status = |outcome: CommandOutcome| {
        manager
            .status(&registry(), &Vec::new(), &outcome, &finished("DISPLAY=:0\n"))
            .unwrap_or_else(|error| panic!("status: {}", error.message()))
    };
    assert_eq!(status(failed("disabled\n", "")).enabled, Some(false));
    assert_eq!(status(failed("disabled\n", "")).systemctl_diagnostic, None);
    assert!(status(failed("broken\n", "bad")).systemctl_diagnostic.is_some());
    assert_eq!(status(CommandOutcome::Failed("gone".to_owned())).enabled, None);
    let environment = parse_manager_environment(
        &b"DISPLAY=:0\nXDG_CURRENT_DESKTOP=GNOME\nDBUS_SESSION_BUS_ADDRESS=x\n\xff\n".to_vec(),
    );
    assert!(environment.display && environment.current_desktop && environment.session_bus);
    assert!(!environment.wayland_display);
    assert!(environment.is_ready());
    assert!(!parse_manager_environment(&b"DISPLAY=\n".to_vec()).is_ready());
}

#[test]
fn conflicting_overrides_stop_a_suppression() {
    let manager = manager();
    let mut session = Session::default();
    session.files.insert(
        "/root/system/autostart/managed.desktop".to_owned(),
        "[Desktop Entry]\n".to_owned(),
    );
    session.files.insert(
        "/root/user/autostart/managed.desktop".to_owned(),
        "mine\n".to_owned(),
    );
    let files = session.observe(autostart_paths(&manager.paths, &registry()));
    let all = assess_autostart(&manager.paths, &registry(), &files).unwrap();
    assert_eq!(all[0].state, AutostartState::UserOverride);
    assert!(preflight_suppression(&all).is_err());
    session.files.insert(
        "/root/user/autostart/managed.desktop".to_owned(),
        owned_autostart_contents("managed.desktop"),
    );
    let files = session.observe(autostart_paths(&manager.paths, &registry()));
    let all = assess_autostart(&manager.paths, &registry(), &files).unwrap();
    assert_eq!(all[0].state, AutostartState::SuppressedByLauncher);
    assert_eq!(preflight_suppression(&all), Ok(()));
    assert_eq!(validate_desktop_id("managed.desktop"), Ok(()));
    assert!(validate_desktop_id("a/b.desktop").is_err());
}
