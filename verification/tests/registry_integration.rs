use ecore_launcher::registry::model::{normalize_priority, read_stored_priority};
use ecore_launcher::registry::store::{
    canonical, Change, ChangeEvent, ChangePhase, ConfigState, EntryState, ParentAction,
};
use ecore_launcher::replace::{Destination, DirectoryState, ReplaceEvent, ReplacePhase};
use ecore_launcher::{
    resolve_config_path, validate_registry, AppRegistry, ApplicationSettingsUpdate,
    DiscoveredApplication, DiscoveryReport, IoPriorityClass, RegisteredApplication,
    RegisteredApplicationAvailability, RegistryError, RegistryStore, UnixPath,
};

fn path(text: &str) -> UnixPath {
    UnixPath::from_text(text)
}

fn store() -> RegistryStore {
    RegistryStore::new(path("/home/user/.config/ecore-launcher/config.toml"))
}

fn discovered(desktop_id: &str, name: &str) -> DiscoveredApplication {
    DiscoveredApplication {
        desktop_id: desktop_id.to_owned(),
        name: name.to_owned(),
        generic_name: None,
        executable: path("/fixture/bin/app"),
        arguments: vec!["--fixture".to_owned()],
        icon: Some("fixture".to_owned()),
        desktop_file: path("/fixture/applications").join(desktop_id),
        terminal: false,
        categories: vec!["Utility".to_owned()],
        startup_wm_class: None,
        source_priority: 0,
        no_display: false,
    }
}

fn registered(desktop_id: &str) -> RegisteredApplication {
    RegisteredApplication {
        desktop_id: desktop_id.to_owned(),
        name: desktop_id.to_owned(),
        ..RegisteredApplication::default()
    }
}

fn with_apps(apps: Vec<RegisteredApplication>) -> AppRegistry {
    AppRegistry {
        apps,
        ..AppRegistry::default()
    }
}

fn field_of(registry: &AppRegistry) -> String {
    validate_registry(registry)
        .expect_err("the registry must be rejected")
        .field
}

#[test]
fn missing_config_loads_empty_without_creating_file() {
    let load = store()
        .load_with_status(ConfigState::Missing)
        .unwrap_or_else(|error| panic!("load missing config: {}", error.message()));
    assert!(!load.exists);
    assert!(load.registry.apps.is_empty());
}

#[test]
fn saving_creates_private_parent_and_round_trips_deterministically() {
    let store = store();
    let mut registry = AppRegistry::default();
    registry
        .add_discovered(&vec![
            discovered("z.desktop", "Zulu"),
            discovered("a.desktop", "Alpha"),
        ])
        .unwrap_or_else(|error| panic!("add registry entries: {}", error.message()));
    assert_eq!(
        store.prepare_parent(DirectoryState::Missing),
        Ok(ParentAction::CreatePrivate)
    );
    let saved = store
        .save(&registry, ConfigState::Missing)
        .unwrap_or_else(|error| panic!("save registry: {}", error.message()));
    assert_eq!(saved.schema_version, 1);
    let loaded = store
        .load(ConfigState::Decoded(saved.clone()))
        .unwrap_or_else(|error| panic!("reload config: {}", error.message()));
    assert_eq!(loaded.apps[0].desktop_id, "a.desktop");
    assert_eq!(loaded.apps[1].desktop_id, "z.desktop");
    assert_eq!(
        canonical(&loaded),
        canonical(&saved)
    );
}

#[test]
fn malformed_unsupported_and_invalid_configs_are_not_replaced() {
    let store = store();
    let malformed = || ConfigState::Malformed("expected a value".to_owned());
    assert!(matches!(
        store.load(malformed()),
        Err(RegistryError::TomlSyntax { .. })
    ));
    assert!(matches!(
        store.save(&AppRegistry::default(), malformed()),
        Err(RegistryError::TomlSyntax { .. })
    ));

    let unsupported = AppRegistry {
        schema_version: 99,
        ..AppRegistry::default()
    };
    assert!(matches!(
        store.load(ConfigState::Decoded(unsupported)),
        Err(RegistryError::UnsupportedSchemaVersion { found: 99 })
    ));

    let mut invalid = AppRegistry::default();
    invalid.launcher.default_io_class = IoPriorityClass::BestEffort;
    invalid.launcher.default_io_priority = Some(9);
    assert!(matches!(
        store.load(ConfigState::Decoded(invalid)),
        Err(RegistryError::Validation(_))
    ));
}

#[test]
fn duplicate_desktop_ids_are_rejected_semantically() {
    let duplicated = with_apps(vec![registered("same.desktop"), registered("same.desktop")]);
    assert!(matches!(
        store().load(ConfigState::Decoded(duplicated)),
        Err(RegistryError::Validation(_))
    ));
}

#[test]
fn unknown_toml_values_survive_a_canonical_rewrite() {
    let mut registry = with_apps(vec![registered("example.desktop")]);
    let kept = vec![(
        "future_top".to_owned(),
        toml::Value::String("kept".to_owned()),
    )];
    registry.extra = kept.clone();
    registry.launcher.extra = vec![("future_launcher".to_owned(), toml::Value::Boolean(true))];
    registry.apps[0].extra = vec![("future_app".to_owned(), toml::Value::Integer(7))];
    let store = store();
    let loaded = store
        .load(ConfigState::Decoded(registry.clone()))
        .unwrap_or_else(|error| panic!("load future config: {}", error.message()));
    let saved = store
        .save(&loaded, ConfigState::Decoded(registry.clone()))
        .unwrap_or_else(|error| panic!("rewrite future config: {}", error.message()));
    assert_eq!(saved.extra, kept);
    assert_eq!(saved.launcher.extra, registry.launcher.extra);
    assert_eq!(saved.apps[0].extra, registry.apps[0].extra);
}

#[test]
fn existing_symlinked_config_is_rejected() {
    let store = store();
    assert!(matches!(
        store.load(ConfigState::Symlink),
        Err(RegistryError::SymlinkRejected { .. })
    ));
    assert!(matches!(
        store.save(&AppRegistry::default(), ConfigState::Symlink),
        Err(RegistryError::SymlinkRejected { .. })
    ));
}

#[test]
fn registry_operations_are_explicit_idempotent_and_keep_unavailable_entries() {
    let mut registry = AppRegistry::default();
    let one = discovered("one.desktop", "One");
    let two = discovered("two.desktop", "Two");
    let first = registry
        .add_discovered(&vec![one.clone(), two.clone(), one.clone()])
        .unwrap_or_else(|error| panic!("add selected apps: {}", error.message()));
    assert_eq!(first.added, ["one.desktop", "two.desktop"]);
    let repeated = registry
        .add_discovered(&vec![one])
        .unwrap_or_else(|error| panic!("repeat add: {}", error.message()));
    assert_eq!(repeated.already_registered, ["one.desktop"]);
    assert_eq!(registry.apps.len(), 2);

    let disable = registry
        .set_enabled(&vec!["one.desktop".to_owned()], false)
        .unwrap_or_else(|error| panic!("disable: {}", error.message()));
    assert_eq!(disable.changed, ["one.desktop"]);
    let disabled_again = registry
        .set_enabled(&vec!["one.desktop".to_owned()], false)
        .unwrap_or_else(|error| panic!("repeat disable: {}", error.message()));
    assert_eq!(disabled_again.unchanged, ["one.desktop"]);

    registry
        .configure(
            "one.desktop",
            &ApplicationSettingsUpdate {
                delay_seconds: Some(5),
                nice: Some(0),
                io_class: Some(IoPriorityClass::Idle),
                ..ApplicationSettingsUpdate::default()
            },
        )
        .unwrap_or_else(|error| panic!("configure: {}", error.message()));
    let configured = registry
        .apps
        .iter()
        .find(|application| application.desktop_id == "one.desktop")
        .unwrap_or_else(|| panic!("configured app should exist"));
    assert_eq!(configured.delay_seconds, 5);
    assert_eq!(configured.io_priority, None);
    registry
        .configure(
            "one.desktop",
            &ApplicationSettingsUpdate {
                reset_to_defaults: true,
                ..ApplicationSettingsUpdate::default()
            },
        )
        .unwrap_or_else(|error| panic!("reset: {}", error.message()));
    assert_eq!(registry.apps[0].delay_seconds, 0);

    let unavailable = registry.resolve_against(Some(&DiscoveryReport::default()));
    assert!(unavailable.iter().all(|status| matches!(
        status.availability,
        RegisteredApplicationAvailability::Unavailable
    )));
    registry
        .remove(&vec!["two.desktop".to_owned()])
        .unwrap_or_else(|error| panic!("remove: {}", error.message()));
    assert_eq!(registry.apps.len(), 1);
}

#[test]
fn failed_operations_and_store_mutations_leave_prior_state_intact() {
    let store = store();
    let (before, _added) = store
        .mutate(ConfigState::Missing, |mut registry| {
            match registry.add_discovered(&vec![discovered("valid.desktop", "Valid")]) {
                Ok(result) => Ok((registry, result)),
                Err(error) => Err(error),
            }
        })
        .unwrap_or_else(|error| panic!("initial mutation: {}", error.message()));
    assert_eq!(before.apps.len(), 1);
    let rejected = store.mutate(ConfigState::Decoded(before.clone()), |mut registry| {
        match registry.add_discovered(&vec![discovered("../invalid.desktop", "Invalid")]) {
            Ok(result) => Ok((registry, result)),
            Err(error) => Err(error),
        }
    });
    assert!(rejected.is_err());
    let missing = store.mutate(ConfigState::Decoded(before.clone()), |mut registry| {
        match registry.remove(&vec!["missing.desktop".to_owned()]) {
            Ok(result) => Ok((registry, result)),
            Err(error) => Err(error),
        }
    });
    assert!(matches!(
        missing,
        Err(RegistryError::UnknownRegisteredApplication { .. })
    ));

    let mut unchanged = before.clone();
    assert!(unchanged
        .remove(&vec!["valid.desktop".to_owned(), "missing.desktop".to_owned()])
        .is_err());
    assert_eq!(unchanged, before);
    assert!(unchanged
        .add_discovered(&vec![discovered("../invalid.desktop", "Invalid")])
        .is_err());
    assert_eq!(unchanged, before);
    assert!(unchanged
        .configure(
            "valid.desktop",
            &ApplicationSettingsUpdate {
                nice: Some(100),
                ..ApplicationSettingsUpdate::default()
            }
        )
        .is_err());
    assert_eq!(unchanged, before);
}

#[test]
fn sequential_mutations_reload_the_latest_saved_state() {
    let first = store();
    let second = store();
    let add = |mut registry: AppRegistry, id: &str, name: &str| match registry
        .add_discovered(&vec![discovered(id, name)])
    {
        Ok(result) => Ok((registry, result)),
        Err(error) => Err(error),
    };
    let (saved, _one) = first
        .mutate(ConfigState::Missing, |registry| {
            add(registry, "one.desktop", "One")
        })
        .unwrap_or_else(|error| panic!("first mutation: {}", error.message()));
    let (saved, _two) = second
        .mutate(ConfigState::Decoded(saved), |registry| {
            add(registry, "two.desktop", "Two")
        })
        .unwrap_or_else(|error| panic!("second mutation: {}", error.message()));
    let loaded = first
        .load(ConfigState::Decoded(saved))
        .unwrap_or_else(|error| panic!("load sequential result: {}", error.message()));
    assert_eq!(loaded.apps.len(), 2);
}

#[test]
fn resolves_explicit_xdg_and_home_paths_without_environment_mutation() {
    assert_eq!(
        resolve_config_path(
            &Some(path("relative-config.toml")),
            &Some(path("/ignored")),
            &Some(path("/ignored"))
        ),
        Ok(path("relative-config.toml"))
    );
    assert_eq!(
        resolve_config_path(&None, &Some(path("/xdg")), &Some(path("/home"))),
        Ok(path("/xdg/ecore-launcher/config.toml"))
    );
    assert_eq!(
        resolve_config_path(&None, &Some(path("")), &Some(path("/home"))),
        Ok(path("/home/.config/ecore-launcher/config.toml"))
    );
    assert!(matches!(
        resolve_config_path(&None, &None, &None),
        Err(RegistryError::ConfigPathUnavailable)
    ));
    assert!(matches!(
        resolve_config_path(&Some(path("")), &None, &None),
        Err(RegistryError::EmptyConfigPath)
    ));
}

#[test]
fn validates_default_registry_and_rejects_invalid_policy() {
    assert!(validate_registry(&AppRegistry::default()).is_ok());
    let mut registry = AppRegistry::default();
    registry.apps.push(RegisteredApplication {
        desktop_id: "example.desktop".to_owned(),
        name: "Example".to_owned(),
        io_class: IoPriorityClass::Idle,
        io_priority: Some(0),
        ..RegisteredApplication::default()
    });
    assert!(validate_registry(&registry)
        .expect_err("idle priority must be rejected")
        .field
        .ends_with("io_priority"));
}

#[test]
fn every_invalid_field_is_named() {
    let mut delayed = registered("a.desktop");
    delayed.delay_seconds = 3_601;
    assert!(field_of(&with_apps(vec![delayed])).ends_with("delay_seconds"));
    let mut nice = registered("a.desktop");
    nice.nice = 20;
    assert!(field_of(&with_apps(vec![nice])).ends_with("nice"));
    let mut unnamed = registered("a.desktop");
    unnamed.name = String::new();
    assert!(field_of(&with_apps(vec![unnamed])).ends_with("name"));
    assert!(field_of(&with_apps(vec![registered("a/b.desktop")])).ends_with("desktop_id"));
    assert!(field_of(&with_apps(vec![registered("..")])).ends_with("desktop_id"));
}

#[test]
fn new_applications_copy_the_defaults_and_removal_undoes_addition() {
    let mut registry = AppRegistry::default();
    registry.launcher.default_delay_seconds = 9;
    registry.launcher.default_nice = 11;
    let before = registry.clone();
    registry
        .add_discovered(&vec![discovered("one.desktop", "One")])
        .unwrap_or_else(|error| panic!("add: {}", error.message()));
    assert_eq!(registry.apps[0].delay_seconds, 9);
    assert_eq!(registry.apps[0].nice, 11);
    assert!(registry.apps[0].enabled);
    assert_eq!(
        registry.apps[0].desktop_file,
        Some(path("/fixture/applications/one.desktop"))
    );
    registry
        .remove(&vec!["one.desktop".to_owned()])
        .unwrap_or_else(|error| panic!("remove: {}", error.message()));
    assert_eq!(registry, before);
}

#[test]
fn removing_what_was_added_leaves_what_was_registered() {
    let mut registry = with_apps(vec![registered("b.desktop"), registered("d.desktop")]);
    registry.apps[0].nice = 7;
    let before = registry.clone();
    let result = registry
        .add_discovered(&vec![
            discovered("c.desktop", "C"),
            discovered("b.desktop", "Other"),
            discovered("a.desktop", "A"),
            discovered("c.desktop", "Again"),
        ])
        .unwrap_or_else(|error| panic!("add: {}", error.message()));
    assert_eq!(result.added, ["a.desktop", "c.desktop"]);
    assert_eq!(registry.apps.len(), 4);
    registry
        .remove(&result.added)
        .unwrap_or_else(|error| panic!("remove: {}", error.message()));
    assert_eq!(registry, before);
}

#[test]
fn an_update_that_mends_a_registry_is_idempotent() {
    let mut registry = with_apps(vec![registered("a.desktop"), registered("b.desktop")]);
    registry.apps[1].nice = 20;
    assert!(validate_registry(&registry).is_err());
    let update = ApplicationSettingsUpdate {
        nice: Some(5),
        ..ApplicationSettingsUpdate::default()
    };
    assert!(registry.configure("b.desktop", &update).unwrap());
    assert!(validate_registry(&registry).is_ok());
    let once = registry.clone();
    assert!(!registry.configure("b.desktop", &update).unwrap());
    assert_eq!(registry, once);
}

#[test]
fn configuring_changes_one_policy_and_a_reset_restores_the_defaults() {
    let mut registry = with_apps(vec![registered("a.desktop"), registered("b.desktop")]);
    registry.launcher.default_nice = 3;
    let before = registry.clone();
    let update = ApplicationSettingsUpdate {
        nice: Some(12),
        ..ApplicationSettingsUpdate::default()
    };
    assert!(registry.configure("b.desktop", &update).unwrap());
    assert_eq!(registry.apps[0], before.apps[0]);
    assert_eq!(registry.apps[1].nice, 12);
    assert_eq!(registry.launcher, before.launcher);
    assert!(!registry.configure("b.desktop", &update).unwrap());
    let reset = ApplicationSettingsUpdate {
        reset_to_defaults: true,
        ..ApplicationSettingsUpdate::default()
    };
    assert!(registry.configure("b.desktop", &reset).unwrap());
    assert_eq!(registry.apps[1].nice, 3);
    assert_eq!(registry.apps[0], before.apps[0]);
}

#[test]
fn the_last_flag_wins_and_changes_nothing_else() {
    let mut registry = with_apps(vec![registered("a.desktop"), registered("b.desktop")]);
    let before = registry.clone();
    let ids = vec!["b.desktop".to_owned()];
    registry.set_enabled(&ids, false).unwrap();
    assert_eq!(registry.apps[0], before.apps[0]);
    assert!(!registry.apps[1].enabled);
    assert!(validate_registry(&registry).is_ok());
    registry.set_enabled(&ids, true).unwrap();
    assert_eq!(registry, before);
}

#[test]
fn availability_follows_the_discovery_report() {
    let registry = with_apps(vec![registered("here.desktop"), registered("gone.desktop")]);
    let report = DiscoveryReport {
        applications: vec![discovered("here.desktop", "Here Now")],
        warnings: Vec::new(),
    };
    let found: Vec<_> = registry
        .resolve_against(Some(&report))
        .into_iter()
        .map(|status| (status.application.desktop_id, status.availability))
        .collect();
    assert!(found.contains(&(
        "here.desktop".to_owned(),
        RegisteredApplicationAvailability::Available {
            current_name: "Here Now".to_owned()
        }
    )));
    assert!(found.contains(&(
        "gone.desktop".to_owned(),
        RegisteredApplicationAvailability::Unavailable
    )));
    assert!(registry
        .resolve_against(None)
        .iter()
        .all(|status| status.availability == RegisteredApplicationAvailability::Unknown));
}

#[test]
fn priorities_follow_their_class() {
    assert_eq!(normalize_priority(Some(7), IoPriorityClass::Idle), None);
    assert_eq!(normalize_priority(Some(7), IoPriorityClass::Unset), None);
    assert_eq!(normalize_priority(None, IoPriorityClass::Realtime), Some(4));
    assert_eq!(normalize_priority(Some(2), IoPriorityClass::BestEffort), Some(2));
    assert_eq!(
        read_stored_priority(None, IoPriorityClass::BestEffort),
        Some(4)
    );
    assert_eq!(IoPriorityClass::Unset.name(), "none");
    assert_eq!(IoPriorityClass::BestEffort.name(), "best-effort");
}

#[test]
fn store_failures_name_the_path() {
    let store = store();
    assert!(matches!(
        store.load(ConfigState::Directory),
        Err(RegistryError::ConfigPathIsDirectory { .. })
    ));
    assert!(matches!(
        store.load(ConfigState::ReadFailed("denied".to_owned())),
        Err(RegistryError::ReadConfig { .. })
    ));
    assert!(matches!(
        store.prepare_parent(DirectoryState::NotDirectory),
        Err(RegistryError::CreateConfigDirectory { .. })
    ));
    assert_eq!(
        store.lock_path(),
        path("/home/user/.config/ecore-launcher/config.toml.lock")
    );
    assert!(matches!(
        store.check_lock(EntryState::Symlink),
        Err(RegistryError::SymlinkRejected { .. })
    ));
    assert_eq!(store.check_lock(EntryState::Missing), Ok(()));
    assert!(matches!(
        store.write_failure("disk full".to_owned()),
        RegistryError::AtomicWrite { .. }
    ));
}

#[test]
fn only_what_can_be_replaced_is_written() {
    assert!(store().inspect(&ConfigState::Missing).is_ok());
    assert!(store()
        .inspect(&ConfigState::Malformed("broken".to_owned()))
        .is_ok());
    assert!(matches!(
        store().inspect(&ConfigState::Symlink),
        Err(RegistryError::SymlinkRejected { .. })
    ));
    assert!(matches!(
        store().inspect(&ConfigState::Directory),
        Err(RegistryError::ConfigPathIsDirectory { .. })
    ));
    assert!(matches!(
        store().inspect(&ConfigState::InspectionFailed("denied".to_owned())),
        Err(RegistryError::ReadConfig { source, .. }) if source == "denied"
    ));
}

#[test]
fn writes_replace_the_file_through_a_private_temporary() {
    let store = store();
    let write = store
        .begin_write(7, 3)
        .unwrap_or_else(|error| panic!("begin: {}", error.message()));
    let first = write.temporary();
    assert_eq!(first.parent(), store.path().parent());
    let write = write.step(ReplaceEvent::AlreadyExists);
    assert_ne!(write.temporary(), first);
    let write = write.step(ReplaceEvent::Succeeded);
    assert_eq!(write.phase, ReplacePhase::Fill);
    let write = write.step(ReplaceEvent::Succeeded);
    assert_eq!(write.phase, ReplacePhase::Recheck);
    let write = write.step(ReplaceEvent::Seen(RegistryStore::destination(
        EntryState::Other,
    )));
    assert_eq!(write.phase, ReplacePhase::Rename);
    let write = write.step(ReplaceEvent::Succeeded);
    assert_eq!(write.phase, ReplacePhase::Sync);
    assert_eq!(write.step(ReplaceEvent::Succeeded).phase, ReplacePhase::Done);
}

#[test]
fn a_symlink_that_appears_is_never_replaced() {
    let write = store()
        .begin_write(7, 3)
        .unwrap_or_else(|error| panic!("begin: {}", error.message()))
        .step(ReplaceEvent::Succeeded)
        .step(ReplaceEvent::Succeeded)
        .step(ReplaceEvent::Seen(Destination::Symlink));
    assert!(matches!(write.phase, ReplacePhase::Cleanup { .. }));
    assert!(matches!(
        write.step(ReplaceEvent::Succeeded).phase,
        ReplacePhase::Failed { .. }
    ));
}

/// A system in which a change is carried out: what is there, and what was
/// done.
struct FakeSystem {
    parent: bool,
    lock: bool,
    stored: Option<AppRegistry>,
    actions: Vec<&'static str>,
}

impl FakeSystem {
    fn new(parent: bool, lock: bool, stored: Option<AppRegistry>) -> Self {
        FakeSystem {
            parent,
            lock,
            stored,
            actions: Vec::new(),
        }
    }

    fn state(&self) -> ConfigState {
        match &self.stored {
            Some(registry) => ConfigState::Decoded(registry.clone()),
            None => ConfigState::Missing,
        }
    }

    fn apply(
        &self,
        mutation: fn(&mut AppRegistry) -> Result<(), RegistryError>,
    ) -> Result<AppRegistry, RegistryError> {
        let mut registry = store().load(self.state())?;
        mutation(&mut registry)?;
        Ok(registry)
    }

    fn change(
        &mut self,
        mutation: fn(&mut AppRegistry) -> Result<(), RegistryError>,
    ) -> Result<(), RegistryError> {
        let mut change = Change::begin(store());
        loop {
            let event = match &change.phase {
                ChangePhase::InspectParent if self.parent => {
                    ChangeEvent::Parent(DirectoryState::Directory)
                }
                ChangePhase::InspectParent => ChangeEvent::Parent(DirectoryState::Missing),
                ChangePhase::InspectLock if self.lock => ChangeEvent::Lock(EntryState::Other),
                ChangePhase::InspectLock => ChangeEvent::Lock(EntryState::Missing),
                ChangePhase::Rehearse => {
                    self.actions.push("rehearse");
                    ChangeEvent::Changed(self.apply(mutation))
                }
                ChangePhase::CreateParent => {
                    self.actions.push("create directory");
                    self.parent = true;
                    ChangeEvent::ParentCreated
                }
                ChangePhase::TakeLock { create } => {
                    self.actions.push(if *create { "create lock" } else { "take lock" });
                    self.lock = true;
                    ChangeEvent::Locked
                }
                ChangePhase::Apply => {
                    self.actions.push("apply");
                    ChangeEvent::Changed(self.apply(mutation))
                }
                ChangePhase::InspectConfig => ChangeEvent::Config(self.state()),
                ChangePhase::Write => {
                    self.actions.push("write");
                    self.stored = change.accepted.clone();
                    ChangeEvent::Written
                }
                ChangePhase::Finished => return Ok(()),
                ChangePhase::Failed(_) => break,
            };
            change.step(event);
        }
        match change.phase {
            ChangePhase::Failed(error) => Err(error),
            _ => unreachable!("only a failed change leaves the loop"),
        }
    }
}

fn add_one(registry: &mut AppRegistry) -> Result<(), RegistryError> {
    registry
        .add_discovered(&vec![discovered("one.desktop", "One")])
        .map(|_result| ())
}

fn remove_unknown(registry: &mut AppRegistry) -> Result<(), RegistryError> {
    registry
        .remove(&vec!["unknown.desktop".to_owned()])
        .map(|_result| ())
}

fn spoil(registry: &mut AppRegistry) -> Result<(), RegistryError> {
    let mut broken = registered("broken.desktop");
    broken.nice = 20;
    registry.apps.push(broken);
    Ok(())
}

#[test]
fn refused_mutations_create_nothing() {
    let mut system = FakeSystem::new(false, false, None);
    assert!(system.change(remove_unknown).is_err());
    assert_eq!(system.actions, ["rehearse"]);
    assert!(!system.parent && !system.lock && system.stored.is_none());

    let mut system = FakeSystem::new(true, false, None);
    assert!(matches!(
        system.change(spoil),
        Err(RegistryError::Validation(_))
    ));
    assert_eq!(system.actions, ["rehearse"]);
    assert!(!system.lock && system.stored.is_none());

    let before = with_apps(vec![registered("a.desktop")]);
    let mut system = FakeSystem::new(true, true, Some(before.clone()));
    assert!(system.change(remove_unknown).is_err());
    assert_eq!(system.actions, ["take lock", "apply"]);
    assert_eq!(system.stored, Some(before));
}

#[test]
fn valid_mutations_create_the_directory_and_write_under_the_lock() {
    let mut system = FakeSystem::new(false, false, None);
    system
        .change(add_one)
        .unwrap_or_else(|error| panic!("change: {}", error.message()));
    assert_eq!(
        system.actions,
        ["rehearse", "create directory", "create lock", "apply", "write"]
    );
    let stored = system.stored.unwrap_or_else(|| panic!("a stored registry"));
    assert_eq!(stored.apps[0].desktop_id, "one.desktop");

    let mut system = FakeSystem::new(true, true, None);
    system
        .change(add_one)
        .unwrap_or_else(|error| panic!("change: {}", error.message()));
    assert_eq!(system.actions, ["take lock", "apply", "write"]);
}

#[test]
fn what_is_in_the_way_of_a_change_is_reported() {
    let lock = path("/home/user/.config/ecore-launcher/config.toml.lock");
    let failed = |events: Vec<ChangeEvent>| {
        let mut change = Change::begin(store());
        for event in events {
            change.step(event);
        }
        match change.phase {
            ChangePhase::Failed(error) => error,
            phase => panic!("not failed: {phase:?}"),
        }
    };
    assert!(matches!(
        failed(vec![ChangeEvent::Parent(DirectoryState::NotDirectory)]),
        RegistryError::CreateConfigDirectory { .. }
    ));
    let parent = || ChangeEvent::Parent(DirectoryState::Directory);
    assert_eq!(
        failed(vec![parent(), ChangeEvent::Lock(EntryState::Symlink)]),
        RegistryError::SymlinkRejected { path: lock.clone() }
    );
    assert_eq!(
        failed(vec![
            parent(),
            ChangeEvent::Lock(EntryState::Other),
            ChangeEvent::LockFailed("denied".to_owned()),
        ]),
        RegistryError::LockAcquire {
            path: lock.clone(),
            source: "denied".to_owned()
        }
    );
    let changed = || ChangeEvent::Changed(Ok(AppRegistry::default()));
    assert!(matches!(
        failed(vec![
            ChangeEvent::Parent(DirectoryState::Missing),
            changed(),
            ChangeEvent::Parent(DirectoryState::Missing),
            ChangeEvent::ParentFailed("denied".to_owned()),
        ]),
        RegistryError::CreateConfigDirectory { source, .. } if source == "denied"
    ));
    assert_eq!(
        failed(vec![
            parent(),
            ChangeEvent::Lock(EntryState::Other),
            ChangeEvent::Locked,
            changed(),
            ChangeEvent::Config(ConfigState::Directory),
        ]),
        RegistryError::ConfigPathIsDirectory {
            path: store().path
        }
    );
    let mut vanished = Change::begin(store());
    vanished.step(parent());
    vanished.step(ChangeEvent::Lock(EntryState::Other));
    vanished.step(ChangeEvent::LockMissing("gone".to_owned()));
    assert_eq!(vanished.phase, ChangePhase::InspectParent);
    vanished.step(parent());
    vanished.step(ChangeEvent::Lock(EntryState::Missing));
    assert_eq!(vanished.phase, ChangePhase::Rehearse);
}
