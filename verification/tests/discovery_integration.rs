use ecore_launcher::discovery::probe::probe_paths;
use ecore_launcher::discovery::scanner::{
    BytesRead, DirectoryScan, DiscoverySnapshot, EntryKind, RootScan, ScanEntry,
};
use ecore_launcher::{
    DesktopApplicationScanner, DiscoveredApplication, DiscoveryError, DiscoveryOptions,
    DiscoveryReport, DiscoveryWarningCategory, UnixPath,
};

fn fixture(path: &str) -> UnixPath {
    UnixPath::from_text("/fixtures/desktop").join(path)
}

fn bin() -> UnixPath {
    UnixPath::from_text("/fixtures/bin")
}

fn executables() -> Vec<UnixPath> {
    [
        "fixture-user",
        "fixture-simple",
        "fixture-static",
        "fixture quoted",
        "fixture-terminal",
        "fixture-codes",
        "fixture-meta",
        "fixture-try",
        "fixture-system",
    ]
    .iter()
    .map(|name| bin().join(name))
    .collect()
}

fn options() -> DiscoveryOptions {
    DiscoveryOptions {
        data_home: Some(fixture("data-home")),
        data_dirs: vec![fixture("data-dir-1"), fixture("data-dir-2")],
        executable_path: vec![bin()],
        locale: Some("fr_CA.UTF-8".to_owned()),
        current_desktops: vec!["GNOME".to_owned()],
        include_no_display: false,
        ignore_desktop_filter: false,
        require_existing_roots: true,
    }
}

/// The files below one `applications` directory, as names and contents. A
/// name may hold one directory.
fn root(
    data: &str,
    files: &[(&str, &str)],
    contents: &mut Vec<(UnixPath, BytesRead)>,
) -> (UnixPath, RootScan) {
    let directory = fixture(data).join("applications");
    let mut entries = Vec::new();
    for (name, text) in files {
        contents.push((
            directory.join(name),
            BytesRead::Bytes(text.as_bytes().to_vec()),
        ));
        let (name, kind) = match name.split_once('/') {
            Some((inner, file)) => (
                inner,
                EntryKind::Directory(DirectoryScan::Entries(vec![ScanEntry::Entry {
                    name: UnixPath::from_text(file),
                    kind: EntryKind::File,
                }])),
            ),
            None => (*name, EntryKind::File),
        };
        entries.push(ScanEntry::Entry {
            name: UnixPath::from_text(name),
            kind,
        });
    }
    (directory, RootScan::Directory(DirectoryScan::Entries(entries)))
}

fn snapshot() -> DiscoverySnapshot {
    let mut files = Vec::new();
    let home = root(
        "data-home",
        &[
            (
                "override.desktop",
                "[Desktop Entry]\nType=Application\nName=User Override\nExec=fixture-user\n",
            ),
            (
                "suppress.desktop",
                "[Desktop Entry]\nType=Application\nName=Suppressed\nExec=fixture-user --no\nHidden=true\n",
            ),
        ],
        &mut files,
    );
    let first = root(
        "data-dir-1",
        &[
            (
                "override.desktop",
                "[Desktop Entry]\nType=Application\nName=System Version\nExec=fixture-system\n",
            ),
            (
                "suppress.desktop",
                "[Desktop Entry]\nType=Application\nName=Visible In System\nExec=fixture-system --visible\n",
            ),
            (
                "earlier.desktop",
                "[Desktop Entry]\nType=Application\nName=Earlier System Directory\nExec=fixture-system --earlier\n",
            ),
            (
                "simple.desktop",
                "[Desktop Entry]\nType=Application\nName=Simple\nExec=fixture-simple\n",
            ),
            (
                "static.desktop",
                "[Desktop Entry]\nType=Application\nName=Static\nExec=fixture-static --one two\n",
            ),
            (
                "quoted.desktop",
                "[Desktop Entry]\nType=Application\nName=Quoted\nExec=\"fixture quoted\" \"two words\" escaped\\ space\n",
            ),
            (
                "terminal.desktop",
                "[Desktop Entry]\nType=Application\nName=Terminal\nExec=fixture-terminal\nTerminal=true\nIcon=utilities-terminal\nCategories=System;TerminalEmulator;\n",
            ),
            (
                "field-codes.desktop",
                "[Desktop Entry]\nType=Application\nName=Field Code Application\nExec=fixture-codes %U %c %k 100%%\n",
            ),
            (
                "shell-meta.desktop",
                "[Desktop Entry]\nType=Application\nName=Shell Meta\nExec=fixture-meta ; | && $HOME $(touch)\n",
            ),
            (
                "localized.desktop",
                "[Desktop Entry]\nType=Application\nName=Name\nName[fr_CA]=Nom québécois\nGenericName=Generic\nGenericName[fr]=Nom générique\nExec=fixture-simple --localized\n",
            ),
            (
                "valid-tryexec.desktop",
                "[Desktop Entry]\nType=Application\nName=Valid TryExec\nTryExec=fixture-try\nExec=fixture-simple --try\n",
            ),
            (
                "missing-tryexec.desktop",
                "[Desktop Entry]\nType=Application\nName=Missing TryExec\nTryExec=fixture-absent\nExec=fixture-simple --never\n",
            ),
            (
                "only-gnome.desktop",
                "[Desktop Entry]\nType=Application\nName=Only GNOME\nExec=fixture-simple --only\nOnlyShowIn=GNOME;\n",
            ),
            (
                "not-gnome.desktop",
                "[Desktop Entry]\nType=Application\nName=Not GNOME\nExec=fixture-simple --not\nNotShowIn=GNOME;\n",
            ),
            (
                "no-display.desktop",
                "[Desktop Entry]\nType=Application\nName=No Display\nExec=fixture-simple --no-display\nNoDisplay=true\n",
            ),
            (
                "hidden.desktop",
                "[Desktop Entry]\nType=Application\nName=Hidden\nExec=fixture-simple --hidden\nHidden=true\n",
            ),
            (
                "vendor/nested.desktop",
                "[Desktop Entry]\nType=Application\nName=Nested\nExec=fixture-simple --nested\n",
            ),
            (
                "duplicate-a.desktop",
                "[Desktop Entry]\nType=Application\nName=Duplicate A\nExec=fixture-static --same\n",
            ),
            (
                "duplicate-b.desktop",
                "[Desktop Entry]\nType=Application\nName=Duplicate B\nExec=fixture-static --same\n",
            ),
            (
                "profile-a.desktop",
                "[Desktop Entry]\nType=Application\nName=Profile A\nExec=fixture-static --profile a\n",
            ),
            (
                "profile-b.desktop",
                "[Desktop Entry]\nType=Application\nName=Profile B\nExec=fixture-static --profile b\n",
            ),
            ("malformed.desktop", "[Desktop Entry]\nName=Broken\nTerminal=perhaps\n"),
            (
                "bad-exec.desktop",
                "[Desktop Entry]\nType=Application\nName=Bad Exec\nExec=fixture-simple \"open\n",
            ),
            (
                "unavailable.desktop",
                "[Desktop Entry]\nType=Application\nName=Unavailable\nExec=fixture-absent\n",
            ),
            ("notes.txt", "not a desktop file\n"),
        ],
        &mut files,
    );
    let second = root(
        "data-dir-2",
        &[
            (
                "earlier.desktop",
                "[Desktop Entry]\nType=Application\nName=Later System Directory\nExec=fixture-system --later\n",
            ),
            (
                "later.desktop",
                "[Desktop Entry]\nType=Application\nName=Later\nExec=fixture-system --other\n",
            ),
        ],
        &mut files,
    );
    DiscoverySnapshot {
        roots: vec![home, first, second],
        files,
        executables: executables(),
    }
}

fn discover(options: DiscoveryOptions) -> DiscoveryReport {
    DesktopApplicationScanner::from_options(options)
        .discover(&snapshot())
        .unwrap_or_else(|error| panic!("discover fixtures: {}", error.message()))
}

fn find<'a>(report: &'a DiscoveryReport, desktop_id: &str) -> &'a DiscoveredApplication {
    report
        .applications
        .iter()
        .find(|application| application.desktop_id == desktop_id)
        .unwrap_or_else(|| panic!("{desktop_id} should be present"))
}

#[test]
fn fixture_scan_parses_filters_resolves_and_orders_applications() {
    let report = discover(options());
    let ids: Vec<_> = report
        .applications
        .iter()
        .map(|application| application.desktop_id.as_str())
        .collect();

    assert_eq!(report.applications.len(), 16);
    assert!(ids.windows(2).all(|pair| pair[0] < pair[1]));
    assert!(ids.contains(&"simple.desktop"));
    assert!(ids.contains(&"vendor-nested.desktop"));
    assert!(ids.contains(&"only-gnome.desktop"));
    assert!(!ids.contains(&"not-gnome.desktop"));
    assert!(!ids.contains(&"no-display.desktop"));
    assert!(!ids.contains(&"hidden.desktop"));
    assert!(!ids.contains(&"suppress.desktop"));
    assert!(ids.contains(&"duplicate-a.desktop"));
    assert!(!ids.contains(&"duplicate-b.desktop"));
    assert!(ids.contains(&"profile-a.desktop"));
    assert!(ids.contains(&"profile-b.desktop"));

    let localized = find(&report, "localized.desktop");
    assert_eq!(localized.name, "Nom québécois");
    assert_eq!(localized.generic_name.as_deref(), Some("Nom générique"));

    let terminal = find(&report, "terminal.desktop");
    assert!(terminal.terminal);
    assert_eq!(terminal.icon.as_deref(), Some("utilities-terminal"));
    assert_eq!(terminal.categories, ["System", "TerminalEmulator"]);

    let quoted = find(&report, "quoted.desktop");
    assert_eq!(quoted.executable, bin().join("fixture quoted"));
    assert_eq!(quoted.arguments, ["two words", "escaped space"]);

    let try_exec = find(&report, "valid-tryexec.desktop");
    assert_eq!(try_exec.executable, bin().join("fixture-simple"));
    assert_ne!(try_exec.executable, bin().join("fixture-try"));
}

#[test]
fn exec_field_codes_and_shell_metacharacters_are_static_arguments() {
    let report = discover(options());
    let field_codes = find(&report, "field-codes.desktop");
    assert_eq!(
        field_codes.arguments,
        [
            "Field Code Application".to_owned(),
            fixture("data-dir-1/applications/field-codes.desktop").display(),
            "100%".to_owned()
        ]
    );

    let metacharacters = find(&report, "shell-meta.desktop");
    assert_eq!(
        metacharacters.arguments,
        [";", "|", "&&", "$HOME", "$(touch)"]
    );
}

#[test]
fn xdg_precedence_override_and_hidden_suppression_are_enforced() {
    let report = discover(options());

    let overridden = find(&report, "override.desktop");
    assert_eq!(overridden.name, "User Override");
    assert_eq!(overridden.source_priority, 0);
    let earlier = find(&report, "earlier.desktop");
    assert_eq!(earlier.name, "Earlier System Directory");
    assert_eq!(earlier.source_priority, 1);
    assert!(report.warnings.iter().any(|warning| {
        warning.category == DiscoveryWarningCategory::Overridden
            && warning.path == fixture("data-dir-1/applications/suppress.desktop")
    }));
    assert!(report.warnings.iter().any(|warning| {
        warning.category == DiscoveryWarningCategory::Visibility
            && warning.path == fixture("data-home/applications/suppress.desktop")
            && warning.reason.contains("suppresses this desktop ID")
    }));
}

#[test]
fn all_and_ignore_desktop_filter_have_narrow_documented_effects() {
    let mut all_options = options();
    all_options.include_no_display = true;
    let all_report = discover(all_options);
    assert!(all_report
        .applications
        .iter()
        .any(|application| application.desktop_id == "no-display.desktop"));
    assert!(!all_report
        .applications
        .iter()
        .any(|application| application.desktop_id == "suppress.desktop"));

    let mut ignored_options = options();
    ignored_options.ignore_desktop_filter = true;
    let ignored_report = discover(ignored_options);
    assert!(ignored_report
        .applications
        .iter()
        .any(|application| application.desktop_id == "not-gnome.desktop"));
}

#[test]
fn invalid_and_unavailable_entries_produce_typed_sorted_warnings() {
    let report = discover(options());

    assert!(report.warnings.windows(2).all(|pair| {
        (
            &pair[0].path.bytes,
            pair[0].category,
            pair[0].severity,
            &pair[0].reason,
        ) <= (
            &pair[1].path.bytes,
            pair[1].category,
            pair[1].severity,
            &pair[1].reason,
        )
    }));
    for category in [
        DiscoveryWarningCategory::DesktopEntry,
        DiscoveryWarningCategory::Exec,
        DiscoveryWarningCategory::Executable,
        DiscoveryWarningCategory::TryExec,
        DiscoveryWarningCategory::Visibility,
        DiscoveryWarningCategory::Overridden,
        DiscoveryWarningCategory::Duplicate,
    ] {
        assert!(
            report
                .warnings
                .iter()
                .any(|warning| warning.category == category),
            "missing warning category {category:?}"
        );
    }
    assert!(report.warnings.iter().all(|warning| warning.skipped));
}

#[test]
fn absolute_executable_and_invalid_utf8_use_only_temporary_fixtures() {
    let data = UnixPath::from_text("/temporary/data");
    let applications = data.join("applications");
    let program = UnixPath::from_text("/temporary/absolute executable");
    let entry = |name: &str| ScanEntry::Entry {
        name: UnixPath::from_text(name),
        kind: EntryKind::File,
    };
    let snapshot = DiscoverySnapshot {
        roots: vec![(
            applications.clone(),
            RootScan::Directory(DirectoryScan::Entries(vec![
                entry("absolute.desktop"),
                entry("invalid-utf8.desktop"),
            ])),
        )],
        files: vec![
            (
                applications.join("absolute.desktop"),
                BytesRead::Bytes(
                    b"[Desktop Entry]\nType=Application\nName=Absolute\nExec=\"/temporary/absolute executable\"\n".to_vec(),
                ),
            ),
            (
                applications.join("invalid-utf8.desktop"),
                BytesRead::Bytes(vec![0xff, 0xfe]),
            ),
        ],
        executables: vec![program.clone()],
    };
    let scanner = DesktopApplicationScanner::from_options(DiscoveryOptions {
        data_home: Some(data),
        data_dirs: Vec::new(),
        executable_path: Vec::new(),
        locale: None,
        current_desktops: Vec::new(),
        include_no_display: false,
        ignore_desktop_filter: false,
        require_existing_roots: true,
    });
    let report = scanner
        .discover(&snapshot)
        .unwrap_or_else(|error| panic!("discover absolute fixture: {}", error.message()));

    assert_eq!(report.applications.len(), 1);
    assert_eq!(report.applications[0].executable, program);
    let invalid: Vec<_> = report
        .warnings
        .iter()
        .filter(|warning| warning.category == DiscoveryWarningCategory::InvalidUtf8)
        .collect();
    assert_eq!(invalid.len(), 1);
    assert_eq!(
        invalid[0].reason,
        "desktop file is not valid UTF-8: invalid utf-8 sequence of 1 bytes from index 0"
    );
}

#[test]
fn invalid_configuration_and_required_roots_are_fatal() {
    let mut no_roots = options();
    no_roots.data_home = None;
    no_roots.data_dirs.clear();
    assert!(matches!(
        DesktopApplicationScanner::from_options(no_roots).discover(&snapshot()),
        Err(DiscoveryError::NoDiscoveryRoots)
    ));

    let missing = UnixPath::from_text("/missing");
    let scanner = DesktopApplicationScanner::from_options(DiscoveryOptions {
        data_home: Some(missing.clone()),
        data_dirs: Vec::new(),
        executable_path: Vec::new(),
        locale: None,
        current_desktops: Vec::new(),
        include_no_display: false,
        ignore_desktop_filter: false,
        require_existing_roots: true,
    });
    let snapshot = DiscoverySnapshot {
        roots: vec![(
            missing.join("applications"),
            RootScan::Missing("No such file or directory (os error 2)".to_owned()),
        )],
        files: Vec::new(),
        executables: Vec::new(),
    };
    assert!(matches!(
        scanner.discover(&snapshot),
        Err(DiscoveryError::RequiredRootUnavailable { .. })
    ));
}

#[test]
fn report_is_the_same_for_the_same_files() {
    assert_eq!(discover(options()), discover(options()));
}

#[test]
fn missing_optional_roots_are_passed_over() {
    let mut relaxed = options();
    relaxed.require_existing_roots = false;
    relaxed.data_dirs.push(fixture("data-dir-3"));
    assert_eq!(discover(relaxed).applications.len(), 16);

    let mut empty_root = options();
    empty_root.data_dirs.push(UnixPath::from_text(""));
    assert_eq!(
        DesktopApplicationScanner::from_options(empty_root).discover(&snapshot()),
        Err(DiscoveryError::EmptyDiscoveryRoot { priority: 3 })
    );
}

#[test]
fn every_program_that_decides_is_probed() {
    let file = fixture("data-dir-1/applications/valid-tryexec.desktop");
    let probed = probe_paths(&options(), &snapshot(), &file);
    assert!(probed.contains(&bin().join("fixture-try")));
    assert!(probed.contains(&bin().join("fixture-simple")));

    let mut without = snapshot();
    without.executables = without
        .executables
        .into_iter()
        .filter(|path| *path != bin().join("fixture-try"))
        .collect();
    let report = DesktopApplicationScanner::from_options(options())
        .discover(&without)
        .unwrap_or_else(|error| panic!("discover fixtures: {}", error.message()));
    assert!(report
        .applications
        .iter()
        .all(|application| application.desktop_id != "valid-tryexec.desktop"));
}

#[test]
fn unreadable_directories_and_files_become_warnings() {
    let data = UnixPath::from_text("/data");
    let applications = data.join("applications");
    let snapshot = DiscoverySnapshot {
        roots: vec![(
            applications.clone(),
            RootScan::Directory(DirectoryScan::Entries(vec![
                ScanEntry::Failed("entry lost".to_owned()),
                ScanEntry::Entry {
                    name: UnixPath::from_text("inner"),
                    kind: EntryKind::Directory(DirectoryScan::Failed("denied".to_owned())),
                },
                ScanEntry::Entry {
                    name: UnixPath::from_text("odd.desktop"),
                    kind: EntryKind::Unknown("no type".to_owned()),
                },
                ScanEntry::Entry {
                    name: UnixPath::from_text("socket.desktop"),
                    kind: EntryKind::Other,
                },
                ScanEntry::Entry {
                    name: UnixPath::from_text("link.desktop"),
                    kind: EntryKind::SymlinkToFile,
                },
            ])),
        )],
        files: vec![(
            applications.join("link.desktop"),
            BytesRead::Failed("gone".to_owned()),
        )],
        executables: Vec::new(),
    };
    let mut only_home = options();
    only_home.data_home = Some(data);
    only_home.data_dirs = Vec::new();
    let report = DesktopApplicationScanner::from_options(only_home)
        .discover(&snapshot)
        .unwrap_or_else(|error| panic!("discover: {}", error.message()));
    let reasons: Vec<_> = report
        .warnings
        .iter()
        .map(|warning| (warning.path.display(), warning.reason.as_str()))
        .collect();
    assert_eq!(
        reasons,
        [
            (
                "/data/applications".to_owned(),
                "directory entry could not be read: entry lost"
            ),
            (
                "/data/applications/inner".to_owned(),
                "directory could not be read: denied"
            ),
            (
                "/data/applications/link.desktop".to_owned(),
                "desktop file could not be read: gone"
            ),
            (
                "/data/applications/odd.desktop".to_owned(),
                "file type could not be inspected: no type"
            ),
        ]
    );
    assert!(report.applications.is_empty());
}

#[test]
fn report_and_json_serialization_are_deterministic() {
    let scanner = DesktopApplicationScanner::from_options(options());
    let first = scanner
        .discover(&snapshot())
        .unwrap_or_else(|error| panic!("first fixture discovery: {}", error.message()));
    let second = scanner
        .discover(&snapshot())
        .unwrap_or_else(|error| panic!("second fixture discovery: {}", error.message()));
    assert_eq!(first, second);
    assert!(!first.applications.is_empty());
    assert!(!first.warnings.is_empty());
    assert!(first.applications[0].desktop_file.to_text().is_some());
}
