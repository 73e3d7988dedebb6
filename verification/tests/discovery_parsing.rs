use ecore_launcher::discovery::desktop_entry::{parse_desktop_entry, DesktopEntry};
use ecore_launcher::discovery::environment::{
    environment_data_dirs, environment_data_home, environment_locale, split_desktops,
    DiscoveryEnvironment,
};
use ecore_launcher::discovery::exec_parser::parse_exec;
use ecore_launcher::discovery::scanner::{desktop_file_id, desktop_is_visible};
use ecore_launcher::{
    DesktopApplicationScanner, DesktopEntryParseError, DiscoveryOptions, ExecParseError,
    ExecutableResolutionError,
    ExecutableResolver, ParsedExec, UnixPath,
};

fn path(text: &str) -> UnixPath {
    UnixPath::from_text(text)
}

fn some(text: &str) -> Option<String> {
    Some(text.to_owned())
}

fn entry(input: &str) -> DesktopEntry {
    parse_desktop_entry(input)
        .unwrap_or_else(|error| panic!("parse valid entry: {}", error.message()))
}

fn parse(input: &str) -> Result<ParsedExec, ExecParseError> {
    parse_exec(input, "Example Application", &path("/data/example.desktop"))
}

fn empty_environment() -> DiscoveryEnvironment {
    DiscoveryEnvironment {
        xdg_data_home: None,
        home: None,
        xdg_data_dirs: Vec::new(),
        path: Vec::new(),
        lc_all: None,
        lc_messages: None,
        lang: None,
        current_desktop: None,
    }
}

#[test]
fn parses_main_group_and_ignores_actions_and_unknown_keys() {
    let entry = entry(
        "# comment\n[Desktop Entry]\nType=Application\nName=Example\\sApp\nExec=example %U\nTerminal=true\nCategories=Utility;Network;\nUnknown=value\n\n[Desktop Action New]\nName=Wrong\nExec=wrong\n",
    );

    assert_eq!(entry.entry_type.as_deref(), Some("Application"));
    assert_eq!(entry.names.resolve(&None).as_deref(), Some("Example App"));
    assert_eq!(entry.command.as_deref(), Some("example %U"));
    assert!(entry.terminal);
    assert_eq!(entry.categories, ["Utility", "Network"]);
}

#[test]
fn resolves_specific_then_language_then_unlocalized_name() {
    let entry = entry(
        "[Desktop Entry]\nName=Default\nName[fr]=Français\nName[fr_CA]=Québécois\nExec=example\n",
    );

    assert_eq!(
        entry.names.resolve(&some("fr_CA.UTF-8")).as_deref(),
        Some("Québécois")
    );
    assert_eq!(
        entry.names.resolve(&some("fr_FR.UTF-8")).as_deref(),
        Some("Français")
    );
    assert_eq!(
        entry.names.resolve(&some("de_DE.UTF-8")).as_deref(),
        Some("Default")
    );
}

#[test]
fn rejects_malformed_supported_values_without_panicking() {
    assert!(matches!(
        parse_desktop_entry("[Desktop Entry]\nName=Example\nExec=example\nHidden=True\n"),
        Err(DesktopEntryParseError::InvalidBoolean { .. })
    ));
    assert!(matches!(
        parse_desktop_entry("[Desktop Entry]\nName=Bad\\qName\nExec=example\n"),
        Err(DesktopEntryParseError::InvalidEscape { .. })
    ));
    assert!(matches!(
        parse_desktop_entry("[Desktop Entry]\nName=One\nName=Two\nExec=example\n"),
        Err(DesktopEntryParseError::DuplicateKey { .. })
    ));
}

#[test]
fn every_entry_error_names_its_place() {
    assert_eq!(
        parse_desktop_entry("# only a comment\n"),
        Err(DesktopEntryParseError::MissingDesktopEntryGroup)
    );
    assert_eq!(
        parse_desktop_entry("[Desktop Entry]\nName=A\n[Desktop Entry]\n"),
        Err(DesktopEntryParseError::DuplicateDesktopEntryGroup)
    );
    assert_eq!(
        parse_desktop_entry("[Desktop Entry]\nName=A\nno separator\n"),
        Err(DesktopEntryParseError::MalformedLine { line: 3 })
    );
    assert_eq!(
        parse_desktop_entry("[Desktop Entry]\nName=One\nName=Two\n"),
        Err(DesktopEntryParseError::DuplicateKey {
            line: 3,
            key: "Name".to_owned()
        })
    );
    assert_eq!(
        parse_desktop_entry(
            "# head\n\n[Desktop Entry]\nName=One\nName[fr]=Un\n\n# again\nName[fr] = Deux\n"
        ),
        Err(DesktopEntryParseError::DuplicateKey {
            line: 8,
            key: "fr".to_owned()
        })
    );
    assert_eq!(
        parse_desktop_entry("[Desktop Entry]\nTerminal=yes\n"),
        Err(DesktopEntryParseError::InvalidBoolean {
            key: "Terminal".to_owned(),
            value: "yes".to_owned()
        })
    );
    assert_eq!(
        parse_desktop_entry("[Desktop Entry]\nName=Bad\\qName\n"),
        Err(DesktopEntryParseError::InvalidEscape {
            key: "Name".to_owned(),
            escape: 'q'
        })
    );
    assert_eq!(
        parse_desktop_entry("[Desktop Entry]\nName=Trailing\\\n"),
        Err(DesktopEntryParseError::IncompleteEscape {
            key: "Name".to_owned()
        })
    );
}

#[test]
fn lists_are_split_at_every_separator() {
    assert_eq!(
        parse_desktop_entry("[Desktop Entry]\nCategories=One\\;Half;\n"),
        Err(DesktopEntryParseError::InvalidEscape {
            key: "Categories".to_owned(),
            escape: ';'
        })
    );
    let entry = entry("[Desktop Entry]\nCategories=One\\sHalf;Two;;\nOnlyShowIn=GNOME\n");
    assert_eq!(entry.categories, ["One Half", "Two"]);
    assert_eq!(entry.only_show_in, ["GNOME"]);
    assert!(entry.not_show_in.is_empty());
    assert_eq!(entry.names.resolve(&None), None);
}

#[test]
fn tokenizes_unquoted_and_quoted_commands() {
    assert_eq!(
        parse("example --flag value"),
        Ok(ParsedExec {
            executable: "example".to_owned(),
            arguments: vec!["--flag".to_owned(), "value".to_owned()]
        })
    );
    assert_eq!(
        parse("\"/opt/Example App/example\" \"two words\" \"\""),
        Ok(ParsedExec {
            executable: "/opt/Example App/example".to_owned(),
            arguments: vec!["two words".to_owned(), String::new()]
        })
    );
}

#[test]
fn supports_escaped_spaces_and_quotes() {
    assert_eq!(
        parse("example escaped\\ space \\\"quoted\\\""),
        Ok(ParsedExec {
            executable: "example".to_owned(),
            arguments: vec!["escaped space".to_owned(), "\"quoted\"".to_owned()]
        })
    );
}

#[test]
fn quoted_words_are_read_as_they_were() {
    let parsed = parse(r#""my app" "a\tb" "quo\"te" "back\\slash" "$(x) ;" """#);
    assert_eq!(
        parsed,
        Ok(ParsedExec {
            executable: "my app".to_owned(),
            arguments: vec![
                "atb".to_owned(),
                "quo\"te".to_owned(),
                "back\\slash".to_owned(),
                "$(x) ;".to_owned(),
                String::new()
            ]
        })
    );
}

#[test]
fn applies_supported_field_codes() {
    let parsed = parse("example %f %F %u %U %i %c %k 100%%");
    assert_eq!(
        parsed,
        Ok(ParsedExec {
            executable: "example".to_owned(),
            arguments: vec![
                "Example Application".to_owned(),
                "/data/example.desktop".to_owned(),
                "100%".to_owned()
            ]
        })
    );
}

#[test]
fn rejects_malformed_or_unknown_field_codes() {
    assert_eq!(parse("example %"), Err(ExecParseError::TrailingPercent));
    assert_eq!(
        parse("example %d"),
        Err(ExecParseError::UnsupportedFieldCode { code: 'd' })
    );
    assert_eq!(
        parse("example prefix%U"),
        Err(ExecParseError::EmbeddedFieldCode { code: 'U' })
    );
    assert_eq!(
        parse("app%c"),
        Err(ExecParseError::ExecutableFieldCode { code: 'c' })
    );
}

#[test]
fn rejects_malformed_quoting_escaping_and_missing_executable() {
    assert_eq!(
        parse("example \"open"),
        Err(ExecParseError::UnterminatedQuote)
    );
    assert_eq!(
        parse("example trailing\\"),
        Err(ExecParseError::IncompleteEscape)
    );
    assert_eq!(parse("  \t "), Err(ExecParseError::MissingExecutable));
    assert_eq!(parse("\"\" arg"), Err(ExecParseError::MissingExecutable));
}

#[test]
fn shell_metacharacters_are_ordinary_arguments() {
    assert_eq!(
        parse("example ; rm -rf / | $HOME && $(touch)"),
        Ok(ParsedExec {
            executable: "example".to_owned(),
            arguments: [";", "rm", "-rf", "/", "|", "$HOME", "&&", "$(touch)"]
                .map(str::to_owned)
                .to_vec()
        })
    );
}

#[test]
fn nul_bytes_and_foreign_desktop_paths_are_rejected() {
    assert_eq!(parse("exam\0ple"), Err(ExecParseError::ContainsNul));
    let foreign = UnixPath { bytes: vec![b'/', 0xff] };
    assert_eq!(
        parse_exec("example %k", "Example", &foreign),
        Err(ExecParseError::NonUtf8DesktopPath)
    );
    assert_eq!(
        parse_exec("example plain", "Example", &foreign),
        Err(ExecParseError::NonUtf8DesktopPath)
    );
}

#[test]
fn resolves_path_names_and_symlinks_without_canonicalizing() {
    let root = path("/programs");
    let program = root.join("program");
    let link = root.join("program-link");
    let executables = vec![program.clone(), link.clone()];
    let resolver = ExecutableResolver::new(vec![root]);

    assert_eq!(resolver.resolve("program", &executables), Ok(program));
    assert_eq!(resolver.resolve("program-link", &executables), Ok(link));
}

#[test]
fn resolves_absolute_paths_and_rejects_non_executable_files() {
    let program = path("/root/absolute-program");
    let executables = vec![program.clone()];
    let resolver = ExecutableResolver::default();

    assert_eq!(
        resolver.resolve("/root/absolute-program", &executables),
        Ok(program)
    );
    assert!(matches!(
        resolver.resolve("/root/plain", &executables),
        Err(ExecutableResolutionError::NotExecutable { .. })
    ));
}

#[test]
fn missing_bare_name_is_reported() {
    let resolver = ExecutableResolver::new(Vec::new());
    assert_eq!(
        resolver.resolve("missing", &Vec::new()),
        Err(ExecutableResolutionError::NotFound {
            executable: "missing".to_owned()
        })
    );
}

#[test]
fn path_order_skips_non_executable_candidates() {
    let first = path("/first");
    let second = path("/second");
    let second_program = second.join("program");
    let resolver = ExecutableResolver::new(vec![first.clone(), second.clone()]);

    assert_eq!(
        resolver.candidates("program"),
        vec![first.join("program"), second_program.clone()]
    );
    assert_eq!(
        resolver.resolve("program", &vec![second_program.clone()]),
        Ok(second_program.clone())
    );
    assert_eq!(
        resolver.resolve("program", &vec![second_program, first.join("program")]),
        Ok(first.join("program"))
    );
}

#[test]
fn unusable_executable_names_are_reported() {
    let resolver = ExecutableResolver::new(vec![path("/bin")]);
    let empty = resolver.resolve("", &Vec::new());
    assert_eq!(empty, Err(ExecutableResolutionError::Empty));
    let nul = resolver.resolve("a\0b", &Vec::new());
    assert_eq!(nul, Err(ExecutableResolutionError::ContainsNul));
    assert_eq!(
        ExecutableResolutionError::NotExecutable { path: path("/plain") }.message(),
        "/plain is not a regular executable file"
    );
    assert_eq!(
        ExecutableResolutionError::NotFound { executable: "x".to_owned() }.message(),
        "executable `x` was not found on the configured PATH"
    );
}

#[test]
fn nested_paths_form_standard_desktop_ids() {
    assert_eq!(
        desktop_file_id(
            &path("/data/applications"),
            &path("/data/applications/vendor/example.desktop")
        )
        .as_deref(),
        Some("vendor-example.desktop")
    );
}

#[test]
fn files_outside_the_root_have_no_desktop_id() {
    assert_eq!(
        desktop_file_id(&path("/data/applications"), &path("/data/other/a.desktop")),
        None
    );
    assert_eq!(
        desktop_file_id(&path("/data/applications"), &path("/data/applications")),
        None
    );
    let foreign = UnixPath { bytes: b"/data/applications/\xff.desktop".to_vec() };
    assert_eq!(desktop_file_id(&path("/data/applications"), &foreign), None);
}

#[test]
fn desktop_filters_match_any_active_desktop() {
    let only = entry("[Desktop Entry]\nName=Example\nExec=example\nOnlyShowIn=GNOME;KDE;\n");
    let not = entry("[Desktop Entry]\nName=Example\nExec=example\nNotShowIn=GNOME;\n");
    let mut options = DiscoveryOptions::from_environment(empty_environment());
    options.current_desktops = vec!["sway".to_owned(), "gnome".to_owned()];

    assert!(desktop_is_visible(&only, &options));
    assert!(!desktop_is_visible(&not, &options));
    options.current_desktops.clear();
    assert!(!desktop_is_visible(&only, &options));
    assert!(desktop_is_visible(&not, &options));
}

#[test]
fn scanner_options_are_replaced_one_by_one() {
    let scanner = DesktopApplicationScanner::from_options(DiscoveryOptions {
        data_home: None,
        data_dirs: Vec::new(),
        executable_path: Vec::new(),
        locale: None,
        current_desktops: Vec::new(),
        include_no_display: false,
        ignore_desktop_filter: false,
        require_existing_roots: false,
    })
    .with_data_home(path("/home/user/.local/share"))
    .with_data_dirs(vec![path("/usr/share")])
    .with_executable_path(vec![path("/usr/bin")]);
    assert_eq!(
        scanner.options().data_home,
        Some(path("/home/user/.local/share"))
    );
    assert_eq!(scanner.options().data_dirs, vec![path("/usr/share")]);
    assert_eq!(scanner.options().executable_path, vec![path("/usr/bin")]);
    let scanner = scanner.without_data_home();
    assert_eq!(scanner.options().data_home, None);
    assert_eq!(scanner.options().data_dirs, vec![path("/usr/share")]);
}

#[test]
fn environment_supplies_the_documented_defaults() {
    assert_eq!(
        environment_data_home(&Some(path("/xdg")), &Some(path("/home/user"))),
        Some(path("/xdg"))
    );
    assert_eq!(
        environment_data_home(&None, &Some(path("/home/user"))),
        Some(path("/home/user/.local/share"))
    );
    assert_eq!(environment_data_home(&None, &None), None);
    assert_eq!(
        environment_data_dirs(&Vec::new()),
        vec![path("/usr/local/share"), path("/usr/share")]
    );
    assert_eq!(
        environment_locale(&None, &some("de_DE"), &some("C")),
        some("de_DE")
    );
    assert_eq!(split_desktops("ubuntu:GNOME"), ["ubuntu", "GNOME"]);
}
