use ecore_launcher::cli::screen::{
    candidate_row, check_column, check_mark, complain_of_size, diagnosis_summary, name_column,
    show_check, show_details, show_draft, show_header, show_startup,
};
use ecore_launcher::cli::tui::{
    autostart_label, availability_word, ConfigureDraft, Key, PendingAction, Screen, TuiCommand,
    TuiMessage, TuiOutcome, TuiState,
};
use ecore_launcher::doctor::report::DoctorDetail;
use ecore_launcher::{
    ApplicationSettingsUpdate, AutostartAssessment, AutostartState, DiscoveredApplication,
    DoctorCheck, DoctorStatus, IoPriorityClass, RegisteredApplication,
    RegisteredApplicationAvailability, StartupStatus, UnixPath,
};

fn registered(desktop_id: &str, enabled: bool) -> RegisteredApplication {
    RegisteredApplication {
        desktop_id: desktop_id.to_owned(),
        name: desktop_id.to_owned(),
        enabled,
        ..RegisteredApplication::default()
    }
}

fn discovered(desktop_id: &str) -> DiscoveredApplication {
    DiscoveredApplication {
        desktop_id: desktop_id.to_owned(),
        name: desktop_id.to_owned(),
        generic_name: None,
        executable: UnixPath::from_text("/bin/true"),
        arguments: Vec::new(),
        icon: None,
        desktop_file: UnixPath::from_text("/data").join(desktop_id),
        terminal: false,
        categories: Vec::new(),
        startup_wm_class: None,
        source_priority: 0,
        no_display: false,
    }
}

fn state() -> TuiState {
    let mut state = TuiState::new();
    state.set_applications(vec![registered("a.desktop", true), registered("b.desktop", false)]);
    state
}

fn press(state: &mut TuiState, keys: &str) -> TuiCommand {
    let mut last = TuiCommand::Nothing;
    for key in keys.chars() {
        last = state.handle_key(Key::Char(key), false);
    }
    last
}

fn text(message: &Option<TuiMessage>) -> &str {
    message.as_ref().map_or("", |message| message.text.as_str())
}

#[test]
fn the_selection_stays_on_an_application() {
    let mut state = state();
    press(&mut state, "jjj");
    assert_eq!(state.selected, 1);
    press(&mut state, "kkkk");
    assert_eq!(state.selected, 0);
    press(&mut state, "G");
    assert_eq!(state.selected, 1);
    state.set_applications(vec![registered("a.desktop", true)]);
    assert_eq!(state.selected, 0);
    assert_eq!(
        press(&mut state, " "),
        TuiCommand::SetEnabled {
            desktop_id: "a.desktop".to_owned(),
            enabled: false
        }
    );
}

#[test]
fn removal_waits_for_a_confirmation() {
    let mut state = state();
    assert_eq!(press(&mut state, "x"), TuiCommand::Nothing);
    assert_eq!(state.screen, Screen::Confirm);
    assert_eq!(
        state.pending,
        Some(PendingAction::Remove("a.desktop".to_owned()))
    );
    assert!(state.confirmation_prompt().contains("a.desktop"));
    assert_eq!(press(&mut state, "n"), TuiCommand::Nothing);
    assert_eq!(state.screen, Screen::Dashboard);
    press(&mut state, "x");
    assert_eq!(
        press(&mut state, "y"),
        TuiCommand::Remove {
            desktop_id: "a.desktop".to_owned()
        }
    );
    assert_eq!(state.pending, None);
}

#[test]
fn disabled_applications_are_not_started() {
    let mut state = state();
    assert_eq!(
        press(&mut state, "s"),
        TuiCommand::Spawn {
            desktop_id: "a.desktop".to_owned(),
            supervise: true
        }
    );
    assert_eq!(press(&mut state, "jr"), TuiCommand::Nothing);
    assert_eq!(text(&state.message), "selected application is disabled");
    let mut empty = TuiState::new();
    assert_eq!(press(&mut empty, "r"), TuiCommand::Nothing);
    assert_eq!(text(&empty.message), "no registered application selected");
}

#[test]
fn settings_are_edited_in_a_draft() {
    let mut state = state();
    press(&mut state, "c");
    assert_eq!(state.screen, Screen::Configure);
    state.handle_key(Key::Right, true);
    press(&mut state, "jl");
    let before = state
        .configure
        .as_ref()
        .map(|draft| (draft.delay_seconds, draft.nice));
    assert_eq!(before, Some((10, 6)));
    assert_eq!(
        state.handle_key(Key::Enter, false),
        TuiCommand::Configure {
            desktop_id: "a.desktop".to_owned(),
            update: ApplicationSettingsUpdate {
                delay_seconds: Some(10),
                nice: Some(6),
                io_class: Some(IoPriorityClass::BestEffort),
                io_priority: Some(Some(4)),
                enforce_process_tree: Some(false),
                reset_to_defaults: false,
            }
        }
    );
    state.completed(TuiOutcome::Configured {
        desktop_id: "a.desktop".to_owned(),
    });
    assert_eq!(state.screen, Screen::Dashboard);
    assert!(state.configure.is_none());
}

#[test]
fn a_reset_sends_no_single_settings() {
    let mut state = state();
    press(&mut state, "cr");
    assert_eq!(
        state.handle_key(Key::Enter, false),
        TuiCommand::Configure {
            desktop_id: "a.desktop".to_owned(),
            update: ApplicationSettingsUpdate {
                reset_to_defaults: true,
                ..ApplicationSettingsUpdate::default()
            }
        }
    );
}

#[test]
fn only_chosen_candidates_are_added() {
    let mut state = state();
    assert_eq!(press(&mut state, "a"), TuiCommand::Discover);
    state.completed(TuiOutcome::Discovered(vec![
        discovered("c.desktop"),
        discovered("d.desktop"),
    ]));
    assert_eq!(state.screen, Screen::Add);
    assert_eq!(state.handle_key(Key::Enter, false), TuiCommand::Nothing);
    assert_eq!(
        text(&state.message),
        "select at least one application with Space"
    );
    press(&mut state, " j  ");
    press(&mut state, " ");
    assert_eq!(
        state.handle_key(Key::Enter, false),
        TuiCommand::Add(vec![discovered("c.desktop"), discovered("d.desktop")])
    );
    press(&mut state, " ");
    assert_eq!(
        state.handle_key(Key::Enter, false),
        TuiCommand::Add(vec![discovered("c.desktop")])
    );
}

#[test]
fn startup_changes_wait_for_a_confirmation() {
    let mut state = state();
    assert_eq!(press(&mut state, "u"), TuiCommand::RefreshStartup);
    assert_eq!(press(&mut state, "a"), TuiCommand::Nothing);
    assert_eq!(
        state.handle_key(Key::Enter, false),
        TuiCommand::EnableStartup {
            suppress_autostart: true
        }
    );
    press(&mut state, "ud");
    assert_eq!(press(&mut state, "y"), TuiCommand::DisableStartup);
}

#[test]
fn quitting_and_help_are_one_key_away() {
    let mut state = state();
    press(&mut state, "?");
    assert_eq!(state.screen, Screen::Help);
    press(&mut state, "q");
    assert_eq!(state.screen, Screen::Dashboard);
    assert!(!state.should_quit);
    press(&mut state, "q");
    assert!(state.should_quit);
}

#[test]
fn diagnosis_is_scrolled_within_its_checks() {
    let mut state = state();
    assert_eq!(press(&mut state, "d"), TuiCommand::Diagnose);
    state.completed(TuiOutcome::Diagnosed(2));
    assert_eq!(state.screen, Screen::Doctor);
    press(&mut state, "jjj");
    assert_eq!(state.doctor_index, 1);
    state.completed(TuiOutcome::Failed("lost".to_owned()));
    assert_eq!(text(&state.message), "lost");
    assert!(state.message.as_ref().is_some_and(|message| message.is_error));
}

#[test]
fn labels_are_short() {
    assert_eq!(
        availability_word(Some(&RegisteredApplicationAvailability::Unavailable)),
        "unavailable"
    );
    let labels = [
        autostart_label(AutostartState::NotPresent),
        autostart_label(AutostartState::DuplicateRisk),
        autostart_label(AutostartState::SuppressedByLauncher),
        autostart_label(AutostartState::UserOverride),
    ];
    for (position, label) in labels.iter().enumerate() {
        assert!(!label.is_empty());
        assert!(!labels[..position].contains(label));
    }
}

#[test]
fn small_terminals_are_pointed_out() {
    assert_eq!(complain_of_size(72, 20), None);
    assert_eq!(
        complain_of_size(71, 20),
        Some(
            "ecore-launcher TUI needs at least 72x20.\nCurrent terminal: 71x20\n\nResize the terminal or press q to quit."
                .to_owned()
        )
    );
    assert!(complain_of_size(100, 19).is_some());
}

#[test]
fn rows_and_details_show_the_stored_policy() {
    let mut application = RegisteredApplication {
        name: "A rather long application name".to_owned(),
        ..registered("a.desktop", true)
    };
    application.desktop_file = Some(UnixPath::from_text("/data/a.desktop"));
    application.enforce_process_tree = true;
    assert_eq!(name_column(&application), "A rather long applicat\u{2026} ");
    assert_eq!(check_mark(true), "[x]");
    assert_eq!(check_mark(false), "[ ]");
    assert_eq!(
        show_details(
            &application,
            Some(&RegisteredApplicationAvailability::Unavailable)
        ),
        [
            "ID: a.desktop",
            "State: enabled",
            "Availability: unavailable",
            "",
            "Delay: 0s",
            "Nice: 5",
            "I/O class: best-effort",
            "I/O priority: 4",
            "Process tree: enforced by supervise",
            "",
            "Desktop: /data/a.desktop"
        ]
    );
    assert_eq!(
        candidate_row(&discovered("b.desktop"), true),
        "[x] b.desktop                    b.desktop"
    );
}

#[test]
fn drafts_mark_the_edited_field() {
    let mut draft = ConfigureDraft::from_application(&registered("a.desktop", true));
    draft.move_field(1);
    assert_eq!(
        show_draft(&draft),
        [
            "  Delay            0s",
            "> Nice             5",
            "  I/O class        best-effort",
            "  I/O priority     4",
            "  Process tree     inherit only"
        ]
    );
}

#[test]
fn diagnoses_are_shown_check_by_check() {
    assert_eq!(
        diagnosis_summary(DoctorStatus::Ready, 9),
        "Overall: Ok \u{b7} 9 checks"
    );
    let check = DoctorCheck {
        id: "registry".to_owned(),
        status: DoctorStatus::Warning,
        summary: "Odd.".to_owned(),
        details: vec![
            DoctorDetail {
                key: "a".to_owned(),
                value: "1".to_owned(),
            },
            DoctorDetail {
                key: "b".to_owned(),
                value: String::new(),
            },
        ],
    };
    assert_eq!(check_column(&check), "registry                ");
    assert_eq!(
        show_check(Some(&check)),
        "Odd.\na=1 \u{b7} b=\nEsc close \u{b7} r refresh"
    );
    assert_eq!(show_check(None), "Esc close \u{b7} r refresh");
}

#[test]
fn startup_is_shown_with_its_duplicates() {
    let status = StartupStatus {
        unit_path: UnixPath::from_text("/unit"),
        unit_present: true,
        unit_owned: true,
        unit_current: true,
        ownership_present: true,
        ownership_owned: true,
        enabled: Some(false),
        systemctl_diagnostic: None,
        manager_environment: None,
        manager_environment_diagnostic: None,
        autostart: vec![AutostartAssessment {
            desktop_id: "a.desktop".to_owned(),
            state: AutostartState::DuplicateRisk,
            system_entries: Vec::new(),
            user_override: UnixPath::from_text("/override"),
        }],
    };
    assert_eq!(
        show_startup(&status),
        [
            "Unit: /unit",
            "Present: true",
            "Launcher-owned: true",
            "Current: true",
            "Enabled: no",
            "Manager environment ready: false",
            "",
            "Autostart:",
            "  a.desktop                      duplicate risk"
        ]
    );
    assert_eq!(
        show_header(&vec![1, 2, 5], Some(&status)),
        "  E-cores 1-2,5  startup disabled"
    );
    assert!(show_header(&Vec::new(), None).ends_with("startup ?"));
}
