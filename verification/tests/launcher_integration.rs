use ecore_launcher::float::Single;
use ecore_launcher::launcher::acknowledgement::{
    acknowledgement_lines, interpret_acknowledgement, unrepresentable_timeout,
    AcknowledgementFailure, AcknowledgementLine, AcknowledgementMessage, AcknowledgementReader,
    ReadEvent, ReadVerdict,
};
use ecore_launcher::launcher::execution::{
    helper_arguments, spawn_result, Execution, SpawnOutcome,
};
use ecore_launcher::launcher::helper::{
    check_affinity, check_channel, ExecHelper, HelperEvent, HelperPhase,
};
use ecore_launcher::launcher::plan::{select_ids, selects_any};
use ecore_launcher::launcher::policy::{
    build_cpu_set, cpu_set_values, cpu_sets_equal, map_io_priority, prepare_exec_target,
    validate_cpu_set, validate_exec_inputs,
};
use ecore_launcher::{
    build_launch_plan, launch_schedule, AppRegistry, CoreClass, CpuTopology,
    DiscoveredApplication, DiscoveryReport, ExecutionOptions, InitiatedApplication,
    IoPriorityClass, LaunchFailure, LaunchFailureStage, LaunchPlan, LauncherError, PhysicalCore,
    PlannedApplication, RegisteredApplication, TopologyClass, UnixPath,
};

fn path(text: &str) -> UnixPath {
    UnixPath::from_text(text)
}

fn one_core(cpus: Vec<u32>, core_class: CoreClass) -> PhysicalCore {
    PhysicalCore {
        package_id: Some(0),
        core_id: Some(cpus[0]),
        logical_cpus: cpus,
        core_class,
        confidence: Single { bits: 0.98_f32.to_bits() },
        evidence: Vec::new(),
    }
}

fn topology(name: &str) -> CpuTopology {
    let (classification, performance_cpus, efficiency_cpus) = match name {
        "intel-hybrid" => (TopologyClass::Hybrid, vec![0, 2, 4, 6], vec![1, 3, 5, 7]),
        "intel-uniform" => (TopologyClass::Uniform, Vec::new(), Vec::new()),
        _ => (TopologyClass::Unknown, Vec::new(), Vec::new()),
    };
    CpuTopology {
        online_cpus: (0..8).collect(),
        physical_cores: vec![one_core((0..8).collect(), CoreClass::Unknown)],
        performance_cpus,
        efficiency_cpus,
        classification,
        confidence: Single { bits: 0.98_f32.to_bits() },
        evidence: Vec::new(),
    }
}

fn registry(entries: &[(&str, bool)]) -> AppRegistry {
    let mut registry = AppRegistry::default();
    registry.apps = entries
        .iter()
        .map(|(desktop_id, enabled)| {
            let mut application = RegisteredApplication::default();
            application.desktop_id = (*desktop_id).to_owned();
            application.name = format!("stored {desktop_id}");
            application.enabled = *enabled;
            application
        })
        .collect();
    registry
}

fn application(desktop_id: &str) -> DiscoveredApplication {
    DiscoveredApplication {
        desktop_id: desktop_id.to_owned(),
        name: format!("current {desktop_id}"),
        generic_name: None,
        executable: path("/bin/fixture-target"),
        arguments: vec!["--static".to_owned()],
        icon: None,
        desktop_file: path("/fixture").join(desktop_id),
        terminal: false,
        categories: Vec::new(),
        startup_wm_class: None,
        source_priority: 0,
        no_display: false,
    }
}

fn report(applications: Vec<DiscoveredApplication>) -> DiscoveryReport {
    DiscoveryReport {
        applications,
        warnings: Vec::new(),
    }
}

fn planned(desktop_id: &str, delay_seconds: u64) -> PlannedApplication {
    PlannedApplication {
        desktop_id: desktop_id.to_owned(),
        name: desktop_id.to_owned(),
        executable: path("/bin/true"),
        arguments: Vec::new(),
        delay_seconds,
        nice: 5,
        io_class: IoPriorityClass::Unset,
        io_priority: None,
        enforce_process_tree: false,
    }
}

fn initiated(desktop_id: &str, pid: u32) -> InitiatedApplication {
    InitiatedApplication {
        desktop_id: desktop_id.to_owned(),
        pid,
        process_start_time_ticks: Some(100),
        exec_succeeded: true,
    }
}

fn message(message: AcknowledgementMessage) -> AcknowledgementLine {
    AcknowledgementLine::Message(message)
}

fn helper(io_class: IoPriorityClass, io_priority: Option<u8>) -> ExecHelper {
    ExecHelper::begin(
        &vec![1, 3],
        7,
        io_class,
        io_priority,
        path("/bin/true"),
        &vec![path("--flag")],
    )
}

fn with_affinity(helper: ExecHelper) -> ExecHelper {
    let cpus = build_cpu_set(&vec![1, 3])
        .unwrap_or_else(|error| panic!("affinity: {}", error.message()));
    helper
        .step(HelperEvent::Succeeded)
        .step(HelperEvent::Affinity(cpus))
}

#[test]
fn affinity_set_rejects_empty_and_out_of_range_cpu_ids() {
    assert!(build_cpu_set(&vec![]).is_err());
    assert!(build_cpu_set(&vec![u32::MAX]).is_err());
}

#[test]
fn affinity_sets_hold_exactly_the_given_cpus() {
    let set = build_cpu_set(&vec![9, 1, 1_023, 1])
        .unwrap_or_else(|error| panic!("affinity: {}", error.message()));
    assert_eq!(cpu_set_values(&set), [1, 9, 1_023]);
    for cpu in [1, 9, 1_023] {
        assert_eq!(set.is_set(cpu), Ok(true));
    }
    assert_eq!(set.is_set(2), Ok(false));
    let other = build_cpu_set(&vec![1, 9])
        .unwrap_or_else(|error| panic!("affinity: {}", error.message()));
    assert!(!cpu_sets_equal(&set, &other));
    assert!(cpu_sets_equal(&set, &set));
    assert_eq!(
        check_affinity(&set, &other),
        Err(LauncherError::AffinityMismatch {
            requested: vec![1, 9, 1_023],
            actual: vec![1, 9]
        })
    );
    assert_eq!(
        validate_cpu_set(&vec![3, 1_024]),
        Err(LauncherError::InvalidAffinityCpu {
            cpu: 1_024,
            source: "EINVAL: Invalid argument".to_owned()
        })
    );
    assert_eq!(
        validate_cpu_set(&vec![]),
        Err(LauncherError::EmptyEfficiencyCpus)
    );
}

#[test]
fn schedule_uses_non_cumulative_deadlines_and_deterministic_ties() {
    let plan = LaunchPlan {
        applications: vec![
            planned("c.desktop", 5),
            planned("b.desktop", 2),
            planned("a.desktop", 0),
            planned("aa.desktop", 2),
        ],
        efficiency_cpus: vec![1],
    };
    let schedule = launch_schedule(&plan);
    assert_eq!(
        schedule
            .iter()
            .map(|entry| (entry.desktop_id.as_str(), entry.delay_seconds))
            .collect::<Vec<_>>(),
        [
            ("a.desktop", 0),
            ("aa.desktop", 2),
            ("b.desktop", 2),
            ("c.desktop", 5)
        ]
    );
}

#[test]
fn io_classes_map_exactly_and_none_does_not_change_current_policy() {
    let mask = |class, priority| {
        map_io_priority(class, priority)
            .unwrap_or_else(|error| panic!("map: {}", error.message()))
    };
    assert!(mask(IoPriorityClass::Unset, None).is_none());
    assert_eq!(
        mask(IoPriorityClass::BestEffort, Some(3)),
        Some(
            ioprio::Priority::new(ioprio::Class::BestEffort(
                ioprio::BePriorityLevel::from_level(3)
                    .unwrap_or_else(|| panic!("valid best-effort level"))
            ))
            .inner()
        )
    );
    assert_eq!(
        mask(IoPriorityClass::Realtime, Some(6)),
        Some(
            ioprio::Priority::new(ioprio::Class::Realtime(
                ioprio::RtPriorityLevel::from_level(6)
                    .unwrap_or_else(|| panic!("valid realtime level"))
            ))
            .inner()
        )
    );
    assert_eq!(
        mask(IoPriorityClass::Idle, None),
        Some(ioprio::Priority::new(ioprio::Class::Idle).inner())
    );
    assert_eq!(mask(IoPriorityClass::BestEffort, Some(3)), Some(0x4003));
    assert_eq!(mask(IoPriorityClass::Realtime, Some(6)), Some(0x2006));
    assert_eq!(mask(IoPriorityClass::Idle, None), Some(0x6000));
    let unset = with_affinity(helper(IoPriorityClass::Unset, None))
        .step(HelperEvent::Succeeded)
        .step(HelperEvent::Nice(7));
    assert!(matches!(unset.phase, HelperPhase::SendReady));
}

#[test]
fn unfitting_io_policies_are_rejected() {
    for (class, priority) in [
        (IoPriorityClass::BestEffort, Some(8)),
        (IoPriorityClass::Realtime, Some(8)),
        (IoPriorityClass::Realtime, None),
        (IoPriorityClass::Idle, Some(0)),
        (IoPriorityClass::Unset, Some(0)),
    ] {
        assert_eq!(
            map_io_priority(class, priority),
            Err(LauncherError::InvalidIoPolicy { class, priority })
        );
    }
}

#[test]
fn acknowledgement_wait_is_bounded_when_writer_never_responds() {
    let mut reader = AcknowledgementReader::new(20);
    assert_eq!(
        reader.step(ReadEvent::WouldBlock { expired: false }),
        ReadVerdict::Wait
    );
    let ReadVerdict::Rejected(error) = reader.step(ReadEvent::WouldBlock { expired: true }) else {
        panic!("silent helper must time out");
    };
    assert!(error.reason.contains("did not acknowledge exec"));
    assert_eq!(error.reason, "helper did not acknowledge exec within 20 ms");
    assert_eq!(error.stage, LaunchFailureStage::Acknowledgement);
}

#[test]
fn acknowledgement_reads_are_bounded_in_size() {
    let mut reader = AcknowledgementReader::new(20);
    assert_eq!(
        reader.step(ReadEvent::Data(vec![b'x'; 16_384])),
        ReadVerdict::Read
    );
    assert_eq!(reader.step(ReadEvent::Interrupted), ReadVerdict::Read);
    assert!(matches!(
        reader.step(ReadEvent::Data(vec![b'x'])),
        ReadVerdict::Rejected(_)
    ));
    assert_eq!(reader.step(ReadEvent::End), ReadVerdict::Complete);
    assert!(matches!(
        reader.step(ReadEvent::Failed("closed".to_owned())),
        ReadVerdict::Rejected(_)
    ));
    assert!(unrepresentable_timeout().reason.contains("represented safely"));
}

#[test]
fn only_one_ready_message_is_success() {
    assert_eq!(
        acknowledgement_lines(&b"one\n\ntwo\r\n".to_vec()),
        Ok(vec!["one".to_owned(), "two".to_owned()])
    );
    let foreign = acknowledgement_lines(&vec![0xff]).expect_err("bytes that are not text");
    assert_eq!(
        foreign.reason,
        "helper acknowledgement was not UTF-8: invalid utf-8 sequence of 1 bytes from index 0"
    );
    assert_eq!(
        interpret_acknowledgement(&vec![message(AcknowledgementMessage::Ready)]),
        Ok(())
    );
    assert_eq!(
        interpret_acknowledgement(&Vec::new())
            .expect_err("silence")
            .reason,
        "helper closed acknowledgement channel before setup completed"
    );
    assert_eq!(
        interpret_acknowledgement(&vec![
            message(AcknowledgementMessage::Ready),
            message(AcknowledgementMessage::Ready),
        ])
        .expect_err("two ready messages")
        .reason,
        "helper sent more than one ready message"
    );
    assert_eq!(
        interpret_acknowledgement(&vec![
            message(AcknowledgementMessage::Ready),
            message(AcknowledgementMessage::Failure {
                stage: LaunchFailureStage::Exec,
                reason: "no such file".to_owned()
            }),
        ]),
        Err(AcknowledgementFailure {
            stage: LaunchFailureStage::Exec,
            reason: "no such file".to_owned()
        })
    );
    assert_eq!(
        interpret_acknowledgement(&vec![AcknowledgementLine::Invalid("line 1".to_owned())])
            .expect_err("an unreadable line")
            .reason,
        "invalid helper acknowledgement: line 1"
    );
}

#[test]
fn default_selection_includes_only_enabled_apps_in_desktop_id_order() {
    let plan = build_launch_plan(
        &registry(&[
            ("z.desktop", true),
            ("disabled.desktop", false),
            ("a.desktop", true),
        ]),
        &report(vec![application("z.desktop"), application("a.desktop")]),
        Some(&topology("intel-hybrid")),
        &vec![],
    )
    .unwrap_or_else(|error| panic!("build default plan: {}", error.message()));
    assert_eq!(
        plan.applications
            .iter()
            .map(|application| application.desktop_id.as_str())
            .collect::<Vec<_>>(),
        ["a.desktop", "z.desktop"]
    );
}

#[test]
fn explicit_selection_is_registered_enabled_deduplicated_and_ordered() {
    let plan = build_launch_plan(
        &registry(&[("z.desktop", true), ("a.desktop", true)]),
        &report(vec![application("z.desktop"), application("a.desktop")]),
        Some(&topology("intel-hybrid")),
        &vec![
            "z.desktop".to_owned(),
            "a.desktop".to_owned(),
            "z.desktop".to_owned(),
        ],
    )
    .unwrap_or_else(|error| panic!("build explicit plan: {}", error.message()));
    assert_eq!(
        plan.applications
            .iter()
            .map(|application| application.desktop_id.as_str())
            .collect::<Vec<_>>(),
        ["a.desktop", "z.desktop"]
    );
}

#[test]
fn planner_rejects_unknown_disabled_unavailable_and_terminal_apps() {
    let hybrid = topology("intel-hybrid");
    assert!(matches!(
        build_launch_plan(
            &registry(&[]),
            &report(Vec::new()),
            Some(&hybrid),
            &vec!["missing.desktop".to_owned()]
        ),
        Err(LauncherError::UnknownRegisteredApplication { .. })
    ));
    assert!(matches!(
        build_launch_plan(
            &registry(&[("off.desktop", false)]),
            &report(vec![application("off.desktop")]),
            Some(&hybrid),
            &vec!["off.desktop".to_owned()]
        ),
        Err(LauncherError::DisabledApplication { .. })
    ));
    assert!(matches!(
        build_launch_plan(
            &registry(&[("gone.desktop", true)]),
            &report(Vec::new()),
            Some(&hybrid),
            &vec![]
        ),
        Err(LauncherError::UnavailableApplication { .. })
    ));
    let mut terminal = application("terminal.desktop");
    terminal.terminal = true;
    assert!(matches!(
        build_launch_plan(
            &registry(&[("terminal.desktop", true)]),
            &report(vec![terminal]),
            Some(&hybrid),
            &vec![]
        ),
        Err(LauncherError::TerminalApplication { .. })
    ));
}

#[test]
fn empty_registry_is_a_successful_no_op_without_topology() {
    let plan = build_launch_plan(&registry(&[]), &report(Vec::new()), None, &vec![])
        .unwrap_or_else(|error| panic!("empty plan: {}", error.message()));
    assert!(plan.applications.is_empty());
    assert!(plan.efficiency_cpus.is_empty());
}

#[test]
fn planner_fails_closed_for_uniform_and_unknown_topology() {
    for fixture in ["intel-uniform", "ambiguous"] {
        let error = build_launch_plan(
            &registry(&[("app.desktop", true)]),
            &report(vec![application("app.desktop")]),
            Some(&topology(fixture)),
            &vec![],
        )
        .expect_err("non-hybrid topology must be rejected");
        assert!(matches!(error, LauncherError::TopologyNotHybrid { .. }));
    }
}

#[test]
fn hybrid_plan_uses_exact_efficiency_cpus_and_current_exec_data() {
    let plan_of = || {
        let mut current = application("meta.desktop");
        current.executable = path("/current/target");
        current.arguments = vec![
            ";".to_owned(),
            "|".to_owned(),
            "&&".to_owned(),
            "$HOME".to_owned(),
            "$(touch)".to_owned(),
        ];
        build_launch_plan(
            &registry(&[("meta.desktop", true)]),
            &report(vec![current]),
            Some(&topology("intel-hybrid")),
            &vec![],
        )
        .unwrap_or_else(|error| panic!("hybrid plan: {}", error.message()))
    };
    let plan = plan_of();
    assert_eq!(plan.efficiency_cpus, [1, 3, 5, 7]);
    assert_eq!(plan.applications[0].executable, path("/current/target"));
    assert_eq!(
        plan.applications[0].arguments,
        [";", "|", "&&", "$HOME", "$(touch)"]
    );
    assert_eq!(plan, plan_of());
}

#[test]
fn launch_plan_combines_fresh_exec_authority_with_registry_policy() {
    let mut registry = registry(&[("policy.desktop", true)]);
    let stored = registry
        .apps
        .first_mut()
        .unwrap_or_else(|| panic!("registered policy app"));
    stored.name = "stale registry name".to_owned();
    stored.desktop_file = Some(path("/stale/not-authority.desktop"));
    stored.delay_seconds = 9;
    stored.nice = 11;
    stored.io_class = IoPriorityClass::Realtime;
    stored.io_priority = Some(6);
    stored.enforce_process_tree = true;

    let mut current = application("policy.desktop");
    current.name = "Fresh Name".to_owned();
    current.executable = path("/fresh/executable");
    current.arguments = vec![";".to_owned(), "$HOME".to_owned()];
    let plan = build_launch_plan(
        &registry,
        &report(vec![current]),
        Some(&topology("intel-hybrid")),
        &vec![],
    )
    .unwrap_or_else(|error| panic!("build policy plan: {}", error.message()));
    let planned = &plan.applications[0];
    assert_eq!(planned.name, "Fresh Name");
    assert_eq!(planned.executable, path("/fresh/executable"));
    assert_eq!(planned.arguments, [";", "$HOME"]);
    assert_eq!(planned.delay_seconds, 9);
    assert_eq!(planned.nice, 11);
    assert_eq!(planned.io_class, IoPriorityClass::Realtime);
    assert_eq!(planned.io_priority, Some(6));
    assert!(planned.enforce_process_tree);
}

#[test]
fn planning_rejects_invalid_policy_and_missing_topology() {
    let mut invalid = registry(&[("app.desktop", true)]);
    invalid.apps[0].nice = 20;
    assert!(matches!(
        build_launch_plan(
            &invalid,
            &report(vec![application("app.desktop")]),
            Some(&topology("intel-hybrid")),
            &vec![]
        ),
        Err(LauncherError::InvalidRegistryPolicy { .. })
    ));
    assert!(build_launch_plan(
        &registry(&[("app.desktop", true)]),
        &report(vec![application("app.desktop")]),
        None,
        &vec![]
    )
    .is_err());
    let mut empty = topology("intel-hybrid");
    empty.efficiency_cpus.clear();
    assert_eq!(
        build_launch_plan(
            &registry(&[("app.desktop", true)]),
            &report(vec![application("app.desktop")]),
            Some(&empty),
            &vec![]
        ),
        Err(LauncherError::EmptyEfficiencyCpus)
    );
    assert_eq!(
        select_ids(&registry(&[("b.desktop", true), ("a.desktop", true)]), &vec![]),
        Ok(vec!["a.desktop".to_owned(), "b.desktop".to_owned()])
    );
}

#[test]
fn helper_spawn_failure_is_not_reported_as_exec_success() {
    let plan = LaunchPlan {
        applications: vec![planned("missing-helper.desktop", 0)],
        efficiency_cpus: vec![0],
    };
    let options = ExecutionOptions::new(path("/definitely/missing/ecore-launcher-helper"));
    assert_eq!(options.acknowledgement_timeout_ms, 5_000);
    let execution = Execution::begin(&plan, &vec![true])
        .unwrap_or_else(|error| panic!("begin: {}", error.message()));
    assert_eq!(execution.upcoming(&plan), Some((0, 0)));
    let outcome = spawn_result(
        "missing-helper.desktop",
        SpawnOutcome::SpawnFailed("No such file or directory (os error 2)".to_owned()),
    );
    let error = execution
        .step(outcome)
        .finish()
        .expect_err("missing helper executable must fail");
    let report = error
        .launch_report()
        .unwrap_or_else(|| panic!("runtime failure report"));
    assert!(report.initiated.is_empty());
    assert_eq!(
        report
            .failure
            .as_ref()
            .unwrap_or_else(|| panic!("spawn failure"))
            .stage,
        LaunchFailureStage::HelperSpawn
    );
}

#[test]
fn a_failure_ends_the_execution_and_keeps_earlier_successes() {
    let plan = LaunchPlan {
        applications: vec![planned("a.desktop", 0), planned("z.desktop", 2), planned("zz.desktop", 3)],
        efficiency_cpus: vec![0],
    };
    let execution = Execution::begin(&plan, &vec![true, true, true])
        .unwrap_or_else(|error| panic!("begin: {}", error.message()))
        .step(Ok(initiated("a.desktop", 10)));
    assert_eq!(execution.upcoming(&plan), Some((1, 2)));
    let execution = execution.step(spawn_result(
        "z.desktop",
        SpawnOutcome::Rejected {
            pid: 11,
            failure: AcknowledgementFailure {
                stage: LaunchFailureStage::Exec,
                reason: "gone".to_owned(),
            },
        },
    ));
    assert_eq!(execution.upcoming(&plan), None);
    let error = execution.finish().expect_err("the second launch failed");
    assert_eq!(error.initiated(), [initiated("a.desktop", 10)]);
    let failure = error
        .launch_report()
        .and_then(|report| report.failure.as_ref())
        .unwrap_or_else(|| panic!("failure"));
    assert_eq!(
        *failure,
        LaunchFailure {
            desktop_id: "z.desktop".to_owned(),
            pid: Some(11),
            stage: LaunchFailureStage::Exec,
            reason: "gone".to_owned()
        }
    );
    assert!(matches!(
        Execution::begin(&plan, &vec![true, false, true]),
        Err(LauncherError::InvalidLaunchDelay { desktop_id }) if desktop_id == "z.desktop"
    ));
}

#[test]
fn recorded_starts_are_reported_in_the_order_of_the_schedule() {
    let plan = LaunchPlan {
        applications: vec![planned("a.desktop", 3), planned("b.desktop", 0), planned("c.desktop", 2)],
        efficiency_cpus: vec![0],
    };
    let scheduled: Vec<String> = launch_schedule(&plan)
        .into_iter()
        .map(|one| one.desktop_id)
        .collect();
    assert_eq!(scheduled, ["b.desktop", "c.desktop", "a.desktop"]);
    let started = |pid| SpawnOutcome::Acknowledged {
        pid,
        start_time: Some(100),
    };
    let begin = || {
        Execution::begin(&plan, &vec![true, true, true])
            .unwrap_or_else(|error| panic!("begin: {}", error.message()))
    };
    let whole = begin().record(started(1)).record(started(2)).record(started(3));
    let report = whole
        .record(started(4))
        .finish()
        .unwrap_or_else(|error| panic!("finish: {}", error.message()));
    let ids: Vec<&str> = report
        .initiated
        .iter()
        .map(|one| one.desktop_id.as_str())
        .collect();
    assert_eq!(ids, scheduled);
    assert!(report.initiated.iter().all(|one| one.exec_succeeded));

    let error = begin()
        .record(started(1))
        .record(SpawnOutcome::PipeFailed("no pipe".to_owned()))
        .record(started(3))
        .finish()
        .expect_err("the second start failed");
    assert_eq!(error.initiated(), [initiated("b.desktop", 1)]);
    let failure = error
        .launch_report()
        .and_then(|report| report.failure.as_ref())
        .unwrap_or_else(|| panic!("failure"));
    assert_eq!(failure.desktop_id, "c.desktop");
}

#[test]
fn a_finished_execution_reports_every_application() {
    let plan = LaunchPlan {
        applications: vec![planned("a.desktop", 0)],
        efficiency_cpus: vec![0],
    };
    let outcome = spawn_result(
        "a.desktop",
        SpawnOutcome::Acknowledged {
            pid: 10,
            start_time: Some(100),
        },
    );
    let report = Execution::begin(&plan, &vec![true])
        .unwrap_or_else(|error| panic!("begin: {}", error.message()))
        .step(outcome)
        .finish()
        .unwrap_or_else(|error| panic!("finish: {}", error.message()));
    assert_eq!(report.initiated, [initiated("a.desktop", 10)]);
    assert!(report.failure.is_none());
}

#[test]
fn helper_arguments_carry_the_policy() {
    let mut one = planned("a.desktop", 0);
    one.nice = -3;
    one.io_class = IoPriorityClass::BestEffort;
    one.io_priority = Some(4);
    assert_eq!(
        helper_arguments(&one, &vec![1, 3], 9),
        [
            "__exec",
            "--ack-fd",
            "9",
            "--nice",
            "-3",
            "--io-class",
            "best-effort",
            "--io-priority",
            "4",
            "--cpu",
            "1",
            "--cpu",
            "3",
            "--"
        ]
    );
}

#[test]
fn helper_applies_affinity_nice_and_io_before_ready_and_exec() {
    let helper = with_affinity(helper(IoPriorityClass::Idle, None));
    assert!(matches!(helper.phase, HelperPhase::SetNice));
    let helper = helper
        .step(HelperEvent::Succeeded)
        .step(HelperEvent::Nice(7));
    assert!(matches!(
        helper.phase,
        HelperPhase::SetIoPriority { mask: 0x6000 }
    ));
    let helper = helper
        .step(HelperEvent::Succeeded)
        .step(HelperEvent::IoPriority(0x6000));
    assert!(matches!(helper.phase, HelperPhase::SendReady));
    let helper = helper.step(HelperEvent::Succeeded);
    assert!(matches!(helper.phase, HelperPhase::Exec));
    let helper = helper.step(HelperEvent::Failed("no such file".to_owned()));
    let HelperPhase::SendFailure { error } = &helper.phase else {
        panic!("a failed exec must be reported");
    };
    assert_eq!(error.helper_stage(), LaunchFailureStage::Exec);
    assert!(matches!(
        helper.step(HelperEvent::Succeeded).phase,
        HelperPhase::Stopped { .. }
    ));
}

#[test]
fn helper_leaves_an_unset_io_priority_alone() {
    let helper = with_affinity(helper(IoPriorityClass::Unset, None))
        .step(HelperEvent::Succeeded)
        .step(HelperEvent::Nice(7));
    assert!(matches!(helper.phase, HelperPhase::SendReady));
}

#[test]
fn planning_looks_at_the_system_only_where_something_is_selected() {
    let mut disabled = RegisteredApplication {
        desktop_id: "a.desktop".to_owned(),
        name: "Alpha".to_owned(),
        ..RegisteredApplication::default()
    };
    disabled.enabled = false;
    let mut registry = AppRegistry::default();
    assert!(!selects_any(&registry, &Vec::new()));
    registry.apps.push(disabled);
    assert!(!selects_any(&registry, &Vec::new()));
    assert!(selects_any(&registry, &vec!["a.desktop".to_owned()]));
    registry.apps[0].enabled = true;
    assert!(selects_any(&registry, &Vec::new()));
}

#[test]
fn helper_setup_failures_never_reach_the_target() {
    let wrong = build_cpu_set(&vec![2])
        .unwrap_or_else(|error| panic!("affinity: {}", error.message()));
    let mismatch = helper(IoPriorityClass::Idle, None)
        .step(HelperEvent::Succeeded)
        .step(HelperEvent::Affinity(wrong));
    assert!(matches!(
        mismatch.phase,
        HelperPhase::SendFailure {
            error: LauncherError::AffinityMismatch { .. }
        }
    ));
    let nice = with_affinity(helper(IoPriorityClass::Idle, None))
        .step(HelperEvent::Succeeded)
        .step(HelperEvent::Nice(0));
    assert!(matches!(
        nice.phase,
        HelperPhase::SendFailure {
            error: LauncherError::NiceMismatch {
                requested: 7,
                actual: 0
            }
        }
    ));
    let io = with_affinity(helper(IoPriorityClass::Idle, None))
        .step(HelperEvent::Succeeded)
        .step(HelperEvent::Nice(7))
        .step(HelperEvent::Succeeded)
        .step(HelperEvent::IoPriority(1));
    assert!(matches!(
        io.phase,
        HelperPhase::SendFailure {
            error: LauncherError::IoPriorityMismatch { .. }
        }
    ));
    let denied = helper(IoPriorityClass::Idle, None).step(HelperEvent::Failed("denied".to_owned()));
    let HelperPhase::SendFailure { error } = denied.phase else {
        panic!("a refused affinity must be reported");
    };
    assert_eq!(error.helper_stage(), LaunchFailureStage::Affinity);
    assert_eq!(LaunchFailureStage::IoPriority.name(), "io_priority");
    assert!(check_channel(2).is_err());
    assert_eq!(check_channel(3), Ok(()));
}

#[test]
fn targets_with_nul_bytes_are_rejected() {
    assert!(matches!(
        validate_exec_inputs(&path("/bin/true"), &vec!["fine".to_owned(), "a\0b".to_owned()]),
        Err(LauncherError::InvalidExecArgument { position: 1, .. })
    ));
    assert!(prepare_exec_target(&path("/bin/tr\0ue"), &vec![]).is_err());
    assert_eq!(prepare_exec_target(&path("/bin/true"), &vec![path("x")]), Ok(()));
}

#[test]
fn topology_fixture_still_has_expected_hybrid_class() {
    assert_eq!(
        topology("intel-hybrid").classification,
        TopologyClass::Hybrid
    );
}
