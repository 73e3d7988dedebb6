use std::collections::{BTreeMap, BTreeSet};

use ecore_launcher::launcher::policy::{build_cpu_set, cpu_set_values};
use ecore_launcher::path::{FileRead, Listing, ListingEntry};
use ecore_launcher::supervisor::affinity::{
    AffinityCheck, AffinityEvent, AffinityPhase, AffinityResult,
};
use ecore_launcher::supervisor::enroll::{
    check_before_procfs, enrollment_pids, needs_supervision,
};
use ecore_launcher::supervisor::poll::{
    ChildrenOutcome, ManagedTree, Poll, PollEvent, PollPhase, Supervisor,
};
use ecore_launcher::supervisor::procfs::{
    child_pids, parse_proc_stat, read_identity, start_time, task_belongs_to, task_ids,
    verified_children, IdentityOutcome, ProcessIdentity, Procfs, ProcfsRoot, ProcfsState,
};
use ecore_launcher::supervisor::session::Session;
use ecore_launcher::supervisor::types::MAX_SUPERVISOR_WARNINGS;
use ecore_launcher::{
    supervise_process_trees, InitiatedApplication, IoPriorityClass, LaunchPlan, LaunchReport,
    PlannedApplication, SupervisionReport, SupervisorError, SupervisorOptions, SupervisorWarning,
    UnixPath,
};

struct FakeProcess {
    start: u64,
    ppid: u32,
    children: Vec<u32>,
    correct: bool,
}

#[derive(Default)]
struct FakeControl {
    processes: BTreeMap<u32, FakeProcess>,
    mutations: Vec<(u32, Vec<u32>)>,
    reaped: Vec<u32>,
    affinity_failures: BTreeSet<u32>,
}

impl FakeControl {
    fn add(&mut self, pid: u32, start: u64, ppid: u32, children: Vec<u32>, correct: bool) {
        self.processes.insert(
            pid,
            FakeProcess {
                start,
                ppid,
                children,
                correct,
            },
        );
    }

    fn identity(&self, pid: u32) -> IdentityOutcome {
        match self.processes.get(&pid) {
            Some(process) => IdentityOutcome::Found {
                identity: identity(pid, process.start),
                parent: process.ppid,
            },
            None => IdentityOutcome::Missing,
        }
    }

    fn children(&self, parent: ProcessIdentity) -> ChildrenOutcome {
        let Some(process) = self.processes.get(&parent.pid) else {
            return ChildrenOutcome::Vanished;
        };
        let seen = process
            .children
            .iter()
            .map(|pid| self.identity(*pid))
            .collect();
        match verified_children(parent, &self.identity(parent.pid), &seen) {
            Ok(found) => ChildrenOutcome::Found(found),
            Err(message) => ChildrenOutcome::Failed(message),
        }
    }

    fn ensure_affinity(&mut self, process: ProcessIdentity, cpus: &[u32]) -> PollEvent {
        if self.affinity_failures.contains(&process.pid) {
            return PollEvent::EnforcementFailed(SupervisorError::InvalidPid { pid: process.pid });
        }
        let Some(current) = self.processes.get_mut(&process.pid) else {
            return PollEvent::Enforced(AffinityResult::Vanished);
        };
        if current.start != process.start_time_ticks {
            return PollEvent::Enforced(AffinityResult::Vanished);
        }
        if current.correct {
            PollEvent::Enforced(AffinityResult::AlreadyCorrect)
        } else {
            current.correct = true;
            self.mutations.push((process.pid, cpus.to_vec()));
            PollEvent::Enforced(AffinityResult::Updated(1))
        }
    }

    fn reap_child(&mut self, pid: u32) -> bool {
        self.reaped.push(pid);
        false
    }

    fn poll_once(&mut self, supervisor: Supervisor) -> Result<Supervisor, SupervisorError> {
        let mut poll = Poll::begin(supervisor);
        loop {
            let event = match &poll.phase {
                PollPhase::Finished => return Ok(poll.supervisor),
                PollPhase::Failed(_) => break,
                PollPhase::Reap { at } => {
                    PollEvent::Reaped(self.reap_child(poll.supervisor.child_pids[*at]))
                }
                PollPhase::Root => {
                    PollEvent::Identity(self.identity(poll.supervisor.trees[0].root.pid))
                }
                PollPhase::Enforce { process } => {
                    let cpus = poll.supervisor.trees[0].cpus.clone();
                    self.ensure_affinity(*process, &cpus)
                }
                PollPhase::List { process } => PollEvent::Children(self.children(*process)),
            };
            poll = poll.step(event);
        }
        match poll.phase {
            PollPhase::Failed(error) => Err(error),
            _ => unreachable!("only a failed pass leaves the loop"),
        }
    }
}

fn identity(pid: u32, start_time_ticks: u64) -> ProcessIdentity {
    ProcessIdentity {
        pid,
        start_time_ticks,
    }
}

fn found(pid: u32, start_time_ticks: u64, parent: u32) -> IdentityOutcome {
    IdentityOutcome::Found {
        identity: identity(pid, start_time_ticks),
        parent,
    }
}

fn supervisor(enforce: bool) -> Supervisor {
    let trees = if enforce {
        vec![ManagedTree {
            desktop_id: "managed.desktop".to_owned(),
            root: identity(10, 100),
            cpus: vec![2, 3],
        }]
    } else {
        Vec::new()
    };
    Supervisor {
        trees,
        child_pids: Vec::new(),
        report: SupervisionReport::default(),
        warning_keys: Vec::new(),
        warnings_truncated: false,
    }
}

fn planned(desktop_id: &str, enforce_process_tree: bool) -> PlannedApplication {
    PlannedApplication {
        desktop_id: desktop_id.to_owned(),
        name: desktop_id.to_owned(),
        executable: UnixPath::from_text("/bin/true"),
        arguments: Vec::new(),
        delay_seconds: 0,
        nice: 0,
        io_class: IoPriorityClass::Unset,
        io_priority: None,
        enforce_process_tree,
    }
}

fn options(poll_interval_nanos: u128) -> SupervisorOptions {
    SupervisorOptions {
        proc_root: UnixPath::from_text("/proc"),
        poll_interval_nanos,
    }
}

fn readable_procfs() -> ProcfsState {
    ProcfsState {
        root: ProcfsRoot::Directory,
        self_stat: None,
        self_children: None,
    }
}

#[test]
fn disabled_enforcement_performs_no_process_work() {
    let mut control = FakeControl::default();
    control.add(10, 100, 1, vec![11], false);
    control.add(11, 101, 10, Vec::new(), false);
    let supervisor = control.poll_once(supervisor(false)).unwrap();
    assert_eq!(supervisor.report.polls, 0);
    assert!(control.mutations.is_empty());
}

#[test]
fn verified_descendants_are_changed_but_unrelated_processes_are_untouched() {
    let mut control = FakeControl::default();
    control.add(10, 100, 1, vec![11], true);
    control.add(11, 101, 10, vec![12], false);
    control.add(12, 102, 11, Vec::new(), false);
    control.add(99, 103, 1, Vec::new(), false);
    let supervisor = control.poll_once(supervisor(true)).unwrap();
    assert_eq!(
        control.mutations,
        [(11, vec![2, 3]), (12, vec![2, 3])]
    );
    assert_eq!(supervisor.report.affinity_updates, 2);
}

#[test]
fn correct_affinity_is_not_rewritten_and_disappearance_is_benign() {
    let mut control = FakeControl::default();
    control.add(10, 100, 1, vec![11], true);
    control.add(11, 101, 10, Vec::new(), true);
    let supervisor = control.poll_once(supervisor(true)).unwrap();
    assert!(control.mutations.is_empty());
    control.processes.remove(&11);
    let supervisor = control.poll_once(supervisor).unwrap();
    assert!(supervisor.report.warnings.is_empty());
}

#[test]
fn root_pid_reuse_or_completion_stops_tracking() {
    let mut control = FakeControl::default();
    control.add(10, 200, 1, Vec::new(), false);
    let supervisor = control.poll_once(supervisor(true)).unwrap();
    assert!(supervisor.trees.is_empty());
    assert_eq!(supervisor.report.completed_roots, 1);
    assert!(control.mutations.is_empty());
}

#[test]
fn distinct_runtime_warnings_remain_bounded() {
    let mut supervisor = supervisor(false);
    for pid in 0..(MAX_SUPERVISOR_WARNINGS as u32 + 100) {
        supervisor.warn(SupervisorWarning {
            desktop_id: "managed.desktop".to_owned(),
            pid: Some(pid),
            reason: "synthetic warning".to_owned(),
        });
    }
    assert_eq!(
        supervisor.report.warnings.len(),
        MAX_SUPERVISOR_WARNINGS + 1
    );
    assert_eq!(supervisor.warning_keys.len(), MAX_SUPERVISOR_WARNINGS + 1);
    assert!(supervisor.warnings_truncated);
}

#[test]
fn no_enforced_application_returns_without_procfs_or_polling() {
    let plan = LaunchPlan {
        applications: vec![planned("one-shot.desktop", false)],
        efficiency_cpus: vec![1],
    };
    let missing = ProcfsState {
        root: ProcfsRoot::Failed("No such file or directory (os error 2)".to_owned()),
        self_stat: None,
        self_children: None,
    };
    assert!(!needs_supervision(&plan, &LaunchReport::default()));
    let supervisor = supervise_process_trees(
        &plan,
        &LaunchReport::default(),
        &options(10_000_000),
        &missing,
        &Vec::new(),
    )
    .unwrap_or_else(|error| panic!("empty supervision: {}", error.message()));
    assert_eq!(supervisor.report, SupervisionReport::default());
    assert!(supervisor.trees.is_empty());
}

#[test]
fn busy_loop_intervals_are_rejected_before_monitoring() {
    let error = supervise_process_trees(
        &LaunchPlan {
            applications: Vec::new(),
            efficiency_cpus: Vec::new(),
        },
        &LaunchReport::default(),
        &options(0),
        &readable_procfs(),
        &Vec::new(),
    )
    .expect_err("zero-duration polling must be rejected");
    assert!(matches!(
        error,
        SupervisorError::PollIntervalTooShort { .. }
    ));
}

#[test]
fn enrollment_rejects_missing_or_changed_launch_identity() {
    let plan = LaunchPlan {
        applications: vec![planned("identity.desktop", true)],
        efficiency_cpus: vec![0],
    };
    let options = options(10_000_000);
    let launch_report = |start_time| LaunchReport {
        initiated: vec![InitiatedApplication {
            desktop_id: "identity.desktop".to_owned(),
            pid: 42,
            process_start_time_ticks: start_time,
            exec_succeeded: true,
        }],
        failure: None,
    };
    let seen = vec![found(42, 7_000, 1)];
    assert_eq!(enrollment_pids(&plan, &launch_report(Some(0))), [42]);
    assert!(matches!(
        supervise_process_trees(&plan, &launch_report(None), &options, &readable_procfs(), &seen),
        Err(SupervisorError::MissingLaunchIdentity { .. })
    ));
    let mut unconfirmed = launch_report(Some(0));
    unconfirmed.initiated[0].exec_succeeded = false;
    assert!(matches!(
        supervise_process_trees(&plan, &unconfirmed, &options, &readable_procfs(), &seen),
        Err(SupervisorError::UnconfirmedExec { .. })
    ));
    let supervisor = supervise_process_trees(
        &plan,
        &launch_report(Some(0)),
        &options,
        &readable_procfs(),
        &seen,
    )
    .unwrap_or_else(|error| panic!("identity reuse rejection: {}", error.message()));
    assert_eq!(supervisor.report.tracked_roots, 0);
    assert_eq!(supervisor.report.polls, 0);
    assert_eq!(supervisor.report.warnings.len(), 1);

    let enrolled = supervise_process_trees(
        &plan,
        &launch_report(Some(7_000)),
        &options,
        &readable_procfs(),
        &seen,
    )
    .unwrap_or_else(|error| panic!("enroll: {}", error.message()));
    assert_eq!(enrolled.report.tracked_roots, 1);
    assert_eq!(enrolled.trees[0].root, identity(42, 7_000));
    assert_eq!(enrolled.trees[0].cpus, [0]);
    assert_eq!(enrolled.child_pids, [42]);
}

#[test]
fn polling_reaps_only_explicit_launch_children_and_propagates_enforcement_errors() {
    let mut control = FakeControl::default();
    control.add(10, 100, 1, Vec::new(), false);
    control.affinity_failures.insert(10);
    let mut supervisor = supervisor(true);
    supervisor.child_pids.extend([10, 11]);
    let error = control.poll_once(supervisor).unwrap_err();
    assert_eq!(control.reaped, [10, 11]);
    assert!(matches!(error, SupervisorError::InvalidPid { pid: 10 }));
}

#[test]
fn unreadable_roots_stay_and_warn_once() {
    let unreadable = || PollEvent::Identity(IdentityOutcome::Failed("denied".to_owned()));
    let first = Poll::begin(supervisor(true)).step(unreadable());
    assert_eq!(first.phase, PollPhase::Finished);
    let second = Poll::begin(first.supervisor).step(unreadable());
    assert_eq!(second.supervisor.trees.len(), 1);
    assert_eq!(second.supervisor.report.polls, 2);
    assert_eq!(second.supervisor.report.warnings.len(), 1);
    assert_eq!(
        second.supervisor.report.warnings[0].reason,
        "could not verify managed root: denied"
    );
}

#[test]
fn stat_lines_give_the_parent_and_the_start_time() {
    let mut fields: Vec<String> = (4..=21).map(|field| field.to_string()).collect();
    fields.push("98765".to_owned());
    let stat = format!("42 (odd ) name) S {}\n", fields.join(" "));
    assert_eq!(parse_proc_stat(42, &stat), Ok((identity(42, 98_765), 4)));
    assert!(parse_proc_stat(42, "42 no command").is_err());
    assert!(parse_proc_stat(42, "42 (short) S 1").is_err());
    let contents = FileRead::Contents(stat);
    assert_eq!(read_identity(42, &contents), found(42, 98_765, 4));
    assert_eq!(start_time(42, &contents), Some(98_765));
    assert_eq!(read_identity(42, &FileRead::Missing), IdentityOutcome::Missing);
    assert_eq!(
        read_identity(42, &FileRead::Failed("denied".to_owned())),
        IdentityOutcome::Failed("denied".to_owned())
    );
    assert_eq!(start_time(42, &FileRead::Missing), None);
}

#[test]
fn threads_and_children_are_listed_in_order() {
    let name = |text: &str| ListingEntry::Name(UnixPath::from_text(text));
    let listing = Listing::Entries(vec![name("44"), name("42"), name("self"), name("43")]);
    assert_eq!(
        task_ids(identity(42, 7), &found(42, 7, 1), &listing),
        Ok(vec![42, 43, 44])
    );
    assert_eq!(
        task_ids(identity(42, 7), &found(42, 8, 1), &listing),
        Ok(Vec::new())
    );
    assert_eq!(
        child_pids(&vec![
            FileRead::Contents("50 48 ".to_owned()),
            FileRead::Missing,
            FileRead::Contents("49 48\n".to_owned()),
        ]),
        Ok(vec![48, 49, 50])
    );
    assert_eq!(
        verified_children(
            identity(42, 7),
            &found(42, 7, 1),
            &vec![found(48, 9, 42), found(49, 9, 1), IdentityOutcome::Missing]
        ),
        Ok(vec![identity(48, 9)])
    );
}

#[test]
fn threads_belong_to_their_group() {
    let status = |text: &str| FileRead::Contents(text.to_owned());
    assert_eq!(task_belongs_to(42, &status("Name:\tx\nTgid:\t42\n")), Ok(true));
    assert_eq!(task_belongs_to(42, &status("Name:\tx\nTgid:\t41\n")), Ok(false));
    assert_eq!(task_belongs_to(42, &FileRead::Missing), Ok(false));
    assert_eq!(task_belongs_to(42, &status("Name:\tx\n")), Ok(false));
    let procfs = Procfs { root: UnixPath::from_text("/proc") };
    assert_eq!(procfs.stat_path(42), UnixPath::from_text("/proc/42/stat"));
    assert_eq!(
        procfs.children_path(42, 43),
        UnixPath::from_text("/proc/42/task/43/children")
    );
}

#[test]
fn only_confirmed_threads_are_brought_back() {
    let set = |cpus: Vec<u32>| build_cpu_set(&cpus).unwrap_or_else(|error| panic!("{}", error.message()));
    let process = identity(42, 7);
    let mut check = AffinityCheck::begin(process, &vec![2, 3]);
    assert!(matches!(check.phase, AffinityPhase::Identify));
    check.step(AffinityEvent::Identity(found(42, 7, 1)));
    check.step(AffinityEvent::Tasks(Ok(vec![42, 43])));
    assert!(matches!(check.phase, AffinityPhase::Inspect { tid: 42 }));
    check.step(AffinityEvent::Inspected {
        identity: found(42, 7, 1),
        belongs: Ok(true),
    });
    check.step(AffinityEvent::Affinity(set(vec![0, 1])));
    assert!(matches!(check.phase, AffinityPhase::Apply { tid: 42 }));
    check.step(AffinityEvent::Succeeded);
    check.step(AffinityEvent::Affinity(set(vec![2, 3])));
    assert!(matches!(check.phase, AffinityPhase::Inspect { tid: 43 }));
    check.step(AffinityEvent::Inspected {
        identity: found(42, 7, 1),
        belongs: Ok(false),
    });
    assert!(matches!(
        check.phase,
        AffinityPhase::Finished(AffinityResult::Updated(1))
    ));

    let mut reused = AffinityCheck::begin(process, &vec![2, 3]);
    reused.step(AffinityEvent::Identity(found(42, 8, 1)));
    assert!(matches!(
        reused.phase,
        AffinityPhase::Finished(AffinityResult::Vanished)
    ));
}

#[test]
fn unkept_affinities_and_unusable_cpus_are_errors() {
    let set = |cpus: Vec<u32>| build_cpu_set(&cpus).unwrap_or_else(|error| panic!("{}", error.message()));
    let mut check = AffinityCheck::begin(identity(42, 7), &vec![2]);
    check.step(AffinityEvent::Identity(found(42, 7, 1)));
    check.step(AffinityEvent::Tasks(Ok(vec![42])));
    check.step(AffinityEvent::Inspected {
        identity: found(42, 7, 1),
        belongs: Ok(true),
    });
    check.step(AffinityEvent::Affinity(set(vec![0])));
    check.step(AffinityEvent::Succeeded);
    check.step(AffinityEvent::Affinity(set(vec![0])));
    let AffinityPhase::Failed(error) = check.phase else {
        panic!("a mask that was not kept must be reported");
    };
    assert_eq!(
        error,
        SupervisorError::AffinityMismatch {
            pid: 42,
            requested: vec![2],
            actual: vec![0]
        }
    );
    let mut empty = AffinityCheck::begin(identity(42, 7), &vec![]);
    empty.step(AffinityEvent::Identity(found(42, 7, 1)));
    assert!(matches!(
        empty.phase,
        AffinityPhase::Failed(SupervisorError::EmptyAffinity)
    ));
}

#[test]
fn unusable_procfs_is_reported_before_enrollment() {
    let plan = LaunchPlan {
        applications: vec![planned("identity.desktop", true)],
        efficiency_cpus: vec![0],
    };
    let report = LaunchReport {
        initiated: vec![InitiatedApplication {
            desktop_id: "identity.desktop".to_owned(),
            pid: 42,
            process_start_time_ticks: Some(7),
            exec_succeeded: true,
        }],
        failure: None,
    };
    for state in [
        ProcfsState {
            root: ProcfsRoot::NotDirectory,
            self_stat: None,
            self_children: None,
        },
        ProcfsState {
            root: ProcfsRoot::Directory,
            self_stat: Some("denied".to_owned()),
            self_children: None,
        },
    ] {
        assert!(matches!(
            supervise_process_trees(&plan, &report, &options(10_000_000), &state, &Vec::new()),
            Err(SupervisorError::ProcfsUnavailable { .. })
        ));
    }
}

#[test]
fn sessions_look_for_a_signal_before_each_poll() {
    let session = Session::begin(supervisor(true));
    assert!(matches!(session, Session::OpenSignals(_)));
    let session = session.succeeded();
    assert!(matches!(session, Session::CheckSignal(_)));
    let session = session.signal_checked(None);
    assert!(matches!(session, Session::Poll(_)));
    let session = Session::polled(supervisor(true));
    assert!(matches!(session, Session::Sleep(_)));
    let session = session.succeeded();
    assert!(matches!(session, Session::CheckSignal(_)));
    let Session::Finished(report) = session.signal_checked(Some("SIGINT".to_owned())) else {
        panic!("a signal must end the session");
    };
    assert_eq!(report.termination_signal.as_deref(), Some("SIGINT"));
}

#[test]
fn sessions_end_where_nothing_is_left() {
    assert_eq!(
        Session::begin(supervisor(false)),
        Session::Finished(SupervisionReport::default())
    );
    assert_eq!(
        Session::polled(supervisor(false)),
        Session::Finished(SupervisionReport::default())
    );
    let over = Session::Finished(SupervisionReport::default());
    assert!(matches!(over.succeeded(), Session::Finished(_)));
    let failed = Session::failed(SupervisorError::InvalidPid { pid: 7 });
    assert!(matches!(
        failed.signal_checked(None),
        Session::Failed(SupervisorError::InvalidPid { pid: 7 })
    ));
}

#[test]
fn termination_is_recorded_in_the_report() {
    let mut supervisor = supervisor(true);
    supervisor.terminate("SIGTERM");
    assert_eq!(supervisor.report.termination_signal.as_deref(), Some("SIGTERM"));
    assert_eq!(supervisor.trees.len(), 1);
}

/// A whole session: what it reports when the processes go one by one and a
/// signal comes before some poll, if it comes.
fn run_session(control: &mut FakeControl, goes: &[u32], signal_at: Option<usize>) -> SupervisionReport {
    let trees = vec![
        ManagedTree {
            desktop_id: "a.desktop".to_owned(),
            root: identity(10, 100),
            cpus: vec![2, 3],
        },
        ManagedTree {
            desktop_id: "b.desktop".to_owned(),
            root: identity(20, 200),
            cpus: vec![2, 3],
        },
    ];
    let report = SupervisionReport {
        tracked_roots: 2,
        ..SupervisionReport::default()
    };
    let mut session = Session::begin(Supervisor {
        trees,
        report,
        ..supervisor(false)
    });
    let mut polls = 0;
    loop {
        session = match session {
            Session::OpenSignals(_) | Session::Sleep(_) => session.succeeded(),
            Session::CheckSignal(_) => {
                let signal = (signal_at == Some(polls)).then_some("SIGTERM".to_owned());
                session.signal_checked(signal)
            }
            Session::Poll(supervisor) => {
                if let Some(pid) = goes.get(polls) {
                    control.processes.remove(pid);
                }
                polls += 1;
                Session::polled(control.poll_once(supervisor).unwrap())
            }
            Session::Finished(report) => return report,
            Session::Failed(error) => panic!("session: {}", error.message()),
        };
    }
}

fn two_roots() -> FakeControl {
    let mut control = FakeControl::default();
    control.add(10, 100, 1, Vec::new(), true);
    control.add(20, 200, 1, Vec::new(), true);
    control
}

#[test]
fn a_report_counts_every_root_unless_a_signal_came() {
    let whole = run_session(&mut two_roots(), &[10, 20], None);
    assert_eq!((whole.completed_roots, whole.tracked_roots), (2, 2));
    assert_eq!(whole.termination_signal, None);
    assert_eq!(whole.polls, 2);
    let cut = run_session(&mut two_roots(), &[10, 20], Some(1));
    assert_eq!((cut.completed_roots, cut.tracked_roots), (1, 2));
    assert_eq!(cut.termination_signal.as_deref(), Some("SIGTERM"));
    let early = run_session(&mut two_roots(), &[10, 20], Some(0));
    assert_eq!((early.completed_roots, early.tracked_roots), (0, 2));
    assert_eq!(early.polls, 0);
}

#[test]
fn intervals_and_unconfirmed_launches_are_rejected_without_procfs() {
    let plan = LaunchPlan {
        applications: vec![planned("identity.desktop", true)],
        efficiency_cpus: vec![0],
    };
    let report = |exec_succeeded| LaunchReport {
        initiated: vec![InitiatedApplication {
            desktop_id: "identity.desktop".to_owned(),
            pid: 42,
            process_start_time_ticks: None,
            exec_succeeded,
        }],
        failure: None,
    };
    assert_eq!(
        check_before_procfs(&plan, &report(false), &options(9_999_999)),
        Err(SupervisorError::PollIntervalTooShort { minimum_ms: 10 })
    );
    assert_eq!(
        check_before_procfs(&plan, &report(false), &options(10_000_000)),
        Err(SupervisorError::UnconfirmedExec {
            desktop_id: "identity.desktop".to_owned(),
            pid: 42
        })
    );
    assert_eq!(
        check_before_procfs(&plan, &report(true), &options(10_000_000)),
        Ok(())
    );
}

#[test]
fn the_expected_set_is_known_once_the_process_is() {
    let mut check = AffinityCheck::begin(identity(42, 7), &vec![2, 3]);
    assert!(check.expected.is_none());
    check.step(AffinityEvent::Identity(found(42, 7, 1)));
    let expected = check.expected.unwrap_or_else(|| panic!("an expected set"));
    assert_eq!(cpu_set_values(&expected), [2, 3]);
}
