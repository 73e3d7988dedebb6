//! Carrying out a plan: one application after the other at its deadline, up to
//! the first failure.
use vstd::prelude::*;
use vstd::string::StringExecFns;

use super::acknowledgement::AcknowledgementFailure;
use super::error::{
    FailureView, InitiatedApplication, InitiatedView, LaunchFailure, LaunchFailureStage,
    LaunchReport, LaunchReportView, LauncherError, LauncherErrorView,
};
use super::plan::{
    launch_schedule, schedule, LaunchPlan, LaunchPlanView, PlannedApplication, PlannedView,
    ScheduledLaunch, ScheduledView,
};

use crate::path::UnixPath;
use crate::registry::model::io_class_text;
use crate::text::{
    decimal, decimal_text, group_views, same_text, signed_decimal, signed_decimal_text, views,
};

verus! {

/// How long a helper may take by default, in milliseconds.
pub const DEFAULT_ACKNOWLEDGEMENT_TIMEOUT_MS: u128 = 5_000;

/// Runtime execution settings which do not alter launch policy.
#[derive(Debug, PartialEq, Eq)]
pub struct ExecutionOptions {
    /// Executable used for the hidden helper process.
    pub helper_executable: UnixPath,
    /// Maximum time to await setup failure or successful exec transition, in
    /// milliseconds.
    pub acknowledgement_timeout_ms: u128,
}

impl ExecutionOptions {
    /// Production defaults with the given executable as helper.
    pub fn new(helper_executable: UnixPath) -> (out: Self)
        ensures
            out.helper_executable == helper_executable,
            out.acknowledgement_timeout_ms == DEFAULT_ACKNOWLEDGEMENT_TIMEOUT_MS,
    {
        ExecutionOptions {
            helper_executable,
            acknowledgement_timeout_ms: DEFAULT_ACKNOWLEDGEMENT_TIMEOUT_MS,
        }
    }
}

/// The words of the helper's command line before the target.
pub open spec fn helper_words(one: PlannedView, cpus: Seq<u32>, channel: i32) -> Seq<Seq<char>> {
    seq![
        "__exec"@,
        "--ack-fd"@,
        signed_decimal(channel as int),
        "--nice"@,
        signed_decimal(one.policy.nice as int),
        "--io-class"@,
        io_class_text(one.policy.io_class),
    ] + priority_words(one.policy.io_priority) + cpu_words(cpus) + seq!["--"@]
}

pub open spec fn priority_words(priority: Option<u8>) -> Seq<Seq<char>> {
    match priority {
        Some(level) => seq!["--io-priority"@, decimal(level as nat)],
        None => Seq::empty(),
    }
}

pub open spec fn cpu_words(cpus: Seq<u32>) -> Seq<Seq<char>>
    decreases cpus.len(),
{
    if cpus.len() == 0 {
        Seq::empty()
    } else {
        cpu_words(cpus.drop_last()).push("--cpu"@).push(decimal(cpus.last() as nat))
    }
}

fn push_cpu_words(out: &mut Vec<String>, cpus: &Vec<u32>)
    ensures
        views(final(out)@) == views(old(out)@) + cpu_words(cpus@),
{
    broadcast use group_views;

    let ghost start = views(out@);
    let mut i: usize = 0;
    assert(cpus@.take(0) =~= Seq::empty());
    assert(views(out@) =~= start + cpu_words(cpus@.take(0)));
    while i < cpus.len()
        invariant
            i <= cpus@.len(),
            views(out@) == start + cpu_words(cpus@.take(i as int)),
        decreases cpus.len() - i,
    {
        assert(cpus@.take(i + 1).drop_last() =~= cpus@.take(i as int));
        assert(cpus@.take(i + 1).last() == cpus@[i as int]);
        let ghost before = views(out@);
        out.push("--cpu".to_owned());
        assert(views(out@) == before.push("--cpu"@));
        out.push(decimal_text(cpus[i] as u64));
        assert(views(out@) == before.push("--cpu"@).push(decimal(cpus@[i as int] as nat)));
        assert(views(out@) =~= start + cpu_words(cpus@.take(i + 1)));
        i += 1;
    }
    assert(cpus@.take(cpus@.len() as int) =~= cpus@);
}

/// The words of the helper's command line before the target, which follows
/// with its arguments.
pub fn helper_arguments(application: &PlannedApplication, cpus: &Vec<u32>, channel: i32) -> (out: Vec<
    String,
>)
    ensures
        views(out@) == helper_words(application@, cpus@, channel),
{
    broadcast use group_views;

    let mut out: Vec<String> = Vec::new();
    out.push("__exec".to_owned());
    out.push("--ack-fd".to_owned());
    out.push(signed_decimal_text(channel as i64));
    out.push("--nice".to_owned());
    out.push(signed_decimal_text(application.nice as i64));
    out.push("--io-class".to_owned());
    out.push(application.io_class.name());
    let ghost start = views(out@);
    match application.io_priority {
        Some(priority) => {
            out.push("--io-priority".to_owned());
            out.push(decimal_text(priority as u64));
        },
        None => {},
    }
    assert(views(out@) =~= start + priority_words(application.io_priority));
    push_cpu_words(&mut out, cpus);
    out.push("--".to_owned());
    assert(views(out@) =~= helper_words(application@, cpus@, channel));
    out
}

/// What came of starting a helper. A failure comes with the system's message.
#[derive(Debug, PartialEq, Eq)]
pub enum SpawnOutcome {
    PipeFailed(String),
    PipeNotConfigured(String),
    SpawnFailed(String),
    /// The target has replaced the helper.
    Acknowledged { pid: u32, start_time: Option<u64> },
    Rejected { pid: u32, failure: AcknowledgementFailure },
}

/// The failure of a helper that could not be started.
pub open spec fn spawn_failure(id: Seq<char>, reason: Seq<char>) -> FailureView {
    FailureView {
        desktop_id: id,
        pid: None,
        stage: LaunchFailureStage::HelperSpawn,
        reason,
    }
}

/// What became of an application.
pub open spec fn spawned(id: Seq<char>, outcome: SpawnOutcome) -> Result<
    InitiatedView,
    FailureView,
> {
    match outcome {
        SpawnOutcome::PipeFailed(source) => Err(
            spawn_failure(id, "failed to create acknowledgement pipe: "@ + source@),
        ),
        SpawnOutcome::PipeNotConfigured(source) => Err(
            spawn_failure(id, "failed to configure acknowledgement pipe: "@ + source@),
        ),
        SpawnOutcome::SpawnFailed(source) => Err(spawn_failure(id, source@)),
        SpawnOutcome::Acknowledged { pid, start_time } => Ok(
            InitiatedView {
                desktop_id: id,
                pid,
                process_start_time_ticks: start_time,
                exec_succeeded: true,
            },
        ),
        SpawnOutcome::Rejected { pid, failure } => Err(
            FailureView {
                desktop_id: id,
                pid: Some(pid),
                stage: failure.stage,
                reason: failure.reason@,
            },
        ),
    }
}

/// An application or a failure, by contents.
pub open spec fn launch_outcome(out: Result<InitiatedApplication, LaunchFailure>) -> Result<
    InitiatedView,
    FailureView,
> {
    match out {
        Ok(one) => Ok(one@),
        Err(failure) => Err(failure@),
    }
}

fn helper_failure(id: &str, reason: String) -> (out: LaunchFailure)
    ensures
        out@ == spawn_failure(id@, reason@),
{
    LaunchFailure {
        desktop_id: id.to_owned(),
        pid: None,
        stage: LaunchFailureStage::HelperSpawn,
        reason,
    }
}

/// What became of an application.
pub fn spawn_result(desktop_id: &str, outcome: SpawnOutcome) -> (out: Result<
    InitiatedApplication,
    LaunchFailure,
>)
    ensures
        launch_outcome(out) == spawned(desktop_id@, outcome),
{
    match outcome {
        SpawnOutcome::PipeFailed(source) => Err(
            helper_failure(
                desktop_id,
                "failed to create acknowledgement pipe: ".to_owned().concat(source.as_str()),
            ),
        ),
        SpawnOutcome::PipeNotConfigured(source) => Err(
            helper_failure(
                desktop_id,
                "failed to configure acknowledgement pipe: ".to_owned().concat(source.as_str()),
            ),
        ),
        SpawnOutcome::SpawnFailed(source) => Err(helper_failure(desktop_id, source)),
        SpawnOutcome::Acknowledged { pid, start_time } => Ok(
            InitiatedApplication {
                desktop_id: desktop_id.to_owned(),
                pid,
                process_start_time_ticks: start_time,
                exec_succeeded: true,
            },
        ),
        SpawnOutcome::Rejected { pid, failure } => Err(
            LaunchFailure {
                desktop_id: desktop_id.to_owned(),
                pid: Some(pid),
                stage: failure.stage,
                reason: failure.reason,
            },
        ),
    }
}

/// Why the deadlines of a schedule cannot all be kept: the first that is
/// beyond the clock. What is not known of a deadline counts as such.
pub open spec fn deadline_failure(all: Seq<ScheduledView>, representable: Seq<bool>) -> Option<
    LauncherErrorView,
>
    decreases all.len(),
{
    if all.len() == 0 {
        None
    } else if deadline_failure(all.drop_last(), representable) is Some {
        deadline_failure(all.drop_last(), representable)
    } else {
        let last = all.len() - 1;
        if last < representable.len() && representable[last] {
            None
        } else {
            Some(LauncherErrorView::InvalidLaunchDelay { desktop_id: all.last().desktop_id })
        }
    }
}

proof fn lemma_deadline_failure(all: Seq<ScheduledView>, representable: Seq<bool>, k: int)
    requires
        0 <= k <= all.len(),
        deadline_failure(all.take(k), representable) is Some,
    ensures
        deadline_failure(all, representable) == deadline_failure(all.take(k), representable),
    decreases all.len(),
{
    if k < all.len() {
        assert(all.drop_last().take(k) =~= all.take(k));
        lemma_deadline_failure(all.drop_last(), representable, k);
    } else {
        assert(all.take(k) =~= all);
    }
}

/// The carrying out of a plan.
#[derive(Debug, PartialEq, Eq)]
pub struct Execution {
    /// The deadlines, in order.
    pub schedule: Vec<ScheduledLaunch>,
    /// How many deadlines are done with.
    pub done: usize,
    pub report: LaunchReport,
}

/// An execution by its contents.
pub struct ExecutionView {
    pub schedule: Seq<ScheduledView>,
    pub done: int,
    pub report: LaunchReportView,
}

impl View for Execution {
    type V = ExecutionView;

    open spec fn view(&self) -> ExecutionView {
        ExecutionView {
            schedule: views(self.schedule@),
            done: self.done as int,
            report: self.report@,
        }
    }
}

/// Where the application with an ID stands in a plan; of several, the last.
pub open spec fn planned_position(applications: Seq<PlannedView>, id: Seq<char>) -> Option<int>
    decreases applications.len(),
{
    if applications.len() == 0 {
        None
    } else if applications.last().desktop_id == id {
        Some(applications.len() - 1)
    } else {
        planned_position(applications.drop_last(), id)
    }
}

impl ExecutionView {
    /// The beginning of an execution.
    pub open spec fn start(plan: LaunchPlanView) -> ExecutionView {
        ExecutionView {
            schedule: schedule(plan),
            done: 0,
            report: LaunchReportView { initiated: Seq::empty(), failure: None },
        }
    }

    /// Nothing more is to be launched.
    pub open spec fn is_finished(self) -> bool {
        self.report.failure is Some || self.done >= self.schedule.len()
    }

    /// Which application of the plan comes next.
    pub open spec fn position(self, plan: LaunchPlanView) -> Option<int> {
        if self.is_finished() {
            None
        } else {
            planned_position(plan.applications, self.schedule[self.done].desktop_id)
        }
    }

    /// The execution after what became of an application. Once it is finished,
    /// nothing changes.
    pub open spec fn next(self, outcome: Result<InitiatedView, FailureView>) -> ExecutionView {
        if self.is_finished() {
            self
        } else {
            ExecutionView {
                done: self.done + 1,
                report: match outcome {
                    Ok(one) => LaunchReportView {
                        initiated: self.report.initiated.push(one),
                        ..self.report
                    },
                    Err(failure) => LaunchReportView { failure: Some(failure), ..self.report },
                },
                ..self
            }
        }
    }

    /// The execution after what became of some applications.
    pub open spec fn after(self, outcomes: Seq<Result<InitiatedView, FailureView>>) -> ExecutionView
        decreases outcomes.len(),
    {
        if outcomes.len() == 0 {
            self
        } else {
            self.after(outcomes.drop_last()).next(outcomes.last())
        }
    }
}

impl ExecutionView {
    /// The execution after what came of starting the application that was
    /// next.
    pub open spec fn recorded(self, outcome: SpawnOutcome) -> ExecutionView {
        if self.is_finished() {
            self
        } else {
            self.next(spawned(self.schedule[self.done].desktop_id, outcome))
        }
    }

    /// The execution after what came of starting one application after the
    /// other.
    pub open spec fn recorded_all(self, outcomes: Seq<SpawnOutcome>) -> ExecutionView
        decreases outcomes.len(),
    {
        if outcomes.len() == 0 {
            self
        } else {
            self.recorded_all(outcomes.drop_last()).recorded(outcomes.last())
        }
    }
}

fn find_planned(applications: &Vec<PlannedApplication>, id: &str) -> (out: Option<usize>)
    ensures
        match planned_position(views(applications@), id@) {
            Some(position) => out is Some && out->0 == position && position < applications@.len(),
            None => out is None,
        },
{
    let ghost all = views(applications@);
    let mut i: usize = applications.len();
    assert(all.take(all.len() as int) =~= all);
    while i > 0
        invariant
            i <= applications@.len(),
            all == views(applications@),
            planned_position(all, id@) == planned_position(all.take(i as int), id@),
        decreases i,
    {
        assert(all.take(i as int).last() == applications@[i - 1]@);
        assert(all.take(i as int).drop_last() =~= all.take(i - 1));
        i -= 1;
        if same_text(applications[i].desktop_id.as_str(), id) {
            return Some(i);
        }
    }
    None
}

impl Execution {
    /// Begin to carry out a plan. For each deadline of its schedule, in order,
    /// it is given whether the clock can represent it.
    pub fn begin(plan: &LaunchPlan, representable: &Vec<bool>) -> (out: Result<
        Execution,
        LauncherError,
    >)
        ensures
            match deadline_failure(schedule(plan@), representable@) {
                Some(e) => out matches Err(error) && error@ == e,
                None => out matches Ok(execution) && execution@ == ExecutionView::start(plan@),
            },
    {
        let deadlines = launch_schedule(plan);
        let ghost all = views(deadlines@);
        let mut i: usize = 0;
        assert(all.take(0) =~= Seq::empty());
        while i < deadlines.len()
            invariant
                i <= deadlines@.len(),
                all == views(deadlines@),
                all == schedule(plan@),
                deadline_failure(all.take(i as int), representable@) is None,
            decreases deadlines.len() - i,
        {
            proof {
                assert(all.take(i + 1).drop_last() =~= all.take(i as int));
                assert(all.take(i + 1).last() == deadlines@[i as int]@);
            }
            if !(i < representable.len() && representable[i]) {
                proof {
                    lemma_deadline_failure(all, representable@, i + 1);
                }
                return Err(
                    LauncherError::InvalidLaunchDelay { desktop_id: deadlines[i].desktop_id.clone() },
                );
            }
            i += 1;
        }
        assert(all.take(all.len() as int) =~= all);
        Ok(Execution { schedule: deadlines, done: 0, report: LaunchReport::default() })
    }

    /// Which application of the plan comes next, after how many seconds.
    pub fn upcoming(&self, plan: &LaunchPlan) -> (out: Option<(usize, u64)>)
        ensures
            match self@.position(plan@) {
                Some(position) => out matches Some(found) && found.0 == position && found.1
                    == self@.schedule[self@.done].delay_seconds && position
                    < plan.applications@.len(),
                None => out is None,
            },
    {
        assert(views(self.schedule@).len() == self.schedule@.len());
        if self.report.failure.is_some() || self.done >= self.schedule.len() {
            return None;
        }
        assert(views(self.schedule@)[self.done as int] == self.schedule@[self.done as int]@);
        match find_planned(&plan.applications, self.schedule[self.done].desktop_id.as_str()) {
            Some(position) => Some((position, self.schedule[self.done].delay_seconds)),
            None => None,
        }
    }

    /// The execution after what became of an application.
    pub fn step(self, outcome: Result<InitiatedApplication, LaunchFailure>) -> (out: Execution)
        ensures
            out@ == self@.next(launch_outcome(outcome)),
    {
        broadcast use group_views;

        assert(views(self.schedule@).len() == self.schedule@.len());
        if self.report.failure.is_some() || self.done >= self.schedule.len() {
            return self;
        }
        let Execution { schedule, done, report } = self;
        let LaunchReport { initiated, failure } = report;
        let report = match outcome {
            Ok(one) => {
                let ghost before = views(initiated@);
                let mut initiated = initiated;
                initiated.push(one);
                assert(views(initiated@) == before.push(one@));
                LaunchReport { initiated, failure }
            },
            Err(failure) => LaunchReport { initiated, failure: Some(failure) },
        };
        Execution { schedule, done: done + 1, report }
    }

    /// The execution after what came of starting the application that was
    /// next.
    pub fn record(self, outcome: SpawnOutcome) -> (out: Execution)
        ensures
            out@ == self@.recorded(outcome),
    {
        assert(views(self.schedule@).len() == self.schedule@.len());
        if self.report.failure.is_some() || self.done >= self.schedule.len() {
            return self;
        }
        assert(views(self.schedule@)[self.done as int] == self.schedule@[self.done as int]@);
        let result = spawn_result(self.schedule[self.done].desktop_id.as_str(), outcome);
        self.step(result)
    }

    /// The report of the execution, or the failure that ended it.
    pub fn finish(self) -> (out: Result<LaunchReport, LauncherError>)
        ensures
            match self@.report.failure {
                None => out matches Ok(report) && report@ == self@.report,
                Some(failure) => out matches Err(e) && e@
                    == (LauncherErrorView::RuntimeLaunchFailed { failure, report: self@.report }),
            },
    {
        let report = self.report;
        match &report.failure {
            None => {},
            Some(failure) => {
                let failure = Box::new(failure.clone());
                return Err(
                    LauncherError::RuntimeLaunchFailed { failure, report: Box::new(report) },
                );
            },
        }
        Ok(report)
    }
}

} // verus!
