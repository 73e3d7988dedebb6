//! Taking the process trees of a launch under supervision.
use vstd::prelude::*;
use vstd::string::StringExecFns;

use super::poll::{omission, omission_warning, ManagedTree, Supervisor, SupervisorView, TreeView};
use super::procfs::{
    procfs_failure, validate_procfs_root, IdentityOutcome, IdentityView, ProcfsState,
};
use super::types::{
    empty_report, SupervisionReport, SupervisionView, SupervisorError, SupervisorErrorView,
    SupervisorOptions, SupervisorWarning, SupervisorWarningView, MAX_SUPERVISOR_WARNINGS,
    MINIMUM_POLL_INTERVAL_MS, MINIMUM_POLL_INTERVAL_NANOS,
};
use crate::launcher::error::{InitiatedApplication, InitiatedView, LaunchReport};
use crate::launcher::plan::{LaunchPlan, LaunchPlanView, PlannedApplication, PlannedView};
use crate::order::{copy_numbers, sorted_set, sorted_unique};
use crate::text::{group_views, same_text, views};

verus! {

/// The plan asks for the process tree of an application to be kept on its
/// CPUs.
pub open spec fn is_enforced(applications: Seq<PlannedView>, id: Seq<char>) -> bool {
    exists|k: int|
        0 <= k < applications.len() && (#[trigger] applications[k]).desktop_id == id
            && applications[k].policy.enforce_process_tree
}

fn asks_for_enforcement(applications: &Vec<PlannedApplication>, id: &str) -> (out: bool)
    ensures
        out == is_enforced(views(applications@), id@),
{
    let ghost all = views(applications@);
    let mut i: usize = 0;
    while i < applications.len()
        invariant
            i <= applications@.len(),
            all == views(applications@),
            forall|k: int|
                0 <= k < i ==> !((#[trigger] all[k]).desktop_id == id@
                    && all[k].policy.enforce_process_tree),
        decreases applications.len() - i,
    {
        assert(all[i as int] == applications@[i as int]@);
        if applications[i].enforce_process_tree && same_text(
            applications[i].desktop_id.as_str(),
            id,
        ) {
            return true;
        }
        i += 1;
    }
    false
}

/// Whether anything that was launched has to be supervised.
pub open spec fn has_enforced(plan: LaunchPlanView, initiated: Seq<InitiatedView>) -> bool {
    exists|k: int|
        0 <= k < initiated.len() && is_enforced(
            plan.applications,
            (#[trigger] initiated[k]).desktop_id,
        )
}

/// The first application that is to be supervised though its exec is not
/// confirmed.
pub open spec fn unconfirmed_failure(plan: LaunchPlanView, initiated: Seq<InitiatedView>) -> Option<
    SupervisorErrorView,
>
    decreases initiated.len(),
{
    if initiated.len() == 0 {
        None
    } else if is_enforced(plan.applications, initiated[0].desktop_id)
        && !initiated[0].exec_succeeded {
        Some(
            SupervisorErrorView::UnconfirmedExec {
                desktop_id: initiated[0].desktop_id,
                pid: initiated[0].pid,
            },
        )
    } else {
        unconfirmed_failure(plan, initiated.drop_first())
    }
}

/// The first application that is to be supervised though it is not known when
/// it started.
pub open spec fn unidentified_failure(plan: LaunchPlanView, initiated: Seq<InitiatedView>) -> Option<
    SupervisorErrorView,
>
    decreases initiated.len(),
{
    if initiated.len() == 0 {
        None
    } else if is_enforced(plan.applications, initiated[0].desktop_id)
        && initiated[0].process_start_time_ticks is None {
        Some(
            SupervisorErrorView::MissingLaunchIdentity {
                desktop_id: initiated[0].desktop_id,
                pid: initiated[0].pid,
            },
        )
    } else {
        unidentified_failure(plan, initiated.drop_first())
    }
}

/// Why supervision cannot begin, as far as that is known without a look at
/// `/proc`.
pub open spec fn early_failure(
    plan: LaunchPlanView,
    initiated: Seq<InitiatedView>,
    poll_interval_nanos: u128,
) -> Option<SupervisorErrorView> {
    if poll_interval_nanos < MINIMUM_POLL_INTERVAL_NANOS {
        Some(SupervisorErrorView::PollIntervalTooShort { minimum_ms: MINIMUM_POLL_INTERVAL_MS })
    } else {
        unconfirmed_failure(plan, initiated)
    }
}

/// Why supervision cannot begin.
pub open spec fn supervision_failure(
    plan: LaunchPlanView,
    initiated: Seq<InitiatedView>,
    poll_interval_nanos: u128,
    root: Seq<u8>,
    procfs: ProcfsState,
) -> Option<SupervisorErrorView> {
    if early_failure(plan, initiated, poll_interval_nanos) is Some {
        early_failure(plan, initiated, poll_interval_nanos)
    } else if !has_enforced(plan, initiated) {
        None
    } else if procfs_failure(root, procfs) is Some {
        procfs_failure(root, procfs)
    } else {
        unidentified_failure(plan, initiated)
    }
}

/// Whether anything that was launched has to be supervised, so that `/proc` is
/// needed.
pub fn needs_supervision(plan: &LaunchPlan, launch_report: &LaunchReport) -> (out: bool)
    ensures
        out == has_enforced(plan@, launch_report@.initiated),
{
    let ghost all = launch_report@.initiated;
    let mut i: usize = 0;
    while i < launch_report.initiated.len()
        invariant
            i <= launch_report.initiated@.len(),
            all == views(launch_report.initiated@),
            all == launch_report@.initiated,
            forall|k: int|
                0 <= k < i ==> !is_enforced(
                    plan@.applications,
                    (#[trigger] all[k]).desktop_id,
                ),
        decreases launch_report.initiated.len() - i,
    {
        assert(all[i as int] == launch_report.initiated@[i as int]@);
        if asks_for_enforcement(
            &plan.applications,
            launch_report.initiated[i].desktop_id.as_str(),
        ) {
            return true;
        }
        i += 1;
    }
    false
}

fn find_unconfirmed(plan: &LaunchPlan, launch_report: &LaunchReport) -> (out: Option<
    SupervisorError,
>)
    ensures
        match unconfirmed_failure(plan@, launch_report@.initiated) {
            Some(e) => out is Some && out->0@ == e,
            None => out is None,
        },
{
    let ghost all = launch_report@.initiated;
    let mut i: usize = 0;
    assert(all.skip(0) =~= all);
    while i < launch_report.initiated.len()
        invariant
            i <= launch_report.initiated@.len(),
            all == views(launch_report.initiated@),
            all == launch_report@.initiated,
            unconfirmed_failure(plan@, all) == unconfirmed_failure(plan@, all.skip(i as int)),
        decreases launch_report.initiated.len() - i,
    {
        assert(all.skip(i as int)[0] == launch_report.initiated@[i as int]@);
        assert(all.skip(i as int).drop_first() =~= all.skip(i + 1));
        let one = &launch_report.initiated[i];
        if !one.exec_succeeded && asks_for_enforcement(
            &plan.applications,
            one.desktop_id.as_str(),
        ) {
            return Some(
                SupervisorError::UnconfirmedExec {
                    desktop_id: one.desktop_id.clone(),
                    pid: one.pid,
                },
            );
        }
        i += 1;
    }
    None
}

fn find_unidentified(plan: &LaunchPlan, launch_report: &LaunchReport) -> (out: Option<
    SupervisorError,
>)
    ensures
        match unidentified_failure(plan@, launch_report@.initiated) {
            Some(e) => out is Some && out->0@ == e,
            None => out is None,
        },
{
    let ghost all = launch_report@.initiated;
    let mut i: usize = 0;
    assert(all.skip(0) =~= all);
    while i < launch_report.initiated.len()
        invariant
            i <= launch_report.initiated@.len(),
            all == views(launch_report.initiated@),
            all == launch_report@.initiated,
            unidentified_failure(plan@, all) == unidentified_failure(plan@, all.skip(i as int)),
        decreases launch_report.initiated.len() - i,
    {
        assert(all.skip(i as int)[0] == launch_report.initiated@[i as int]@);
        assert(all.skip(i as int).drop_first() =~= all.skip(i + 1));
        let one = &launch_report.initiated[i];
        if one.process_start_time_ticks.is_none() && asks_for_enforcement(
            &plan.applications,
            one.desktop_id.as_str(),
        ) {
            return Some(
                SupervisorError::MissingLaunchIdentity {
                    desktop_id: one.desktop_id.clone(),
                    pid: one.pid,
                },
            );
        }
        i += 1;
    }
    None
}

/// Warnings with one more, as long as there are not too many; then the note
/// that further ones are omitted.
pub open spec fn with_enrollment_warning(
    warnings: Seq<SupervisorWarningView>,
    warning: SupervisorWarningView,
) -> Seq<SupervisorWarningView> {
    if warnings.len() < MAX_SUPERVISOR_WARNINGS {
        warnings.push(warning)
    } else if warnings.len() == MAX_SUPERVISOR_WARNINGS {
        warnings.push(omission())
    } else {
        warnings
    }
}

fn push_enrollment_warning(warnings: &mut Vec<SupervisorWarning>, warning: SupervisorWarning)
    ensures
        views(final(warnings)@) == with_enrollment_warning(views(old(warnings)@), warning@),
{
    broadcast use group_views;

    let ghost before = views(warnings@);
    assert(before.len() == warnings@.len());
    if warnings.len() < MAX_SUPERVISOR_WARNINGS {
        warnings.push(warning);
        assert(views(warnings@) == before.push(warning@));
    } else if warnings.len() == MAX_SUPERVISOR_WARNINGS {
        warnings.push(omission_warning());
        assert(views(warnings@) == before.push(omission()));
    }
}

/// Why an application is not taken under supervision: it must be the process
/// that was launched, by number and start time.
pub open spec fn enrollment_problem(initiated: InitiatedView, seen: IdentityView) -> Option<
    Seq<char>,
> {
    match initiated.process_start_time_ticks {
        None => Some(
            "target process identity was unavailable after exec; refusing supervision"@,
        ),
        Some(start) => match seen {
            IdentityView::Found { identity, .. } => if identity.start_time_ticks == start {
                None
            } else {
                Some(
                    "target PID start time changed before enrollment; refusing possible PID reuse"@,
                )
            },
            IdentityView::Missing => Some(
                "target exited before process-tree supervision could enroll it"@,
            ),
            IdentityView::Failed(message) => Some("could not enroll managed root: "@ + message),
        },
    }
}

/// Trees under supervision, and the warnings about those that are not.
pub struct EnrollmentView {
    pub trees: Seq<TreeView>,
    pub warnings: Seq<SupervisorWarningView>,
}

impl EnrollmentView {
    /// The enrollment with one more application.
    pub open spec fn with(
        self,
        initiated: InitiatedView,
        seen: IdentityView,
        cpus: Seq<u32>,
    ) -> EnrollmentView {
        match enrollment_problem(initiated, seen) {
            Some(reason) => EnrollmentView {
                warnings: with_enrollment_warning(
                    self.warnings,
                    SupervisorWarningView {
                        desktop_id: initiated.desktop_id,
                        pid: Some(initiated.pid),
                        reason,
                    },
                ),
                ..self
            },
            None => EnrollmentView {
                trees: self.trees.push(
                    TreeView {
                        desktop_id: initiated.desktop_id,
                        root: seen->identity,
                        cpus,
                    },
                ),
                ..self
            },
        }
    }
}

/// The trees under supervision so far, and the warnings about others.
pub struct Enrollment {
    pub trees: Vec<ManagedTree>,
    pub warnings: Vec<SupervisorWarning>,
}

impl View for Enrollment {
    type V = EnrollmentView;

    open spec fn view(&self) -> EnrollmentView {
        EnrollmentView { trees: views(self.trees@), warnings: views(self.warnings@) }
    }
}

fn find_enrollment_problem(initiated: &InitiatedApplication, seen: &IdentityOutcome) -> (out: Option<
    String,
>)
    ensures
        crate::text::optional_text_view(out) == enrollment_problem(initiated@, seen@),
{
    let start: u64 = match initiated.process_start_time_ticks {
        None => {
            return Some(
                "target process identity was unavailable after exec; refusing supervision".to_owned(),
            );
        },
        Some(start) => start,
    };
    match seen {
        IdentityOutcome::Found { identity, .. } => {
            if identity.start_time_ticks == start {
                None
            } else {
                Some(
                    "target PID start time changed before enrollment; refusing possible PID reuse".to_owned(),
                )
            }
        },
        IdentityOutcome::Missing => Some(
            "target exited before process-tree supervision could enroll it".to_owned(),
        ),
        IdentityOutcome::Failed(message) => Some(
            "could not enroll managed root: ".to_owned().concat(message.as_str()),
        ),
    }
}

impl Enrollment {
    /// Take one more application under supervision, or warn.
    pub fn enroll_root(
        &mut self,
        initiated: &InitiatedApplication,
        seen: &IdentityOutcome,
        cpus: &Vec<u32>,
    )
        ensures
            final(self)@ == old(self)@.with(initiated@, seen@, cpus@),
    {
        broadcast use group_views;

        match find_enrollment_problem(initiated, seen) {
            Some(reason) => {
                push_enrollment_warning(
                    &mut self.warnings,
                    SupervisorWarning {
                        desktop_id: initiated.desktop_id.clone(),
                        pid: Some(initiated.pid),
                        reason,
                    },
                );
            },
            None => {
                match seen {
                    IdentityOutcome::Found { identity, .. } => {
                        let ghost before = views(self.trees@);
                        let tree = ManagedTree {
                            desktop_id: initiated.desktop_id.clone(),
                            root: *identity,
                            cpus: copy_numbers(cpus),
                        };
                        self.trees.push(tree);
                        assert(views(self.trees@) == before.push(tree@));
                    },
                    _ => {},
                }
            },
        }
    }
}

/// The first of the initiated applications with an ID.
pub open spec fn initiated_with(initiated: Seq<InitiatedView>, id: Seq<char>) -> Option<
    InitiatedView,
>
    decreases initiated.len(),
{
    if initiated.len() == 0 {
        None
    } else if initiated[0].desktop_id == id {
        Some(initiated[0])
    } else {
        initiated_with(initiated.drop_first(), id)
    }
}

fn find_initiated<'a>(initiated: &'a Vec<InitiatedApplication>, id: &str) -> (out: Option<
    &'a InitiatedApplication,
>)
    ensures
        match initiated_with(views(initiated@), id@) {
            Some(found) => out is Some && out->0@ == found,
            None => out is None,
        },
{
    let ghost all = views(initiated@);
    let mut i: usize = 0;
    assert(all.skip(0) =~= all);
    while i < initiated.len()
        invariant
            i <= initiated@.len(),
            all == views(initiated@),
            initiated_with(all, id@) == initiated_with(all.skip(i as int), id@),
        decreases initiated.len() - i,
    {
        assert(all.skip(i as int)[0] == initiated@[i as int]@);
        assert(all.skip(i as int).drop_first() =~= all.skip(i + 1));
        if same_text(initiated[i].desktop_id.as_str(), id) {
            return Some(&initiated[i]);
        }
        i += 1;
    }
    None
}

/// The applications of a plan whose trees are to be enrolled, in its order, as
/// they were initiated.
pub open spec fn candidates(applications: Seq<PlannedView>, initiated: Seq<InitiatedView>) -> Seq<
    InitiatedView,
>
    decreases applications.len(),
{
    if applications.len() == 0 {
        Seq::empty()
    } else {
        let front = candidates(applications.drop_last(), initiated);
        let last = applications.last();
        match initiated_with(initiated, last.desktop_id) {
            Some(one) => if last.policy.enforce_process_tree {
                front.push(one)
            } else {
                front
            },
            None => front,
        }
    }
}

/// What is known of the process at a position; what is not is missing.
pub open spec fn seen_at(seen: Seq<IdentityView>, at: int) -> IdentityView {
    if 0 <= at < seen.len() {
        seen[at]
    } else {
        IdentityView::Missing
    }
}

/// The enrollment of some applications.
pub open spec fn enrolled(
    all: Seq<InitiatedView>,
    seen: Seq<IdentityView>,
    cpus: Seq<u32>,
) -> EnrollmentView
    decreases all.len(),
{
    if all.len() == 0 {
        EnrollmentView { trees: Seq::empty(), warnings: Seq::empty() }
    } else {
        enrolled(all.drop_last(), seen, cpus).with(
            all.last(),
            seen_at(seen, all.len() - 1),
            cpus,
        )
    }
}

pub open spec fn initiated_pid() -> spec_fn(InitiatedView) -> u32 {
    |one: InitiatedView| one.pid
}

/// Each of some warnings once.
pub open spec fn distinct_warnings(warnings: Seq<SupervisorWarningView>) -> Seq<
    SupervisorWarningView,
>
    decreases warnings.len(),
{
    if warnings.len() == 0 {
        Seq::empty()
    } else {
        let front = distinct_warnings(warnings.drop_last());
        if front.contains(warnings.last()) {
            front
        } else {
            front.push(warnings.last())
        }
    }
}

/// The supervisor at the beginning.
pub open spec fn supervision(
    plan: LaunchPlanView,
    initiated: Seq<InitiatedView>,
    seen: Seq<IdentityView>,
) -> SupervisorView {
    let enrollment = enrolled(
        candidates(plan.applications, initiated),
        seen,
        plan.efficiency_cpus,
    );
    SupervisorView {
        trees: enrollment.trees,
        child_pids: sorted_set(initiated.map_values(initiated_pid())),
        report: SupervisionView {
            tracked_roots: enrollment.trees.len() as usize,
            warnings: enrollment.warnings,
            ..empty_report()
        },
        warning_keys: distinct_warnings(enrollment.warnings),
        warnings_truncated: enrollment.warnings.len() > MAX_SUPERVISOR_WARNINGS,
    }
}

/// The processes to look at before enrollment, in order.
pub fn enrollment_pids(plan: &LaunchPlan, launch_report: &LaunchReport) -> (out: Vec<u32>)
    ensures
        out@ == candidates(plan@.applications, launch_report@.initiated).map_values(
            initiated_pid(),
        ),
{
    let ghost all = plan@.applications;
    let ghost initiated = launch_report@.initiated;
    let mut out: Vec<u32> = Vec::new();
    let mut i: usize = 0;
    assert(all.take(0) =~= Seq::empty());
    assert(candidates(all.take(0), initiated).map_values(initiated_pid()) =~= Seq::empty());
    while i < plan.applications.len()
        invariant
            i <= plan.applications@.len(),
            all == views(plan.applications@),
            all == plan@.applications,
            initiated == views(launch_report.initiated@),
            initiated == launch_report@.initiated,
            out@ == candidates(all.take(i as int), initiated).map_values(initiated_pid()),
        decreases plan.applications.len() - i,
    {
        let ghost front = candidates(all.take(i as int), initiated);
        proof {
            assert(all.take(i + 1).drop_last() =~= all.take(i as int));
            assert(all.take(i + 1).last() == plan.applications@[i as int]@);
        }
        if plan.applications[i].enforce_process_tree {
            match find_initiated(
                &launch_report.initiated,
                plan.applications[i].desktop_id.as_str(),
            ) {
                Some(one) => {
                    out.push(one.pid);
                    assert(front.push(one@).map_values(initiated_pid()) =~= front.map_values(
                        initiated_pid(),
                    ).push(one.pid));
                },
                None => {},
            }
        }
        i += 1;
    }
    assert(all.take(all.len() as int) =~= all);
    out
}

fn enroll_all(plan: &LaunchPlan, launch_report: &LaunchReport, seen: &Vec<IdentityOutcome>) -> (out:
    Enrollment)
    ensures
        out@ == enrolled(
            candidates(plan@.applications, launch_report@.initiated),
            views(seen@),
            plan@.efficiency_cpus,
        ),
{
    let ghost all = plan@.applications;
    let ghost initiated = launch_report@.initiated;
    let ghost known = views(seen@);
    let mut out = Enrollment { trees: Vec::new(), warnings: Vec::new() };
    let mut count: usize = 0;
    let mut i: usize = 0;
    let missing = IdentityOutcome::Missing;
    assert(all.take(0) =~= Seq::empty());
    assert(out@.trees =~= Seq::empty());
    assert(out@.warnings =~= Seq::empty());
    while i < plan.applications.len()
        invariant
            i <= plan.applications@.len(),
            all == views(plan.applications@),
            all == plan@.applications,
            initiated == views(launch_report.initiated@),
            initiated == launch_report@.initiated,
            known == views(seen@),
            missing@ == IdentityView::Missing,
            count <= i,
            count == candidates(all.take(i as int), initiated).len(),
            out@ == enrolled(
                candidates(all.take(i as int), initiated),
                known,
                plan@.efficiency_cpus,
            ),
        decreases plan.applications.len() - i,
    {
        let ghost front = candidates(all.take(i as int), initiated);
        proof {
            assert(all.take(i + 1).drop_last() =~= all.take(i as int));
            assert(all.take(i + 1).last() == plan.applications@[i as int]@);
        }
        if plan.applications[i].enforce_process_tree {
            match find_initiated(
                &launch_report.initiated,
                plan.applications[i].desktop_id.as_str(),
            ) {
                Some(one) => {
                    let found = if count < seen.len() {
                        &seen[count]
                    } else {
                        &missing
                    };
                    assert(found@ == seen_at(known, count as int));
                    assert(front.push(one@).drop_last() =~= front);
                    out.enroll_root(one, found, &plan.efficiency_cpus);
                    count += 1;
                },
                None => {},
            }
        }
        i += 1;
    }
    assert(all.take(all.len() as int) =~= all);
    out
}

fn collect_pids(initiated: &Vec<InitiatedApplication>) -> (out: Vec<u32>)
    ensures
        out@ == views(initiated@).map_values(initiated_pid()),
{
    let ghost all = views(initiated@);
    let mut out: Vec<u32> = Vec::new();
    let mut i: usize = 0;
    assert(all.take(0).map_values(initiated_pid()) =~= Seq::empty());
    while i < initiated.len()
        invariant
            i <= initiated@.len(),
            all == views(initiated@),
            out@ == all.take(i as int).map_values(initiated_pid()),
        decreases initiated.len() - i,
    {
        assert(all.take(i + 1).map_values(initiated_pid()) =~= all.take(i as int).map_values(
            initiated_pid(),
        ).push(initiated@[i as int].pid));
        out.push(initiated[i].pid);
        i += 1;
    }
    assert(all.take(all.len() as int) =~= all);
    out
}

fn collect_distinct(warnings: &Vec<SupervisorWarning>) -> (out: Vec<SupervisorWarning>)
    ensures
        views(out@) == distinct_warnings(views(warnings@)),
{
    broadcast use group_views;

    let ghost all = views(warnings@);
    let mut out: Vec<SupervisorWarning> = Vec::new();
    let mut i: usize = 0;
    assert(all.take(0) =~= Seq::empty());
    while i < warnings.len()
        invariant
            i <= warnings@.len(),
            all == views(warnings@),
            views(out@) == distinct_warnings(all.take(i as int)),
        decreases warnings.len() - i,
    {
        assert(all.take(i + 1).drop_last() =~= all.take(i as int));
        assert(all.take(i + 1).last() == warnings@[i as int]@);
        if !super::poll::was_given(&out, &warnings[i]) {
            out.push(warnings[i].clone());
        }
        i += 1;
    }
    assert(all.take(all.len() as int) =~= all);
    out
}

/// Check what can be checked of a supervision before `/proc` is looked at.
pub fn check_before_procfs(
    plan: &LaunchPlan,
    launch_report: &LaunchReport,
    options: &SupervisorOptions,
) -> (out: Result<(), SupervisorError>)
    ensures
        match early_failure(plan@, launch_report@.initiated, options.poll_interval_nanos) {
            Some(e) => out matches Err(error) && error@ == e,
            None => out is Ok,
        },
{
    if options.poll_interval_nanos < MINIMUM_POLL_INTERVAL_NANOS {
        return Err(
            SupervisorError::PollIntervalTooShort { minimum_ms: MINIMUM_POLL_INTERVAL_MS },
        );
    }
    match find_unconfirmed(plan, launch_report) {
        Some(e) => Err(e),
        None => Ok(()),
    }
}

/// Begin to supervise the applications of a launch whose process trees are to
/// be kept on their CPUs. Given are what `/proc` is, and what is known of the
/// processes that [`enrollment_pids`] lists.
pub fn supervise_process_trees(
    plan: &LaunchPlan,
    launch_report: &LaunchReport,
    options: &SupervisorOptions,
    procfs: &ProcfsState,
    seen: &Vec<IdentityOutcome>,
) -> (out: Result<Supervisor, SupervisorError>)
    ensures
        match supervision_failure(
            plan@,
            launch_report@.initiated,
            options.poll_interval_nanos,
            options.proc_root@,
            *procfs,
        ) {
            Some(e) => out matches Err(error) && error@ == e,
            None => out matches Ok(supervisor) && supervisor@ == supervision(
                plan@,
                launch_report@.initiated,
                views(seen@),
            ),
        },
{
    match check_before_procfs(plan, launch_report, options) {
        Ok(_) => {},
        Err(e) => {
            return Err(e);
        },
    }
    if needs_supervision(plan, launch_report) {
        match validate_procfs_root(&options.proc_root, procfs) {
            Ok(_) => {},
            Err(e) => {
                return Err(e);
            },
        }
        match find_unidentified(plan, launch_report) {
            Some(e) => {
                return Err(e);
            },
            None => {},
        }
    }
    let enrollment = enroll_all(plan, launch_report, seen);
    let Enrollment { trees, warnings } = enrollment;
    assert(views(trees@).len() == trees@.len());
    assert(views(warnings@).len() == warnings@.len());
    let warning_keys = collect_distinct(&warnings);
    let warnings_truncated = warnings.len() > MAX_SUPERVISOR_WARNINGS;
    let count: usize = trees.len();
    let mut report = SupervisionReport::default();
    report.tracked_roots = count;
    report.warnings = warnings;
    Ok(
        Supervisor {
            trees,
            child_pids: sorted_unique(&collect_pids(&launch_report.initiated)),
            report,
            warning_keys,
            warnings_truncated,
        },
    )
}

} // verus!
