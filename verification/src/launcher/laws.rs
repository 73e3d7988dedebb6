//! What holds of launching as a whole.
use vstd::prelude::*;

use super::error::{FailureView, InitiatedView, LaunchReportView, LauncherErrorView};
use super::execution::{spawned, ExecutionView, SpawnOutcome};
use super::plan::{
    all_planned, deadline_before, deadline_of, discovered_with, enabled_ids,
    first_selection_failure, launch_plan, planned, registered_with, schedule, selected_ids,
    LaunchPlanView, PlannedView, ScheduledView,
};
use super::policy::{encoded, exec_failure, first_invalid_cpu, io_mask, CPU_SET_SIZE};
use crate::discovery::types::{ApplicationView, ReportView};
use crate::order::{
    in_order, lemma_stable_sorted_order, lemma_stable_sorted_permutes, strict_weak_order,
};
use crate::registry::model::{RegisteredView, RegistryView};
use crate::registry::validation::valid;
use crate::text::{
    lemma_before_irreflexive, lemma_before_total, lemma_before_transitive, lemma_text_set, text_set,
    texts_ascend,
};
use crate::topology::types::{CpuTopologyView, TopologyClass};

verus! {

proof fn lemma_all_planned(
    apps: Seq<RegisteredView>,
    current: Seq<ApplicationView>,
    ids: Seq<Seq<char>>,
)
    requires
        all_planned(apps, current, ids) is Ok,
    ensures
        all_planned(apps, current, ids)->Ok_0.len() == ids.len(),
        forall|k: int|
            0 <= k < ids.len() ==> planned(apps, current, ids[k]) == Ok::<
                PlannedView,
                LauncherErrorView,
            >(#[trigger] all_planned(apps, current, ids)->Ok_0[k]),
    decreases ids.len(),
{
    if ids.len() > 0 {
        lemma_all_planned(apps, current, ids.drop_last());
        let all = all_planned(apps, current, ids)->Ok_0;
        let front = all_planned(apps, current, ids.drop_last())->Ok_0;
        assert forall|k: int| 0 <= k < ids.len() implies planned(apps, current, ids[k]) == Ok::<
            PlannedView,
            LauncherErrorView,
        >(#[trigger] all[k]) by {
            if k < front.len() {
                assert(all[k] == front[k]);
                assert(ids[k] == ids.drop_last()[k]);
            }
        }
    }
}

proof fn lemma_selected(apps: Seq<RegisteredView>, ids: Seq<Seq<char>>, k: int)
    requires
        first_selection_failure(apps, ids) is None,
        0 <= k < ids.len(),
    ensures
        registered_with(apps, ids[k]) is Some,
        registered_with(apps, ids[k])->0.enabled,
    decreases ids.len(),
{
    if k < ids.len() - 1 {
        lemma_selected(apps, ids.drop_last(), k);
        assert(ids.drop_last()[k] == ids[k]);
    }
}

/// Everything in a plan is registered and enabled, currently discovered and
/// no terminal application; the command comes from discovery alone and the
/// policy from the registry alone.
pub proof fn plan_joins_authority_and_policy(
    registry: RegistryView,
    discovery: ReportView,
    topology: Option<CpuTopologyView>,
    requested: Seq<Seq<char>>,
    k: int,
)
    requires
        launch_plan(registry, discovery, topology, requested) is Ok,
        0 <= k < launch_plan(registry, discovery, topology, requested)->Ok_0.applications.len(),
    ensures
        valid(registry),
        ({
            let one = launch_plan(registry, discovery, topology, requested)->Ok_0.applications[k];
            &&& registered_with(registry.apps, one.desktop_id) matches Some(registered)
            &&& registered.enabled
            &&& one.policy == registered.policy
            &&& io_mask(one.policy.io_class, one.policy.io_priority) is Ok
            &&& discovered_with(discovery.applications, one.desktop_id) matches Some(application)
            &&& !application.terminal
            &&& one.name == application.name
            &&& one.executable == application.executable
            &&& one.arguments == application.arguments
            &&& exec_failure(one.executable, encoded(one.arguments)) is None
        }),
{
    let ids = selected_ids(registry.apps, requested)->Ok_0;
    lemma_all_planned(registry.apps, discovery.applications, ids);
    lemma_selected(registry.apps, ids, k);
    let one = launch_plan(registry, discovery, topology, requested)->Ok_0.applications[k];
    assert(one == all_planned(registry.apps, discovery.applications, ids)->Ok_0[k]);
}

/// A plan holds exactly the requested applications, or all enabled ones where
/// none is requested, each once and in the order of their IDs.
pub proof fn plan_holds_the_selection(
    registry: RegistryView,
    discovery: ReportView,
    topology: Option<CpuTopologyView>,
    requested: Seq<Seq<char>>,
)
    requires
        launch_plan(registry, discovery, topology, requested) is Ok,
    ensures
        ({
            let ids = launch_plan(
                registry,
                discovery,
                topology,
                requested,
            )->Ok_0.applications.map_values(|one: PlannedView| one.desktop_id);
            let wanted = if requested.len() == 0 {
                enabled_ids(registry.apps)
            } else {
                requested
            };
            &&& texts_ascend(ids)
            &&& forall|id: Seq<char>| #[trigger] ids.contains(id) <==> wanted.contains(id)
        }),
{
    let ids = selected_ids(registry.apps, requested)->Ok_0;
    let shown = launch_plan(registry, discovery, topology, requested)->Ok_0.applications.map_values(
        |one: PlannedView| one.desktop_id,
    );
    let wanted = if requested.len() == 0 {
        enabled_ids(registry.apps)
    } else {
        requested
    };
    lemma_text_set(wanted);
    if ids.len() > 0 {
        lemma_all_planned(registry.apps, discovery.applications, ids);
        let all = all_planned(registry.apps, discovery.applications, ids)->Ok_0;
        assert forall|k: int| 0 <= k < ids.len() implies #[trigger] shown[k] == ids[k] by {
            assert(planned(registry.apps, discovery.applications, ids[k]) == Ok::<
                PlannedView,
                LauncherErrorView,
            >(all[k]));
        }
    }
    assert(shown =~= ids);
}

proof fn lemma_cpus_fit(cpus: Seq<u32>, k: int)
    requires
        first_invalid_cpu(cpus) is None,
        0 <= k < cpus.len(),
    ensures
        cpus[k] < CPU_SET_SIZE,
    decreases cpus.len(),
{
    if k < cpus.len() - 1 {
        lemma_cpus_fit(cpus.drop_last(), k);
        assert(cpus.drop_last()[k] == cpus[k]);
    }
}

/// A plan with applications is made only for a confirmed hybrid topology, and
/// its CPUs are exactly the efficiency CPUs that were detected.
pub proof fn plan_uses_exactly_the_efficiency_cpus(
    registry: RegistryView,
    discovery: ReportView,
    topology: Option<CpuTopologyView>,
    requested: Seq<Seq<char>>,
)
    requires
        launch_plan(registry, discovery, topology, requested) is Ok,
        launch_plan(registry, discovery, topology, requested)->Ok_0.applications.len() > 0,
    ensures
        topology matches Some(found) && found.classification == TopologyClass::Hybrid && launch_plan(
            registry,
            discovery,
            topology,
            requested,
        )->Ok_0.efficiency_cpus == found.efficiency_cpus,
        launch_plan(registry, discovery, topology, requested)->Ok_0.efficiency_cpus.len() > 0,
        forall|k: int|
            0 <= k < launch_plan(
                registry,
                discovery,
                topology,
                requested,
            )->Ok_0.efficiency_cpus.len() ==> #[trigger] launch_plan(
                registry,
                discovery,
                topology,
                requested,
            )->Ok_0.efficiency_cpus[k] < CPU_SET_SIZE,
{
    let cpus = launch_plan(registry, discovery, topology, requested)->Ok_0.efficiency_cpus;
    assert forall|k: int| 0 <= k < cpus.len() implies #[trigger] cpus[k] < CPU_SET_SIZE by {
        lemma_cpus_fit(cpus, k);
    }
}

/// Without a confirmed hybrid topology nothing is launched: there is an error
/// or nothing to launch.
pub proof fn planning_fails_closed(
    registry: RegistryView,
    discovery: ReportView,
    topology: Option<CpuTopologyView>,
    requested: Seq<Seq<char>>,
)
    requires
        topology is None || topology->0.classification != TopologyClass::Hybrid
            || topology->0.efficiency_cpus.len() == 0,
    ensures
        launch_plan(registry, discovery, topology, requested) is Err || launch_plan(
            registry,
            discovery,
            topology,
            requested,
        )->Ok_0.applications.len() == 0,
{
}

/// Where nothing is enabled and nothing requested, planning succeeds with
/// nothing to launch, whatever the topology is.
pub proof fn nothing_to_launch_is_no_error(
    registry: RegistryView,
    discovery: ReportView,
    topology: Option<CpuTopologyView>,
)
    requires
        valid(registry),
        forall|k: int| 0 <= k < registry.apps.len() ==> !(#[trigger] registry.apps[k]).enabled,
    ensures
        launch_plan(registry, discovery, topology, Seq::empty()) == Ok::<
            LaunchPlanView,
            LauncherErrorView,
        >(LaunchPlanView { applications: Seq::empty(), efficiency_cpus: Seq::empty() }),
{
    lemma_none_enabled(registry.apps);
    assert(text_set(Seq::<Seq<char>>::empty()) =~= Seq::empty());
}

proof fn lemma_none_enabled(apps: Seq<RegisteredView>)
    requires
        forall|k: int| 0 <= k < apps.len() ==> !(#[trigger] apps[k]).enabled,
    ensures
        enabled_ids(apps) == Seq::<Seq<char>>::empty(),
    decreases apps.len(),
{
    if apps.len() > 0 {
        assert(!apps[apps.len() - 1].enabled);
        assert forall|k: int| 0 <= k < apps.drop_last().len() implies !(
        #[trigger] apps.drop_last()[k]).enabled by {
            assert(!apps[k].enabled);
        }
        lemma_none_enabled(apps.drop_last());
    }
}

proof fn lemma_deadline_order()
    ensures
        strict_weak_order(deadline_before()),
{
    let before = deadline_before();
    assert forall|a: ScheduledView, b: ScheduledView| #[trigger] before(a, b) implies !before(
        b,
        a,
    ) by {
        if a.delay_seconds == b.delay_seconds && before(b, a) {
            lemma_before_transitive(a.desktop_id, b.desktop_id, a.desktop_id);
            lemma_before_irreflexive(a.desktop_id);
        }
    }
    assert forall|a: ScheduledView, b: ScheduledView, c: ScheduledView|
        !(#[trigger] before(a, b)) && !(#[trigger] before(b, c)) implies !before(a, c) by {
        lemma_before_total(a.desktop_id, b.desktop_id);
        lemma_before_total(b.desktop_id, c.desktop_id);
        if before(a, c) && a.delay_seconds == c.delay_seconds {
            if a.desktop_id != b.desktop_id && b.desktop_id != c.desktop_id {
                lemma_before_transitive(c.desktop_id, b.desktop_id, a.desktop_id);
                lemma_before_transitive(a.desktop_id, c.desktop_id, a.desktop_id);
                lemma_before_irreflexive(a.desktop_id);
            }
        }
    }
}

/// A schedule holds the deadline of each application of the plan, in the order
/// of delay and ID.
pub proof fn schedule_is_ordered(plan: LaunchPlanView)
    ensures
        schedule(plan).to_multiset() == plan.applications.map_values(deadline_of()).to_multiset(),
        schedule(plan).len() == plan.applications.len(),
        in_order(schedule(plan), deadline_before()),
{
    lemma_deadline_order();
    lemma_stable_sorted_permutes(plan.applications.map_values(deadline_of()), deadline_before());
    lemma_stable_sorted_order(plan.applications.map_values(deadline_of()), deadline_before());
}

/// Execution stops at the first failure, and what was launched before stays in
/// the report.
pub proof fn failure_ends_execution(
    plan: LaunchPlanView,
    outcomes: Seq<Result<InitiatedView, FailureView>>,
    more: Seq<Result<InitiatedView, FailureView>>,
)
    requires
        ExecutionView::start(plan).after(outcomes).report.failure is Some,
    ensures
        ExecutionView::start(plan).after(outcomes + more) == ExecutionView::start(plan).after(
            outcomes,
        ),
    decreases more.len(),
{
    if more.len() == 0 {
        assert(outcomes + more =~= outcomes);
    } else {
        failure_ends_execution(plan, outcomes, more.drop_last());
        assert((outcomes + more).drop_last() =~= outcomes + more.drop_last());
    }
}

/// Where every launch succeeds, each of them is in the report, in the order of
/// the schedule, and there is no failure.
pub proof fn successes_are_reported(plan: LaunchPlanView, initiated: Seq<InitiatedView>)
    requires
        initiated.len() <= schedule(plan).len(),
    ensures
        ({
            let outcomes = initiated.map_values(
                |one: InitiatedView| Ok::<InitiatedView, FailureView>(one),
            );
            let end = ExecutionView::start(plan).after(outcomes);
            &&& end.report == (LaunchReportView { initiated, failure: None })
            &&& end.done == initiated.len()
            &&& end.schedule == schedule(plan)
        }),
    decreases initiated.len(),
{
    let wrap = |one: InitiatedView| Ok::<InitiatedView, FailureView>(one);
    let outcomes = initiated.map_values(wrap);
    if initiated.len() > 0 {
        successes_are_reported(plan, initiated.drop_last());
        assert(outcomes.drop_last() =~= initiated.drop_last().map_values(wrap));
        assert(initiated.drop_last().push(initiated.last()) =~= initiated);
    } else {
        assert(initiated =~= Seq::empty());
    }
}

/// What became of the applications of a schedule, in its order.
pub open spec fn scheduled_outcomes(
    scheduled: Seq<ScheduledView>,
    seen: Seq<SpawnOutcome>,
) -> Seq<Result<InitiatedView, FailureView>> {
    Seq::new(seen.len(), |k: int| spawned(scheduled[k].desktop_id, seen[k]))
}

/// A report tells of the applications of a schedule in its order: of those
/// that were started, and of the next one where it failed. Where none failed,
/// it tells of as many as were tried.
pub open spec fn report_follows(
    scheduled: Seq<ScheduledView>,
    seen: Seq<SpawnOutcome>,
    report: LaunchReportView,
) -> bool {
    let count = report.initiated.len();
    &&& count <= scheduled.len()
    &&& count <= seen.len()
    &&& forall|i: int|
        0 <= i < count ==> {
            let one = #[trigger] report.initiated[i];
            &&& one.desktop_id == scheduled[i].desktop_id
            &&& one.exec_succeeded
            &&& Ok::<InitiatedView, FailureView>(one) == spawned(scheduled[i].desktop_id, seen[i])
        }
    &&& match report.failure {
        Some(failure) => {
            &&& count < scheduled.len()
            &&& count < seen.len()
            &&& failure.desktop_id == scheduled[count as int].desktop_id
            &&& Err::<InitiatedView, FailureView>(failure) == spawned(
                scheduled[count as int].desktop_id,
                seen[count as int],
            )
        },
        None => count == seen.len() || count == scheduled.len(),
    }
}

/// The report of an execution lists exactly the applications that were
/// scheduled before the failure, and the failure names the next one.
pub proof fn reports_follow_the_schedule(
    plan: LaunchPlanView,
    outcomes: Seq<Result<InitiatedView, FailureView>>,
    seen: Seq<SpawnOutcome>,
)
    requires
        outcomes.len() == seen.len(),
        forall|k: int|
            0 <= k < outcomes.len() && k < schedule(plan).len() ==> #[trigger] outcomes[k]
                == spawned(schedule(plan)[k].desktop_id, seen[k]),
    ensures
        report_follows(schedule(plan), seen, ExecutionView::start(plan).after(outcomes).report),
        ExecutionView::start(plan).after(outcomes).schedule == schedule(plan),
        ({
            let execution = ExecutionView::start(plan).after(outcomes);
            execution.done == execution.report.initiated.len() + (if execution.report.failure
                is Some {
                1int
            } else {
                0int
            })
        }),
    decreases outcomes.len(),
{
    let scheduled = schedule(plan);
    if outcomes.len() > 0 {
        let front = outcomes.drop_last();
        let last = outcomes.len() - 1;
        assert forall|k: int| 0 <= k < front.len() && k < scheduled.len() implies #[trigger] front[k]
            == spawned(scheduled[k].desktop_id, seen.drop_last()[k]) by {
            assert(front[k] == outcomes[k]);
        }
        reports_follow_the_schedule(plan, front, seen.drop_last());
        let before = ExecutionView::start(plan).after(front);
        let after = ExecutionView::start(plan).after(outcomes);
        assert(after == before.next(outcomes[last]));
        if !before.is_finished() {
            assert(before.done == last);
            assert(outcomes[last] == spawned(scheduled[last].desktop_id, seen[last]));
        }
        assert forall|i: int| 0 <= i < after.report.initiated.len() implies {
            let one = #[trigger] after.report.initiated[i];
            &&& one.desktop_id == scheduled[i].desktop_id
            &&& one.exec_succeeded
            &&& Ok::<InitiatedView, FailureView>(one) == spawned(scheduled[i].desktop_id, seen[i])
        } by {
            if i < before.report.initiated.len() {
                assert(after.report.initiated[i] == before.report.initiated[i]);
                assert(seen.drop_last()[i] == seen[i]);
            }
        }
    }
}

/// What is recorded of one start after the other is what becomes of the
/// applications of the schedule, in its order, so that the report follows the
/// schedule.
pub proof fn recorded_starts_follow_the_schedule(plan: LaunchPlanView, seen: Seq<SpawnOutcome>)
    ensures
        ExecutionView::start(plan).recorded_all(seen) == ExecutionView::start(plan).after(
            scheduled_outcomes(schedule(plan), seen),
        ),
        report_follows(
            schedule(plan),
            seen,
            ExecutionView::start(plan).recorded_all(seen).report,
        ),
    decreases seen.len(),
{
    let outcomes = scheduled_outcomes(schedule(plan), seen);
    reports_follow_the_schedule(plan, outcomes, seen);
    if seen.len() > 0 {
        let front = seen.drop_last();
        recorded_starts_follow_the_schedule(plan, front);
        assert(outcomes.drop_last() =~= scheduled_outcomes(schedule(plan), front));
        reports_follow_the_schedule(plan, outcomes.drop_last(), front);
    }
}

} // verus!
