//! Planning a launch: what is launched, in which order, and on which CPUs.
use vstd::prelude::*;

use super::error::{LauncherError, LauncherErrorView};
use super::policy::{
    cpu_set_failure, encoded, exec_failure, io_mask, map_io_priority, validate_cpu_set,
    validate_exec_inputs,
};
use crate::discovery::types::{
    copy_strings, ApplicationView, DiscoveredApplication, DiscoveryReport, ReportView,
};
use crate::order::{copy_numbers, stable_sort, stable_sorted};
use crate::path::UnixPath;
use crate::registry::model::{
    AppRegistry, IoPriorityClass, PolicyView, RegisteredApplication, RegisteredView, RegistryView,
};
use crate::registry::validation::{registry_problem, validate_registry};
use crate::text::{distinct_texts, group_views, is_before, same_text, text_before, text_set, views};
use crate::topology::types::{CpuTopology, CpuTopologyView, TopologyClass};

verus! {

/// Current launch authority paired with validated registry policy.
#[derive(Debug, PartialEq, Eq)]
pub struct PlannedApplication {
    /// Stable explicit-registry and desktop-entry ID.
    pub desktop_id: String,
    /// Current desktop-entry display name.
    pub name: String,
    /// Current resolved executable, never registry snapshot metadata.
    pub executable: UnixPath,
    /// Current static arguments after safe Exec parsing.
    pub arguments: Vec<String>,
    /// Startup deadline in seconds relative to the start of this run.
    pub delay_seconds: u64,
    /// Absolute Linux nice value applied by the helper before exec.
    pub nice: i8,
    /// Linux I/O scheduling class applied by the helper before exec.
    pub io_class: IoPriorityClass,
    /// Per-class I/O priority, when required by the selected class.
    pub io_priority: Option<u8>,
    /// Whether supervisor mode must keep verified descendants on this affinity set.
    pub enforce_process_tree: bool,
}

/// A planned application by its contents.
pub struct PlannedView {
    pub desktop_id: Seq<char>,
    pub name: Seq<char>,
    pub executable: Seq<u8>,
    pub arguments: Seq<Seq<char>>,
    pub policy: PolicyView,
}

impl View for PlannedApplication {
    type V = PlannedView;

    open spec fn view(&self) -> PlannedView {
        PlannedView {
            desktop_id: self.desktop_id@,
            name: self.name@,
            executable: self.executable@,
            arguments: views(self.arguments@),
            policy: PolicyView {
                delay_seconds: self.delay_seconds,
                nice: self.nice,
                io_class: self.io_class,
                io_priority: self.io_priority,
                enforce_process_tree: self.enforce_process_tree,
            },
        }
    }
}

/// A complete, validated request to launch explicitly managed applications.
#[derive(Debug, PartialEq, Eq)]
pub struct LaunchPlan {
    /// Applications in deterministic desktop-ID order.
    pub applications: Vec<PlannedApplication>,
    /// The exact sorted E-core CPU list detected for this plan.
    pub efficiency_cpus: Vec<u32>,
}

/// A plan by its contents.
pub struct LaunchPlanView {
    pub applications: Seq<PlannedView>,
    pub efficiency_cpus: Seq<u32>,
}

impl View for LaunchPlan {
    type V = LaunchPlanView;

    open spec fn view(&self) -> LaunchPlanView {
        LaunchPlanView {
            applications: views(self.applications@),
            efficiency_cpus: self.efficiency_cpus@,
        }
    }
}

/// The registered application with an ID; of several, the last.
pub open spec fn registered_with(apps: Seq<RegisteredView>, id: Seq<char>) -> Option<RegisteredView>
    decreases apps.len(),
{
    if apps.len() == 0 {
        None
    } else if apps.last().desktop_id == id {
        Some(apps.last())
    } else {
        registered_with(apps.drop_last(), id)
    }
}

/// The discovered application with an ID; of several, the last.
pub open spec fn discovered_with(all: Seq<ApplicationView>, id: Seq<char>) -> Option<
    ApplicationView,
>
    decreases all.len(),
{
    if all.len() == 0 {
        None
    } else if all.last().desktop_id == id {
        Some(all.last())
    } else {
        discovered_with(all.drop_last(), id)
    }
}

fn find_registered<'a>(apps: &'a Vec<RegisteredApplication>, id: &str) -> (out: Option<
    &'a RegisteredApplication,
>)
    ensures
        match registered_with(views(apps@), id@) {
            Some(found) => out is Some && out->0@ == found,
            None => out is None,
        },
{
    let ghost all = views(apps@);
    let mut i: usize = apps.len();
    assert(all.take(all.len() as int) =~= all);
    while i > 0
        invariant
            i <= apps@.len(),
            all == views(apps@),
            registered_with(all, id@) == registered_with(all.take(i as int), id@),
        decreases i,
    {
        assert(all.take(i as int).last() == apps@[i - 1]@);
        assert(all.take(i as int).drop_last() =~= all.take(i - 1));
        i -= 1;
        if same_text(apps[i].desktop_id.as_str(), id) {
            return Some(&apps[i]);
        }
    }
    None
}

pub(crate) fn find_discovered<'a>(apps: &'a Vec<DiscoveredApplication>, id: &str) -> (out: Option<
    &'a DiscoveredApplication,
>)
    ensures
        match discovered_with(views(apps@), id@) {
            Some(found) => out is Some && out->0@ == found,
            None => out is None,
        },
{
    let ghost all = views(apps@);
    let mut i: usize = apps.len();
    assert(all.take(all.len() as int) =~= all);
    while i > 0
        invariant
            i <= apps@.len(),
            all == views(apps@),
            discovered_with(all, id@) == discovered_with(all.take(i as int), id@),
        decreases i,
    {
        assert(all.take(i as int).last() == apps@[i - 1]@);
        assert(all.take(i as int).drop_last() =~= all.take(i - 1));
        i -= 1;
        if same_text(apps[i].desktop_id.as_str(), id) {
            return Some(&apps[i]);
        }
    }
    None
}

/// The IDs of the enabled applications, in the registry's order.
pub open spec fn enabled_ids(apps: Seq<RegisteredView>) -> Seq<Seq<char>>
    decreases apps.len(),
{
    if apps.len() == 0 {
        Seq::empty()
    } else if apps.last().enabled {
        enabled_ids(apps.drop_last()).push(apps.last().desktop_id)
    } else {
        enabled_ids(apps.drop_last())
    }
}

/// The IDs that are asked for: those requested, or else the enabled ones, each
/// once and in order.
pub open spec fn wanted_ids(apps: Seq<RegisteredView>, requested: Seq<Seq<char>>) -> Seq<Seq<char>> {
    if requested.len() == 0 {
        text_set(enabled_ids(apps))
    } else {
        text_set(requested)
    }
}

/// Why an ID cannot be launched: it is not registered, or not enabled.
pub open spec fn selection_failure(apps: Seq<RegisteredView>, id: Seq<char>) -> Option<
    LauncherErrorView,
> {
    match registered_with(apps, id) {
        None => Some(LauncherErrorView::UnknownRegisteredApplication { desktop_id: id }),
        Some(found) => if found.enabled {
            None
        } else {
            Some(LauncherErrorView::DisabledApplication { desktop_id: id })
        },
    }
}

/// The first reason why some IDs cannot be launched.
pub open spec fn first_selection_failure(apps: Seq<RegisteredView>, ids: Seq<Seq<char>>) -> Option<
    LauncherErrorView,
>
    decreases ids.len(),
{
    if ids.len() == 0 {
        None
    } else if first_selection_failure(apps, ids.drop_last()) is Some {
        first_selection_failure(apps, ids.drop_last())
    } else {
        selection_failure(apps, ids.last())
    }
}

/// The IDs to launch.
pub open spec fn selected_ids(apps: Seq<RegisteredView>, requested: Seq<Seq<char>>) -> Result<
    Seq<Seq<char>>,
    LauncherErrorView,
> {
    let ids = wanted_ids(apps, requested);
    match first_selection_failure(apps, ids) {
        Some(e) => Err(e),
        None => Ok(ids),
    }
}

proof fn lemma_first_selection(apps: Seq<RegisteredView>, ids: Seq<Seq<char>>, k: int)
    requires
        0 <= k <= ids.len(),
        first_selection_failure(apps, ids.take(k)) is Some,
    ensures
        first_selection_failure(apps, ids) == first_selection_failure(apps, ids.take(k)),
    decreases ids.len(),
{
    if k < ids.len() {
        assert(ids.drop_last().take(k) =~= ids.take(k));
        lemma_first_selection(apps, ids.drop_last(), k);
    } else {
        assert(ids.take(k) =~= ids);
    }
}

pub(crate) fn collect_enabled(apps: &Vec<RegisteredApplication>) -> (out: Vec<String>)
    ensures
        views(out@) == enabled_ids(views(apps@)),
{
    broadcast use group_views;

    let ghost all = views(apps@);
    let mut out: Vec<String> = Vec::new();
    let mut i: usize = 0;
    assert(all.take(0) =~= Seq::empty());
    while i < apps.len()
        invariant
            i <= apps@.len(),
            all == views(apps@),
            views(out@) == enabled_ids(all.take(i as int)),
        decreases apps.len() - i,
    {
        assert(all.take(i + 1).drop_last() =~= all.take(i as int));
        assert(all.take(i + 1).last() == apps@[i as int]@);
        if apps[i].enabled {
            out.push(apps[i].desktop_id.clone());
        }
        i += 1;
    }
    assert(all.take(all.len() as int) =~= all);
    out
}

/// The IDs to launch: those requested, or else all that are enabled.
pub fn select_ids(registry: &AppRegistry, requested_ids: &Vec<String>) -> (out: Result<
    Vec<String>,
    LauncherError,
>)
    ensures
        match selected_ids(registry@.apps, views(requested_ids@)) {
            Ok(ids) => out matches Ok(found) && views(found@) == ids,
            Err(e) => out matches Err(error) && error@ == e,
        },
{
    let ghost apps = registry@.apps;
    assert(views(requested_ids@).len() == requested_ids@.len());
    let ids = if requested_ids.len() == 0 {
        distinct_texts(&collect_enabled(&registry.apps))
    } else {
        distinct_texts(requested_ids)
    };
    let ghost all = views(ids@);
    let mut i: usize = 0;
    assert(all.take(0) =~= Seq::empty());
    while i < ids.len()
        invariant
            i <= ids@.len(),
            all == views(ids@),
            apps == registry@.apps,
            apps == views(registry.apps@),
            all == wanted_ids(apps, views(requested_ids@)),
            first_selection_failure(apps, all.take(i as int)) is None,
        decreases ids.len() - i,
    {
        proof {
            assert(all.take(i + 1).drop_last() =~= all.take(i as int));
            assert(all.take(i + 1).last() == ids@[i as int]@);
        }
        match find_registered(&registry.apps, ids[i].as_str()) {
            None => {
                proof {
                    lemma_first_selection(apps, all, i + 1);
                }
                return Err(
                    LauncherError::UnknownRegisteredApplication { desktop_id: ids[i].clone() },
                );
            },
            Some(application) => {
                if !application.enabled {
                    proof {
                        lemma_first_selection(apps, all, i + 1);
                    }
                    return Err(LauncherError::DisabledApplication { desktop_id: ids[i].clone() });
                }
            },
        }
        i += 1;
    }
    assert(all.take(all.len() as int) =~= all);
    Ok(ids)
}

/// The planned application for an ID.
pub open spec fn planned(
    apps: Seq<RegisteredView>,
    current: Seq<ApplicationView>,
    id: Seq<char>,
) -> Result<PlannedView, LauncherErrorView> {
    match registered_with(apps, id) {
        None => Err(LauncherErrorView::UnknownRegisteredApplication { desktop_id: id }),
        Some(registered) => match discovered_with(current, id) {
            None => Err(LauncherErrorView::UnavailableApplication { desktop_id: id }),
            Some(application) => {
                let command = exec_failure(application.executable, encoded(application.arguments));
                let mask = io_mask(registered.policy.io_class, registered.policy.io_priority);
                if application.terminal {
                    Err(LauncherErrorView::TerminalApplication { desktop_id: id })
                } else if command is Some {
                    Err(command->0)
                } else if mask is Err {
                    Err(mask->Err_0)
                } else {
                    Ok(
                        PlannedView {
                            desktop_id: id,
                            name: application.name,
                            executable: application.executable,
                            arguments: application.arguments,
                            policy: registered.policy,
                        },
                    )
                }
            },
        },
    }
}

/// The planned applications for some IDs.
pub open spec fn all_planned(
    apps: Seq<RegisteredView>,
    current: Seq<ApplicationView>,
    ids: Seq<Seq<char>>,
) -> Result<Seq<PlannedView>, LauncherErrorView>
    decreases ids.len(),
{
    if ids.len() == 0 {
        Ok(Seq::empty())
    } else {
        match all_planned(apps, current, ids.drop_last()) {
            Err(e) => Err(e),
            Ok(front) => match planned(apps, current, ids.last()) {
                Err(e) => Err(e),
                Ok(last) => Ok(front.push(last)),
            },
        }
    }
}

proof fn lemma_all_planned_error(
    apps: Seq<RegisteredView>,
    current: Seq<ApplicationView>,
    ids: Seq<Seq<char>>,
    k: int,
)
    requires
        0 <= k <= ids.len(),
        all_planned(apps, current, ids.take(k)) is Err,
    ensures
        all_planned(apps, current, ids) == all_planned(apps, current, ids.take(k)),
    decreases ids.len(),
{
    if k < ids.len() {
        assert(ids.drop_last().take(k) =~= ids.take(k));
        lemma_all_planned_error(apps, current, ids.drop_last(), k);
    } else {
        assert(ids.take(k) =~= ids);
    }
}

/// The CPUs to launch on: those of a hybrid topology's efficiency cores.
pub open spec fn launch_cpus(topology: Option<CpuTopologyView>) -> Result<
    Seq<u32>,
    LauncherErrorView,
> {
    match topology {
        None => Err(
            LauncherErrorView::TopologyNotHybrid { classification: TopologyClass::Unknown },
        ),
        Some(topology) => if topology.classification != TopologyClass::Hybrid {
            Err(
                LauncherErrorView::TopologyNotHybrid { classification: topology.classification },
            )
        } else {
            match cpu_set_failure(topology.efficiency_cpus) {
                Some(e) => Err(e),
                None => Ok(topology.efficiency_cpus),
            }
        },
    }
}

/// The launch plan.
pub open spec fn launch_plan(
    registry: RegistryView,
    discovery: ReportView,
    topology: Option<CpuTopologyView>,
    requested: Seq<Seq<char>>,
) -> Result<LaunchPlanView, LauncherErrorView> {
    match registry_problem(registry) {
        Some(error) => Err(LauncherErrorView::InvalidRegistryPolicy { error }),
        None => match selected_ids(registry.apps, requested) {
            Err(e) => Err(e),
            Ok(ids) => if ids.len() == 0 {
                Ok(LaunchPlanView { applications: Seq::empty(), efficiency_cpus: Seq::empty() })
            } else {
                match all_planned(registry.apps, discovery.applications, ids) {
                    Err(e) => Err(e),
                    Ok(applications) => match launch_cpus(topology) {
                        Err(e) => Err(e),
                        Ok(efficiency_cpus) => Ok(LaunchPlanView { applications, efficiency_cpus }),
                    },
                }
            },
        },
    }
}

/// A plan or an error, by contents.
pub open spec fn launch_plan_outcome(out: Result<LaunchPlan, LauncherError>) -> Result<
    LaunchPlanView,
    LauncherErrorView,
> {
    match out {
        Ok(plan) => Ok(plan@),
        Err(e) => Err(e@),
    }
}

pub open spec fn optional_topology(topology: Option<&CpuTopology>) -> Option<CpuTopologyView> {
    match topology {
        Some(topology) => Some(topology@),
        None => None,
    }
}

fn plan_application(registry: &AppRegistry, discovery: &DiscoveryReport, id: &str) -> (out: Result<
    PlannedApplication,
    LauncherError,
>)
    ensures
        match planned(registry@.apps, discovery@.applications, id@) {
            Ok(one) => out matches Ok(found) && found@ == one,
            Err(e) => out matches Err(error) && error@ == e,
        },
{
    let registered = match find_registered(&registry.apps, id) {
        None => {
            return Err(LauncherError::UnknownRegisteredApplication { desktop_id: id.to_owned() });
        },
        Some(registered) => registered,
    };
    let application = match find_discovered(&discovery.applications, id) {
        None => {
            return Err(LauncherError::UnavailableApplication { desktop_id: id.to_owned() });
        },
        Some(application) => application,
    };
    if application.terminal {
        return Err(LauncherError::TerminalApplication { desktop_id: id.to_owned() });
    }
    match validate_exec_inputs(&application.executable, &application.arguments) {
        Ok(_) => {},
        Err(e) => {
            return Err(e);
        },
    }
    match map_io_priority(registered.io_class, registered.io_priority) {
        Ok(_) => {},
        Err(e) => {
            return Err(e);
        },
    }
    Ok(
        PlannedApplication {
            desktop_id: id.to_owned(),
            name: application.name.clone(),
            executable: application.executable.clone(),
            arguments: copy_strings(&application.arguments),
            delay_seconds: registered.delay_seconds,
            nice: registered.nice,
            io_class: registered.io_class,
            io_priority: registered.io_priority,
            enforce_process_tree: registered.enforce_process_tree,
        },
    )
}

fn plan_applications(registry: &AppRegistry, discovery: &DiscoveryReport, ids: &Vec<String>) -> (out:
    Result<Vec<PlannedApplication>, LauncherError>)
    ensures
        match all_planned(registry@.apps, discovery@.applications, views(ids@)) {
            Ok(all) => out matches Ok(found) && views(found@) == all,
            Err(e) => out matches Err(error) && error@ == e,
        },
{
    broadcast use group_views;

    let ghost all = views(ids@);
    let ghost apps = registry@.apps;
    let ghost current = discovery@.applications;
    let mut out: Vec<PlannedApplication> = Vec::new();
    let mut i: usize = 0;
    assert(all.take(0) =~= Seq::empty());
    while i < ids.len()
        invariant
            i <= ids@.len(),
            all == views(ids@),
            apps == registry@.apps,
            current == discovery@.applications,
            all_planned(apps, current, all.take(i as int)) == Ok::<
                Seq<PlannedView>,
                LauncherErrorView,
            >(views(out@)),
        decreases ids.len() - i,
    {
        proof {
            assert(all.take(i + 1).drop_last() =~= all.take(i as int));
            assert(all.take(i + 1).last() == ids@[i as int]@);
        }
        match plan_application(registry, discovery, ids[i].as_str()) {
            Ok(one) => {
                let ghost before = views(out@);
                out.push(one);
                assert(views(out@) == before.push(one@));
            },
            Err(e) => {
                proof {
                    lemma_all_planned_error(apps, current, all, i + 1);
                }
                return Err(e);
            },
        }
        i += 1;
    }
    assert(all.take(all.len() as int) =~= all);
    Ok(out)
}

fn choose_cpus(topology: Option<&CpuTopology>) -> (out: Result<Vec<u32>, LauncherError>)
    ensures
        match launch_cpus(optional_topology(topology)) {
            Ok(cpus) => out matches Ok(found) && found@ == cpus,
            Err(e) => out matches Err(error) && error@ == e,
        },
{
    let topology = match topology {
        None => {
            return Err(LauncherError::TopologyNotHybrid { classification: TopologyClass::Unknown });
        },
        Some(topology) => topology,
    };
    if topology.classification != TopologyClass::Hybrid {
        return Err(
            LauncherError::TopologyNotHybrid { classification: topology.classification },
        );
    }
    match validate_cpu_set(&topology.efficiency_cpus) {
        Ok(_) => Ok(copy_numbers(&topology.efficiency_cpus)),
        Err(e) => Err(e),
    }
}

/// Whether anything is to be launched, so that planning needs to know of the
/// applications and the CPUs.
pub fn selects_any(registry: &AppRegistry, requested_ids: &Vec<String>) -> (out: bool)
    ensures
        out == (requested_ids@.len() > 0 || enabled_ids(registry@.apps).len() > 0),
{
    let ghost apps = registry@.apps;
    if requested_ids.len() > 0 {
        return true;
    }
    let mut i: usize = 0;
    assert(apps.take(0) =~= Seq::empty());
    while i < registry.apps.len()
        invariant
            i <= registry.apps@.len(),
            apps == views(registry.apps@),
            enabled_ids(apps.take(i as int)).len() == 0,
        decreases registry.apps.len() - i,
    {
        assert(apps.take(i + 1).drop_last() =~= apps.take(i as int));
        assert(apps.take(i + 1).last() == registry.apps@[i as int]@);
        if registry.apps[i].enabled {
            proof {
                lemma_enabled_ids_grow(apps, i + 1);
            }
            return true;
        }
        i += 1;
    }
    assert(apps.take(apps.len() as int) =~= apps);
    false
}

proof fn lemma_enabled_ids_grow(apps: Seq<RegisteredView>, count: int)
    requires
        0 <= count <= apps.len(),
    ensures
        enabled_ids(apps.take(count)).len() <= enabled_ids(apps).len(),
    decreases apps.len(),
{
    if count < apps.len() {
        assert(apps.drop_last().take(count) =~= apps.take(count));
        lemma_enabled_ids_grow(apps.drop_last(), count);
    } else {
        assert(apps.take(count) =~= apps);
    }
}


/// Build a full plan before any child process is started.
pub fn build_launch_plan(
    registry: &AppRegistry,
    discovery: &DiscoveryReport,
    topology: Option<&CpuTopology>,
    requested_ids: &Vec<String>,
) -> (out: Result<LaunchPlan, LauncherError>)
    ensures
        launch_plan_outcome(out) == launch_plan(
            registry@,
            discovery@,
            optional_topology(topology),
            views(requested_ids@),
        ),
{
    match validate_registry(registry) {
        Ok(_) => {},
        Err(error) => {
            return Err(LauncherError::InvalidRegistryPolicy { error });
        },
    }
    let ids = match select_ids(registry, requested_ids) {
        Ok(ids) => ids,
        Err(e) => {
            return Err(e);
        },
    };
    assert(views(ids@).len() == ids@.len());
    if ids.len() == 0 {
        let plan = LaunchPlan { applications: Vec::new(), efficiency_cpus: Vec::new() };
        assert(plan@.applications =~= Seq::empty());
        assert(plan@.efficiency_cpus =~= Seq::empty());
        return Ok(plan);
    }
    let applications = match plan_applications(registry, discovery, &ids) {
        Ok(applications) => applications,
        Err(e) => {
            return Err(e);
        },
    };
    match choose_cpus(topology) {
        Ok(efficiency_cpus) => Ok(LaunchPlan { applications, efficiency_cpus }),
        Err(e) => Err(e),
    }
}

/// One deterministic launch deadline relative to the start of a run.
#[derive(Debug, PartialEq, Eq)]
pub struct ScheduledLaunch {
    /// Stable desktop ID.
    pub desktop_id: String,
    /// Deadline relative to the common run start.
    pub delay_seconds: u64,
}

/// A deadline by its contents.
pub struct ScheduledView {
    pub desktop_id: Seq<char>,
    pub delay_seconds: u64,
}

impl View for ScheduledLaunch {
    type V = ScheduledView;

    open spec fn view(&self) -> ScheduledView {
        ScheduledView { desktop_id: self.desktop_id@, delay_seconds: self.delay_seconds }
    }
}

pub open spec fn deadline_of() -> spec_fn(PlannedView) -> ScheduledView {
    |one: PlannedView|
        ScheduledView { desktop_id: one.desktop_id, delay_seconds: one.policy.delay_seconds }
}

/// Earlier deadlines first, those at the same time by ID.
pub open spec fn deadline_before() -> spec_fn(ScheduledView, ScheduledView) -> bool {
    |a: ScheduledView, b: ScheduledView|
        a.delay_seconds < b.delay_seconds || (a.delay_seconds == b.delay_seconds && text_before(
            a.desktop_id,
            b.desktop_id,
        ))
}

/// The deadlines of a plan, in order.
pub open spec fn schedule(plan: LaunchPlanView) -> Seq<ScheduledView> {
    stable_sorted(plan.applications.map_values(deadline_of()), deadline_before())
}

fn is_deadline_before(a: &ScheduledLaunch, b: &ScheduledLaunch) -> (before: bool)
    ensures
        before == deadline_before()(a@, b@),
{
    a.delay_seconds < b.delay_seconds || (a.delay_seconds == b.delay_seconds && is_before(
        a.desktop_id.as_str(),
        b.desktop_id.as_str(),
    ))
}

/// Return deterministic execution deadlines, ordered by delay and desktop ID.
pub fn launch_schedule(plan: &LaunchPlan) -> (out: Vec<ScheduledLaunch>)
    ensures
        views(out@) == schedule(plan@),
{
    broadcast use group_views;

    let ghost all = views(plan.applications@);
    let mut deadlines: Vec<ScheduledLaunch> = Vec::new();
    let mut i: usize = 0;
    assert(all.take(0).map_values(deadline_of()) =~= Seq::empty());
    while i < plan.applications.len()
        invariant
            i <= plan.applications@.len(),
            all == views(plan.applications@),
            views(deadlines@) == all.take(i as int).map_values(deadline_of()),
        decreases plan.applications.len() - i,
    {
        assert(all.take(i + 1).map_values(deadline_of()) =~= all.take(i as int).map_values(
            deadline_of(),
        ).push(deadline_of()(plan.applications@[i as int]@)));
        deadlines.push(
            ScheduledLaunch {
                desktop_id: plan.applications[i].desktop_id.clone(),
                delay_seconds: plan.applications[i].delay_seconds,
            },
        );
        i += 1;
    }
    assert(all.take(all.len() as int) =~= all);
    let ghost before = |a: ScheduledLaunch, b: ScheduledLaunch| deadline_before()(a@, b@);
    proof {
        crate::order::lemma_stable_sorted_map(
            deadlines@,
            |a: ScheduledLaunch| a@,
            before,
            deadline_before(),
        );
    }
    stable_sort(deadlines, is_deadline_before, Ghost(before))
}

} // verus!
