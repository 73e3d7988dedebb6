//! What launching makes of its inputs: which CPUs, commands and priorities it
//! takes, and when there is a plan.
use vstd::prelude::*;

use super::acknowledgement::{bytes_after, read_verdict, ReadEvent, ReadVerdictView};
use super::error::{LaunchFailureStage, LauncherErrorView};
use super::execution::{cpu_words, deadline_failure, planned_position, spawned, SpawnOutcome};
use super::helper::{HelperEvent, HelperPhaseView, HelperView};
use super::plan::{
    all_planned, discovered_with, enabled_ids, first_selection_failure, launch_plan, planned,
    registered_with, wanted_ids, PlannedView, ScheduledView,
};
use super::policy::{
    arguments_failure, cpu_set_failure, encoded, exec_failure, first_invalid_cpu, first_nul,
    held_cpus, io_mask, members_below, CPU_SET_SIZE,
};
use crate::discovery::types::{ApplicationView, ReportView};
use crate::order::ascending;
use crate::registry::model::{IoPriorityClass, RegisteredView, RegistryView};
use crate::registry::validation::registry_problem;
use crate::text::{decimal, lemma_text_set};
use crate::topology::types::{CpuTopologyView, TopologyClass};

verus! {

/// CPUs make an affinity set exactly where there is one and each is below
/// 1024. Else the first one that is not is named.
pub proof fn affinity_sets_hold_what_fits(cpus: Seq<u32>)
    ensures
        cpu_set_failure(cpus) is None <==> cpus.len() > 0 && forall|k: int|
            0 <= k < cpus.len() ==> #[trigger] cpus[k] < 1024,
        cpus.len() == 0 <==> cpu_set_failure(cpus) == Some(LauncherErrorView::EmptyEfficiencyCpus),
        cpus.len() > 0 && cpu_set_failure(cpus) is Some ==> exists|k: int|
            0 <= k < cpus.len() && #[trigger] cpus[k] >= 1024 && (forall|j: int|
                0 <= j < k ==> #[trigger] cpus[j] < 1024) && (cpu_set_failure(
                cpus,
            )->0 matches LauncherErrorView::InvalidAffinityCpu { cpu, .. } && cpu == cpus[k]),
{
    lemma_first_invalid_cpu(cpus);
}

proof fn lemma_first_invalid_cpu(cpus: Seq<u32>)
    ensures
        match first_invalid_cpu(cpus) {
            None => forall|k: int| 0 <= k < cpus.len() ==> #[trigger] cpus[k] < 1024,
            Some(e) => exists|k: int|
                0 <= k < cpus.len() && #[trigger] cpus[k] >= 1024 && (forall|j: int|
                    0 <= j < k ==> #[trigger] cpus[j] < 1024) && (
                e matches LauncherErrorView::InvalidAffinityCpu { cpu, .. } && cpu == cpus[k]),
        },
    decreases cpus.len(),
{
    if cpus.len() > 0 {
        let front = cpus.drop_last();
        lemma_first_invalid_cpu(front);
        assert forall|k: int| 0 <= k < front.len() implies front[k] == cpus[k] by {}
        assert(cpus[cpus.len() - 1] == cpus.last());
        match first_invalid_cpu(front) {
            Some(e) => {
                let k = choose|k: int|
                    0 <= k < front.len() && #[trigger] front[k] >= 1024 && (forall|j: int|
                        0 <= j < k ==> #[trigger] front[j] < 1024) && (
                    e matches LauncherErrorView::InvalidAffinityCpu { cpu, .. } && cpu == front[k]);
                assert forall|j: int| 0 <= j < k implies #[trigger] cpus[j] < 1024 by {
                    assert(front[j] < 1024);
                }
                assert(cpus[k] >= 1024);
            },
            None => {
                assert forall|j: int| 0 <= j < front.len() implies #[trigger] cpus[j] < 1024 by {
                    assert(front[j] < 1024);
                }
            },
        }
    }
}

/// The members of a set below a bound are listed each once, in order, and
/// nothing else is.
pub proof fn members_are_listed_once(set: Set<int>, bound: int, cpu: u32)
    requires
        bound <= CPU_SET_SIZE,
    ensures
        members_below(set, bound).contains(cpu) <==> cpu < bound && set.contains(cpu as int),
        ascending(members_below(set, bound)),
        forall|k: int|
            0 <= k < members_below(set, bound).len() ==> #[trigger] members_below(set, bound)[k]
                < bound,
    decreases bound,
{
    if bound > 0 {
        let front = members_below(set, bound - 1);
        let all = members_below(set, bound);
        members_are_listed_once(set, bound - 1, cpu);
        if set.contains(bound - 1) {
            assert(all[all.len() - 1] == bound - 1);
            if front.contains(cpu) {
                let k = choose|k: int| 0 <= k < front.len() && front[k] == cpu;
                assert(all[k] == cpu);
            }
            if all.contains(cpu) {
                let k = choose|k: int| 0 <= k < all.len() && all[k] == cpu;
                if k < front.len() {
                    assert(front[k] == cpu);
                }
            }
            if cpu == bound - 1 {
                assert(all.contains(cpu));
            }
        }
    }
}

/// The number of a class in the kernel's notation of I/O priorities.
pub open spec fn kernel_class(class: IoPriorityClass) -> int {
    match class {
        IoPriorityClass::Unset => 0,
        IoPriorityClass::Realtime => 1,
        IoPriorityClass::BestEffort => 2,
        IoPriorityClass::Idle => 3,
    }
}

/// The mask of an I/O priority has the number of the class above its thirteen
/// bits and the level, or zero, in them. There is none exactly for the class
/// that leaves the priority alone, and a policy is refused where the class
/// wants a level below eight and has none, or has one and wants none.
pub proof fn masks_tell_class_and_level(class: IoPriorityClass, priority: Option<u8>)
    ensures
        ({
            let wants_level = class == IoPriorityClass::BestEffort || class
                == IoPriorityClass::Realtime;
            let fits = if wants_level {
                priority is Some && priority->0 < 8
            } else {
                priority is None
            };
            &&& io_mask(class, priority) is Ok <==> fits
            &&& fits ==> (io_mask(class, priority)->Ok_0 is None <==> class
                == IoPriorityClass::Unset)
            &&& fits && class != IoPriorityClass::Unset ==> {
                let mask = io_mask(class, priority)->Ok_0->0;
                &&& mask as int / 0x2000 == kernel_class(class)
                &&& mask as int % 0x2000 == (if wants_level {
                    priority->0 as int
                } else {
                    0
                })
            }
            &&& !fits ==> io_mask(class, priority)->Err_0 == (LauncherErrorView::InvalidIoPolicy {
                class,
                priority,
            })
        }),
{
}

/// Bytes hold a zero.
pub open spec fn has_zero(bytes: Seq<u8>) -> bool {
    exists|i: int| 0 <= i < bytes.len() && #[trigger] bytes[i] == 0
}

proof fn lemma_first_nul(bytes: Seq<u8>, from: int)
    requires
        0 <= from <= bytes.len(),
    ensures
        match first_nul(bytes, from) {
            None => forall|i: int| from <= i < bytes.len() ==> #[trigger] bytes[i] != 0,
            Some(at) => from <= at < bytes.len() && bytes[at] == 0 && forall|i: int|
                from <= i < at ==> #[trigger] bytes[i] != 0,
        },
    decreases bytes.len() - from,
{
    if from < bytes.len() && bytes[from] != 0 {
        lemma_first_nul(bytes, from + 1);
    }
}

proof fn lemma_arguments(arguments: Seq<Seq<u8>>)
    ensures
        arguments_failure(arguments) is None <==> forall|k: int|
            0 <= k < arguments.len() ==> !has_zero(#[trigger] arguments[k]),
    decreases arguments.len(),
{
    if arguments.len() > 0 {
        let front = arguments.drop_last();
        lemma_arguments(front);
        lemma_first_nul(arguments.last(), 0);
        assert(arguments[arguments.len() - 1] == arguments.last());
        assert forall|k: int| 0 <= k < front.len() implies front[k] == arguments[k] by {}
        if arguments_failure(arguments) is None {
            assert forall|k: int| 0 <= k < arguments.len() implies !has_zero(
                #[trigger] arguments[k],
            ) by {
                if k < front.len() {
                    assert(!has_zero(front[k]));
                }
            }
        }
        if forall|k: int| 0 <= k < arguments.len() ==> !has_zero(#[trigger] arguments[k]) {
            assert forall|k: int| 0 <= k < front.len() implies !has_zero(#[trigger] front[k]) by {
                assert(!has_zero(arguments[k]));
            }
            assert(!has_zero(arguments.last()));
            if first_nul(arguments.last(), 0) is Some {
                assert(arguments.last()[first_nul(arguments.last(), 0)->0] == 0);
            }
        }
    }
}

/// A command can be passed on exactly where neither the program nor an
/// argument holds a zero byte. A program that holds one is named, with the
/// place of the first.
pub proof fn commands_hold_no_zero(executable: Seq<u8>, arguments: Seq<Seq<u8>>)
    ensures
        exec_failure(executable, arguments) is None <==> !has_zero(executable) && forall|k: int|
            0 <= k < arguments.len() ==> !has_zero(#[trigger] arguments[k]),
        has_zero(executable) ==> (exec_failure(
            executable,
            arguments,
        ) matches Some(LauncherErrorView::InvalidExecArgument { field, position }) && field
            == "executable"@ && 0 <= position < executable.len() && executable[position] == 0
            && forall|i: int| 0 <= i < position ==> #[trigger] executable[i] != 0),
{
    lemma_first_nul(executable, 0);
    lemma_arguments(arguments);
    if first_nul(executable, 0) is Some {
        assert(executable[first_nul(executable, 0)->0] == 0);
    }
}

/// The application that is registered under an ID is the last one that has it.
pub proof fn registered_is_found_by_id(apps: Seq<RegisteredView>, id: Seq<char>)
    ensures
        match registered_with(apps, id) {
            None => forall|k: int| 0 <= k < apps.len() ==> (#[trigger] apps[k]).desktop_id != id,
            Some(found) => exists|k: int|
                0 <= k < apps.len() && #[trigger] apps[k] == found && found.desktop_id == id
                    && forall|j: int| k < j < apps.len() ==> (#[trigger] apps[j]).desktop_id != id,
        },
    decreases apps.len(),
{
    if apps.len() > 0 {
        let front = apps.drop_last();
        registered_is_found_by_id(front, id);
        assert(apps[apps.len() - 1] == apps.last());
        assert forall|k: int| 0 <= k < front.len() implies front[k] == apps[k] by {}
        if apps.last().desktop_id != id {
            match registered_with(front, id) {
                Some(found) => {
                    let k = choose|k: int|
                        0 <= k < front.len() && #[trigger] front[k] == found && found.desktop_id
                            == id && forall|j: int|
                            k < j < front.len() ==> (#[trigger] front[j]).desktop_id != id;
                    assert forall|j: int| k < j < apps.len() implies (#[trigger] apps[j]).desktop_id
                        != id by {
                        if j < front.len() {
                            assert(front[j].desktop_id != id);
                        }
                    }
                    assert(apps[k] == found);
                },
                None => {
                    assert forall|k: int| 0 <= k < apps.len() implies (
                    #[trigger] apps[k]).desktop_id != id by {
                        if k < front.len() {
                            assert(front[k].desktop_id != id);
                        }
                    }
                },
            }
        }
    }
}

/// The application that was discovered under an ID is the last one that has
/// it.
pub proof fn discovered_is_found_by_id(all: Seq<ApplicationView>, id: Seq<char>)
    ensures
        match discovered_with(all, id) {
            None => forall|k: int| 0 <= k < all.len() ==> (#[trigger] all[k]).desktop_id != id,
            Some(found) => exists|k: int|
                0 <= k < all.len() && #[trigger] all[k] == found && found.desktop_id == id
                    && forall|j: int| k < j < all.len() ==> (#[trigger] all[j]).desktop_id != id,
        },
    decreases all.len(),
{
    if all.len() > 0 {
        let front = all.drop_last();
        discovered_is_found_by_id(front, id);
        assert(all[all.len() - 1] == all.last());
        assert forall|k: int| 0 <= k < front.len() implies front[k] == all[k] by {}
        if all.last().desktop_id != id {
            match discovered_with(front, id) {
                Some(found) => {
                    let k = choose|k: int|
                        0 <= k < front.len() && #[trigger] front[k] == found && found.desktop_id
                            == id && forall|j: int|
                            k < j < front.len() ==> (#[trigger] front[j]).desktop_id != id;
                    assert forall|j: int| k < j < all.len() implies (#[trigger] all[j]).desktop_id
                        != id by {
                        if j < front.len() {
                            assert(front[j].desktop_id != id);
                        }
                    }
                    assert(all[k] == found);
                },
                None => {
                    assert forall|k: int| 0 <= k < all.len() implies (
                    #[trigger] all[k]).desktop_id != id by {
                        if k < front.len() {
                            assert(front[k].desktop_id != id);
                        }
                    }
                },
            }
        }
    }
}

/// The enabled IDs are those of the applications that are enabled.
pub proof fn enabled_ids_are_those_enabled(apps: Seq<RegisteredView>, id: Seq<char>)
    ensures
        enabled_ids(apps).contains(id) <==> exists|k: int|
            0 <= k < apps.len() && (#[trigger] apps[k]).enabled && apps[k].desktop_id == id,
    decreases apps.len(),
{
    if apps.len() > 0 {
        let front = apps.drop_last();
        let earlier = enabled_ids(front);
        let now = enabled_ids(apps);
        enabled_ids_are_those_enabled(front, id);
        assert(apps[apps.len() - 1] == apps.last());
        assert forall|k: int| 0 <= k < front.len() implies front[k] == apps[k] by {}
        if earlier.contains(id) {
            let j = choose|j: int| 0 <= j < earlier.len() && earlier[j] == id;
            assert(now[j] == id);
            let k = choose|k: int|
                0 <= k < front.len() && (#[trigger] front[k]).enabled && front[k].desktop_id == id;
            assert(apps[k].enabled);
        }
        if apps.last().enabled {
            assert(now[now.len() - 1] == apps.last().desktop_id);
        }
        if now.contains(id) {
            let j = choose|j: int| 0 <= j < now.len() && now[j] == id;
            if j < earlier.len() {
                assert(earlier[j] == id);
            }
        }
        if exists|k: int|
            0 <= k < apps.len() && (#[trigger] apps[k]).enabled && apps[k].desktop_id == id {
            let k = choose|k: int|
                0 <= k < apps.len() && (#[trigger] apps[k]).enabled && apps[k].desktop_id == id;
            if k < front.len() {
                assert(front[k].enabled);
            }
        }
    }
}

/// An application that is asked for can be launched.
pub open spec fn launchable(
    apps: Seq<RegisteredView>,
    current: Seq<ApplicationView>,
    id: Seq<char>,
) -> bool {
    &&& registered_with(apps, id) matches Some(registered)
    &&& registered.enabled
    &&& io_mask(registered.policy.io_class, registered.policy.io_priority) is Ok
    &&& discovered_with(current, id) matches Some(application)
    &&& !application.terminal
    &&& exec_failure(application.executable, encoded(application.arguments)) is None
}

proof fn lemma_selection(apps: Seq<RegisteredView>, ids: Seq<Seq<char>>)
    ensures
        first_selection_failure(apps, ids) is None <==> forall|k: int|
            0 <= k < ids.len() ==> enabled_there(apps, #[trigger] ids[k]),
    decreases ids.len(),
{
    if ids.len() > 0 {
        let front = ids.drop_last();
        lemma_selection(apps, front);
        assert(ids[ids.len() - 1] == ids.last());
        if first_selection_failure(apps, ids) is None {
            assert forall|k: int| 0 <= k < ids.len() implies enabled_there(
                apps,
                #[trigger] ids[k],
            ) by {
                if k < front.len() {
                    assert(front[k] == ids[k]);
                }
            }
        }
        if forall|k: int| 0 <= k < ids.len() ==> enabled_there(apps, #[trigger] ids[k]) {
            assert forall|k: int| 0 <= k < front.len() implies enabled_there(
                apps,
                #[trigger] front[k],
            ) by {
                assert(front[k] == ids[k]);
            }
            assert(enabled_there(apps, ids.last()));
        }
    }
}

/// An ID is registered, and its application enabled.
pub open spec fn enabled_there(apps: Seq<RegisteredView>, id: Seq<char>) -> bool {
    registered_with(apps, id) matches Some(registered) && registered.enabled
}

proof fn lemma_planned(
    apps: Seq<RegisteredView>,
    current: Seq<ApplicationView>,
    ids: Seq<Seq<char>>,
)
    requires
        forall|k: int| 0 <= k < ids.len() ==> enabled_there(apps, #[trigger] ids[k]),
    ensures
        all_planned(apps, current, ids) is Ok <==> forall|k: int|
            0 <= k < ids.len() ==> launchable(apps, current, #[trigger] ids[k]),
    decreases ids.len(),
{
    if ids.len() > 0 {
        let front = ids.drop_last();
        assert forall|k: int| 0 <= k < front.len() implies enabled_there(
            apps,
            #[trigger] front[k],
        ) by {
            assert(front[k] == ids[k]);
        }
        lemma_planned(apps, current, front);
        assert(ids[ids.len() - 1] == ids.last());
        assert(planned(apps, current, ids.last()) is Ok <==> launchable(apps, current, ids.last()));
        if all_planned(apps, current, ids) is Ok {
            assert forall|k: int| 0 <= k < ids.len() implies launchable(
                apps,
                current,
                #[trigger] ids[k],
            ) by {
                if k < front.len() {
                    assert(front[k] == ids[k]);
                }
            }
        }
        if forall|k: int| 0 <= k < ids.len() ==> launchable(apps, current, #[trigger] ids[k]) {
            assert forall|k: int| 0 <= k < front.len() implies launchable(
                apps,
                current,
                #[trigger] front[k],
            ) by {
                assert(front[k] == ids[k]);
            }
        }
    }
}

/// A topology has efficiency CPUs to launch on.
pub open spec fn offers_cpus(topology: Option<CpuTopologyView>) -> bool {
    &&& topology matches Some(found)
    &&& found.classification == TopologyClass::Hybrid
    &&& found.efficiency_cpus.len() > 0
    &&& forall|k: int| 0 <= k < found.efficiency_cpus.len() ==> #[trigger] found.efficiency_cpus[k]
        < 1024
}

/// For a registry without a problem there is a plan exactly where every
/// application that is asked for is registered, enabled, discovered, no
/// terminal application and fit to be passed on, and the topology offers CPUs.
/// The topology does not matter where nothing is asked for.
pub proof fn plans_are_made_where_all_can_be_launched(
    registry: RegistryView,
    discovery: ReportView,
    topology: Option<CpuTopologyView>,
    requested: Seq<Seq<char>>,
)
    ensures
        ({
            let ids = wanted_ids(registry.apps, requested);
            let plan = launch_plan(registry, discovery, topology, requested);
            &&& plan is Ok <==> registry_problem(registry) is None && (ids.len() == 0 || (
            offers_cpus(topology) && forall|k: int|
                0 <= k < ids.len() ==> launchable(
                    registry.apps,
                    discovery.applications,
                    #[trigger] ids[k],
                )))
            &&& forall|id: Seq<char>| #[trigger]
                ids.contains(id) <==> if requested.len() == 0 {
                    enabled_ids(registry.apps).contains(id)
                } else {
                    requested.contains(id)
                }
        }),
{
    let ids = wanted_ids(registry.apps, requested);
    lemma_text_set(enabled_ids(registry.apps));
    lemma_text_set(requested);
    lemma_selection(registry.apps, ids);
    if first_selection_failure(registry.apps, ids) is None {
        lemma_planned(registry.apps, discovery.applications, ids);
    } else {
        let k = choose|k: int|
            0 <= k < ids.len() && !enabled_there(registry.apps, #[trigger] ids[k]);
        assert(!launchable(registry.apps, discovery.applications, ids[k]));
    }
    if topology is Some {
        affinity_sets_hold_what_fits(topology->0.efficiency_cpus);
    }
}

/// Each CPU has its own option on the helper's command line, in order.
pub proof fn every_cpu_is_passed_on(cpus: Seq<u32>, k: int)
    requires
        0 <= k < cpus.len(),
    ensures
        cpu_words(cpus).len() == 2 * cpus.len(),
        cpu_words(cpus)[2 * k] == "--cpu"@,
        cpu_words(cpus)[2 * k + 1] == decimal(cpus[k] as nat),
    decreases cpus.len(),
{
    let front = cpus.drop_last();
    if front.len() > 0 {
        every_cpu_is_passed_on(front, if k < front.len() {
            k
        } else {
            0
        });
        if k < front.len() {
            assert(front[k] == cpus[k]);
        }
    } else {
        assert(cpu_words(front) =~= Seq::empty());
    }
}

/// A schedule can be kept exactly where each of its deadlines can.
pub proof fn schedules_need_every_deadline(all: Seq<ScheduledView>, representable: Seq<bool>)
    requires
        representable.len() == all.len(),
    ensures
        deadline_failure(all, representable) is None <==> forall|k: int|
            0 <= k < all.len() ==> #[trigger] representable[k],
{
    lemma_deadlines(all, representable);
}

proof fn lemma_deadlines(all: Seq<ScheduledView>, representable: Seq<bool>)
    requires
        representable.len() >= all.len(),
    ensures
        deadline_failure(all, representable) is None <==> forall|k: int|
            0 <= k < all.len() ==> #[trigger] representable[k],
    decreases all.len(),
{
    if all.len() > 0 {
        lemma_deadlines(all.drop_last(), representable);
    }
}

/// The application that comes next is the one of the plan that has the
/// scheduled ID.
pub proof fn positions_are_those_of_the_id(applications: Seq<PlannedView>, id: Seq<char>)
    ensures
        match planned_position(applications, id) {
            Some(at) => 0 <= at < applications.len() && applications[at].desktop_id == id,
            None => forall|k: int|
                0 <= k < applications.len() ==> (#[trigger] applications[k]).desktop_id != id,
        },
    decreases applications.len(),
{
    if applications.len() > 0 {
        let front = applications.drop_last();
        positions_are_those_of_the_id(front, id);
        if planned_position(applications, id) is None {
            assert forall|k: int| 0 <= k < applications.len() implies (
            #[trigger] applications[k]).desktop_id != id by {
                if k < front.len() {
                    assert(front[k].desktop_id != id);
                }
            }
        }
    }
}

/// A helper whose settings are all confirmed says that it is ready and then
/// becomes the target: after the affinity, the nice value and, where one is
/// asked for, the I/O priority.
pub proof fn confirmed_helpers_become_the_target(
    start: HelperView,
    requested: nix::sched::CpuSet,
    actual: nix::sched::CpuSet,
)
    requires
        start.phase == (HelperPhaseView::SetAffinity { requested }),
        held_cpus(actual) == held_cpus(requested),
        io_mask(start.io_class, start.io_priority) is Ok,
    ensures
        ({
            let bound = start.next(HelperEvent::Succeeded).next(HelperEvent::Affinity(actual));
            let niced = bound.next(HelperEvent::Succeeded).next(
                HelperEvent::Nice(start.nice as i32),
            );
            let done = match io_mask(start.io_class, start.io_priority)->Ok_0 {
                None => niced,
                Some(mask) => niced.next(HelperEvent::Succeeded).next(
                    HelperEvent::IoPriority(mask),
                ),
            };
            &&& bound.phase is SetNice
            &&& done.phase is SendReady
            &&& done.next(HelperEvent::Succeeded).phase is Exec
        }),
{
}

/// A setting that is read back otherwise than asked for is not accepted: the
/// failure that the helper sends says what was asked for and what was read.
pub proof fn mismatches_are_sent(
    state: HelperView,
    requested: nix::sched::CpuSet,
    actual: nix::sched::CpuSet,
    nice: i32,
    mask: u16,
    read: u16,
)
    ensures
        state.phase == (HelperPhaseView::ReadAffinity { requested }) && held_cpus(actual)
            != held_cpus(requested) ==> (state.next(
            HelperEvent::Affinity(actual),
        ).phase matches HelperPhaseView::SendFailure { error } && error is AffinityMismatch),
        state.phase is ReadNice && nice != state.nice ==> state.next(HelperEvent::Nice(nice)).phase
            == (HelperPhaseView::SendFailure {
            error: LauncherErrorView::NiceMismatch { requested: state.nice, actual: nice },
        }),
        state.phase == (HelperPhaseView::ReadIoPriority { mask }) && read != mask ==> state.next(
            HelperEvent::IoPriority(read),
        ).phase == (HelperPhaseView::SendFailure {
            error: LauncherErrorView::IoPriorityMismatch { requested: mask, actual: read },
        }),
{
}

/// What is read of an acknowledgement is accepted exactly as long as it has no
/// more than 16384 bytes, and the reader waits until the time is over.
pub proof fn acknowledgements_are_bounded(bytes: Seq<u8>, event: ReadEvent, timeout_ms: u128)
    ensures
        ({
            let verdict = read_verdict(bytes, event, timeout_ms);
            &&& event is Data ==> (verdict is Read <==> bytes_after(bytes, event).len() <= 16384)
                && (verdict is Rejected <==> bytes_after(bytes, event).len() > 16384)
            &&& verdict is Complete <==> event is End
            &&& event is Failed ==> verdict is Rejected
            &&& event matches ReadEvent::WouldBlock { expired } ==> (verdict is Rejected
                <==> expired) && (verdict is Wait <==> !expired)
            &&& event is Interrupted ==> verdict is Read
            &&& verdict matches ReadVerdictView::Rejected(failure) ==> failure.stage
                == LaunchFailureStage::Acknowledgement
        }),
        event matches ReadEvent::Data(more) ==> bytes_after(bytes, event) == bytes + more@,
{
}

/// A launch that is acknowledged is reported with its ID, its process and its
/// start; any other is a failure under its ID, at the stage where it failed.
pub proof fn launches_are_reported_as_they_went(id: Seq<char>, outcome: SpawnOutcome)
    ensures
        spawned(id, outcome) is Ok <==> outcome is Acknowledged,
        outcome matches SpawnOutcome::Acknowledged { pid, start_time } ==> {
            let one = spawned(id, outcome)->Ok_0;
            one.desktop_id == id && one.pid == pid && one.process_start_time_ticks == start_time
                && one.exec_succeeded
        },
        spawned(id, outcome) matches Err(failure) ==> {
            &&& failure.desktop_id == id
            &&& match outcome {
                SpawnOutcome::Rejected { pid, failure: told } => failure.pid == Some(pid)
                    && failure.stage == told.stage && failure.reason == told.reason@,
                _ => failure.pid is None && failure.stage == LaunchFailureStage::HelperSpawn,
            }
        },
{
}

} // verus!
