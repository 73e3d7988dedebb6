//! What each check of a diagnosis means, in terms of what was found.
use vstd::prelude::*;

use super::checks::{
    assessed_ids, is_duplicate_risk, is_suppressed, is_user_conflict, privileged_ids,
};
use super::diagnose::{
    checks_on, findings, startup_state, DoctorObservations, DoctorOptions, FindingsView,
};
use super::report::{report_of, worst, CheckView, DoctorStatus};
use crate::discovery::scanner::discovery;
use crate::discovery::types::ApplicationView;
use crate::integration::autostart::{AssessmentView, AutostartState};
use crate::launcher::plan::{discovered_with, enabled_ids};
use crate::order::lemma_filter_holds;
use crate::registry::model::{default_registry, IoPriorityClass, RegisteredView};
use crate::registry::store::loaded;
use crate::text::join;
use crate::topology::detector::{default_policy, detection};
use crate::topology::types::TopologyClass;

verus! {

/// The applications that a diagnosis goes by.
pub open spec fn diagnosed_apps(found: FindingsView) -> Seq<RegisteredView> {
    match found.registry {
        Ok((registry, exists)) => registry.apps,
        Err(_) => Seq::empty(),
    }
}

/// Some application is enabled.
pub open spec fn anything_enabled(found: FindingsView) -> bool {
    exists|i: int| 0 <= i < diagnosed_apps(found).len() && (#[trigger] diagnosed_apps(found)[i]).enabled
}

/// The status of what launching needs: without it, an enabled application is
/// an error, and else there is a warning.
pub open spec fn status_of_need(met: bool, found: FindingsView) -> DoctorStatus {
    if met {
        DoctorStatus::Ready
    } else if anything_enabled(found) {
        DoctorStatus::Error
    } else {
        DoctorStatus::Warning
    }
}

/// The IDs of the enabled applications are those of the entries with the flag,
/// in the order of the registry.
pub proof fn enabled_ids_are_those_with_the_flag(apps: Seq<RegisteredView>)
    ensures
        enabled_ids(apps) == apps.filter(|a: RegisteredView| a.enabled).map_values(
            |a: RegisteredView| a.desktop_id,
        ),
    decreases apps.len(),
{
    reveal(Seq::filter);
    let enabled = |a: RegisteredView| a.enabled;
    let id = |a: RegisteredView| a.desktop_id;
    if apps.len() > 0 {
        enabled_ids_are_those_with_the_flag(apps.drop_last());
        if apps.last().enabled {
            assert(apps.filter(enabled) == apps.drop_last().filter(enabled).push(apps.last()));
        }
    }
    assert(enabled_ids(apps) =~= apps.filter(enabled).map_values(id));
}

proof fn lemma_enabled_id(apps: Seq<RegisteredView>, id: Seq<char>)
    ensures
        enabled_ids(apps).contains(id) <==> exists|i: int|
            0 <= i < apps.len() && (#[trigger] apps[i]).enabled && apps[i].desktop_id == id,
    decreases apps.len(),
{
    let ids = enabled_ids(apps);
    if apps.len() > 0 {
        let front = apps.drop_last();
        lemma_enabled_id(front, id);
        let before = enabled_ids(front);
        if ids.contains(id) {
            let k = choose|k: int| 0 <= k < ids.len() && ids[k] == id;
            if k < before.len() {
                assert(before[k] == id);
                let i = choose|i: int|
                    0 <= i < front.len() && (#[trigger] front[i]).enabled && front[i].desktop_id
                        == id;
                assert(apps[i].enabled);
            } else {
                assert(apps[apps.len() - 1].enabled);
            }
        }
        if exists|i: int|
            0 <= i < apps.len() && (#[trigger] apps[i]).enabled && apps[i].desktop_id == id {
            let i = choose|i: int|
                0 <= i < apps.len() && (#[trigger] apps[i]).enabled && apps[i].desktop_id == id;
            if i < front.len() {
                assert(front[i].enabled);
                let k = choose|k: int| 0 <= k < before.len() && before[k] == id;
                assert(ids[k] == id);
            } else {
                assert(ids[ids.len() - 1] == id);
            }
        }
    }
}

proof fn lemma_anything_enabled(found: FindingsView)
    ensures
        anything_enabled(found) <==> enabled_ids(
            super::diagnose::usable_registry(found.registry).apps,
        ).len() > 0,
{
    let apps = diagnosed_apps(found);
    assert(super::diagnose::usable_registry(found.registry).apps =~= apps);
    let ids = enabled_ids(apps);
    if anything_enabled(found) {
        let i = choose|i: int| 0 <= i < apps.len() && (#[trigger] apps[i]).enabled;
        lemma_enabled_id(apps, apps[i].desktop_id);
        assert(ids.contains(apps[i].desktop_id));
    }
    if ids.len() > 0 {
        assert(ids.contains(ids[0]));
        lemma_enabled_id(apps, ids[0]);
    }
}

/// The checks on the registry are errors exactly where it cannot be used, and
/// the platform, the path, the selection and what is compiled in are never in
/// the way.
pub proof fn registry_check_tells_whether_it_is_usable(found: FindingsView)
    ensures
        checks_on(found).len() == 14,
        checks_on(found)[0].status == DoctorStatus::Ready,
        checks_on(found)[1].status == DoctorStatus::Ready,
        checks_on(found)[2].status == (if found.registry is Ok {
            DoctorStatus::Ready
        } else {
            DoctorStatus::Error
        }),
        checks_on(found)[3].status == DoctorStatus::Ready,
        checks_on(found)[3].details == seq![
            (
                "desktop_ids"@,
                join(
                    diagnosed_apps(found).filter(|a: RegisteredView| a.enabled).map_values(
                        |a: RegisteredView| a.desktop_id,
                    ),
                    ","@,
                ),
            ),
        ],
        checks_on(found)[13].status == DoctorStatus::Ready,
{
    assert(super::diagnose::usable_registry(found.registry).apps =~= diagnosed_apps(found));
    enabled_ids_are_those_with_the_flag(diagnosed_apps(found));
}

/// The application with an ID was discovered, and needs no terminal. Of
/// several with one ID the last counts.
pub open spec fn launchable(current: Seq<ApplicationView>, id: Seq<char>) -> bool {
    exists|k: int|
        0 <= k < current.len() && (#[trigger] current[k]).desktop_id == id && !current[k].terminal
            && forall|m: int| k < m < current.len() ==> (#[trigger] current[m]).desktop_id != id
}

proof fn lemma_discovered_with(current: Seq<ApplicationView>, id: Seq<char>)
    ensures
        match discovered_with(current, id) {
            Some(found) => exists|k: int|
                0 <= k < current.len() && (#[trigger] current[k]) == found && found.desktop_id == id
                    && forall|m: int|
                    k < m < current.len() ==> (#[trigger] current[m]).desktop_id != id,
            None => forall|m: int|
                0 <= m < current.len() ==> (#[trigger] current[m]).desktop_id != id,
        },
    decreases current.len(),
{
    if current.len() > 0 {
        let front = current.drop_last();
        let last = current.len() - 1;
        lemma_discovered_with(front, id);
        if current[last].desktop_id == id {
            assert(current[last] == discovered_with(current, id)->0);
        } else if discovered_with(front, id) is Some {
            let found = discovered_with(front, id)->0;
            let k = choose|k: int|
                0 <= k < front.len() && (#[trigger] front[k]) == found && found.desktop_id == id
                    && forall|m: int|
                    k < m < front.len() ==> (#[trigger] front[m]).desktop_id != id;
            assert(current[k] == found);
            assert forall|m: int| k < m < current.len() implies (
            #[trigger] current[m]).desktop_id != id by {
                if m < front.len() {
                    assert(front[m].desktop_id != id);
                }
            }
        } else {
            assert forall|m: int| 0 <= m < current.len() implies (
            #[trigger] current[m]).desktop_id != id by {
                if m < front.len() {
                    assert(front[m].desktop_id != id);
                }
            }
        }
    }
}

proof fn lemma_launchable(current: Seq<ApplicationView>, id: Seq<char>)
    ensures
        launchable(current, id) <==> discovered_with(current, id) is Some && !discovered_with(
            current,
            id,
        )->0.terminal,
{
    lemma_discovered_with(current, id);
    if launchable(current, id) {
        let k = choose|k: int|
            0 <= k < current.len() && (#[trigger] current[k]).desktop_id == id
                && !current[k].terminal && forall|m: int|
                k < m < current.len() ==> (#[trigger] current[m]).desktop_id != id;
        let found = discovered_with(current, id)->0;
        assert(discovered_with(current, id) is Some);
        let n = choose|n: int|
            0 <= n < current.len() && (#[trigger] current[n]) == found && found.desktop_id == id
                && forall|m: int| n < m < current.len() ==> (#[trigger] current[m]).desktop_id != id;
        if n < k {
            assert(current[k].desktop_id != id);
        } else if k < n {
            assert(current[n].desktop_id != id);
        }
    }
    if discovered_with(current, id) is Some && !discovered_with(current, id)->0.terminal {
        let found = discovered_with(current, id)->0;
        let n = choose|n: int|
            0 <= n < current.len() && (#[trigger] current[n]) == found && found.desktop_id == id
                && forall|m: int| n < m < current.len() ==> (#[trigger] current[m]).desktop_id != id;
        assert(current[n].desktop_id == id);
    }
}

/// The resolution check is ready exactly where the registry can be used,
/// discovery came to its end, and every enabled application was discovered and
/// needs no terminal. Where discovery failed and nothing is enabled, there is
/// a warning; in every other case it is an error.
pub proof fn resolution_check_tells_whether_all_can_be_launched(found: FindingsView)
    ensures
        checks_on(found)[4].status == DoctorStatus::Ready <==> {
            &&& found.registry is Ok
            &&& found.discovery is Ok
            &&& forall|i: int|
                0 <= i < diagnosed_apps(found).len() && (#[trigger] diagnosed_apps(
                    found,
                )[i]).enabled ==> launchable(
                    found.discovery->Ok_0.applications,
                    diagnosed_apps(found)[i].desktop_id,
                )
        },
        checks_on(found)[4].status == DoctorStatus::Warning <==> found.discovery is Err
            && !anything_enabled(found),
{
    let apps = diagnosed_apps(found);
    let ids = enabled_ids(apps);
    assert(super::diagnose::usable_registry(found.registry).apps =~= apps);
    lemma_anything_enabled(found);
    if found.registry is Ok && found.discovery is Ok {
        let current = found.discovery->Ok_0.applications;
        let unavailable = super::checks::is_unavailable(current);
        let terminal = super::checks::is_terminal(current);
        if forall|i: int|
            0 <= i < apps.len() && (#[trigger] apps[i]).enabled ==> launchable(
                current,
                apps[i].desktop_id,
            ) {
            if ids.filter(unavailable).len() > 0 {
                let id = ids.filter(unavailable)[0];
                assert(ids.filter(unavailable).contains(id));
                lemma_filter_holds(ids, unavailable, id);
                lemma_enabled_id(apps, id);
                lemma_launchable(current, id);
            }
            if ids.filter(terminal).len() > 0 {
                let id = ids.filter(terminal)[0];
                assert(ids.filter(terminal).contains(id));
                lemma_filter_holds(ids, terminal, id);
                lemma_enabled_id(apps, id);
                lemma_launchable(current, id);
            }
        } else {
            let i = choose|i: int|
                0 <= i < apps.len() && (#[trigger] apps[i]).enabled && !launchable(
                    current,
                    apps[i].desktop_id,
                );
            let id = apps[i].desktop_id;
            lemma_enabled_id(apps, id);
            lemma_launchable(current, id);
            lemma_filter_holds(ids, unavailable, id);
            lemma_filter_holds(ids, terminal, id);
        }
    }
}

/// The topology check is ready exactly where a hybrid topology with efficiency
/// CPUs was detected.
pub proof fn topology_check_tells_whether_there_are_cpus(found: FindingsView)
    ensures
        checks_on(found)[5].status == status_of_need(
            found.topology matches Ok(topology) && topology.classification == TopologyClass::Hybrid
                && topology.efficiency_cpus.len() > 0,
            found,
        ),
{
    lemma_anything_enabled(found);
}

/// The affinity check is ready exactly where there are efficiency CPUs, each
/// of them can be in an affinity set, and this process may run on it.
pub proof fn affinity_check_tells_whether_the_cpus_can_be_used(found: FindingsView)
    ensures
        checks_on(found)[6].status == status_of_need(
            {
                &&& found.topology matches Ok(topology)
                &&& topology.efficiency_cpus.len() > 0
                &&& found.allowed matches Ok(allowed)
                &&& forall|cpu: u32| #[trigger]
                    topology.efficiency_cpus.contains(cpu) ==> cpu < 1024 && allowed.contains(cpu)
            },
            found,
        ),
{
    lemma_anything_enabled(found);
    if found.topology is Ok && found.allowed is Ok {
        let cpus = found.topology->Ok_0.efficiency_cpus;
        let allowed = found.allowed->Ok_0;
        if super::checks::cpus_usable(cpus, allowed) {
            assert forall|cpu: u32| #[trigger] cpus.contains(cpu) implies cpu < 1024
                && allowed.contains(cpu) by {
                let k = choose|k: int| 0 <= k < cpus.len() && cpus[k] == cpu;
            }
        }
        if forall|cpu: u32| #[trigger]
            cpus.contains(cpu) ==> cpu < 1024 && allowed.contains(cpu) {
            assert forall|k: int| 0 <= k < cpus.len() implies (#[trigger] cpus[k]) < 1024
                && allowed.contains(cpus[k]) by {
                assert(cpus.contains(cpus[k]));
            }
        }
    }
}

proof fn lemma_privileged(apps: Seq<RegisteredView>)
    ensures
        privileged_ids(apps) == apps.filter(
            |a: RegisteredView|
                a.enabled && (a.policy.nice < 0 || a.policy.io_class == IoPriorityClass::Realtime),
        ).map_values(|a: RegisteredView| a.desktop_id),
    decreases apps.len(),
{
    reveal(Seq::filter);
    let keep = |a: RegisteredView|
        a.enabled && (a.policy.nice < 0 || a.policy.io_class == IoPriorityClass::Realtime);
    let id = |a: RegisteredView| a.desktop_id;
    if apps.len() > 0 {
        lemma_privileged(apps.drop_last());
        if keep(apps.last()) {
            assert(apps.filter(keep) == apps.drop_last().filter(keep).push(apps.last()));
        }
    }
    assert(privileged_ids(apps) =~= apps.filter(keep).map_values(id));
}

/// The policy check is ready exactly where no enabled application has a
/// negative nice value or the realtime class; those that have are listed, and
/// there is a warning.
pub proof fn policy_check_lists_what_needs_privileges(found: FindingsView)
    ensures
        checks_on(found)[7].status == DoctorStatus::Ready <==> forall|i: int|
            0 <= i < diagnosed_apps(found).len() && (#[trigger] diagnosed_apps(found)[i]).enabled
                ==> diagnosed_apps(found)[i].policy.nice >= 0 && diagnosed_apps(
                found,
            )[i].policy.io_class != IoPriorityClass::Realtime,
        checks_on(found)[7].status != DoctorStatus::Error,
        checks_on(found)[7].details == seq![
            (
                "privilege_sensitive"@,
                join(
                    diagnosed_apps(found).filter(
                        |a: RegisteredView|
                            a.enabled && (a.policy.nice < 0 || a.policy.io_class
                                == IoPriorityClass::Realtime),
                    ).map_values(|a: RegisteredView| a.desktop_id),
                    ","@,
                ),
            ),
        ],
{
    let apps = diagnosed_apps(found);
    assert(super::diagnose::usable_registry(found.registry).apps =~= apps);
    lemma_privileged(apps);
    let keep = |a: RegisteredView|
        a.enabled && (a.policy.nice < 0 || a.policy.io_class == IoPriorityClass::Realtime);
    let kept = apps.filter(keep);
    if kept.len() > 0 {
        assert(kept.contains(kept[0]));
        lemma_filter_holds(apps, keep, kept[0]);
        let i = choose|i: int| 0 <= i < apps.len() && apps[i] == kept[0];
        assert(apps[i].enabled);
    }
    if exists|i: int| 0 <= i < apps.len() && keep(#[trigger] apps[i]) {
        let i = choose|i: int| 0 <= i < apps.len() && keep(#[trigger] apps[i]);
        assert(apps.contains(apps[i]));
        lemma_filter_holds(apps, keep, apps[i]);
        assert(kept.contains(apps[i]));
    }
    assert forall|i: int| 0 <= i < apps.len() && (#[trigger] apps[i]).enabled && kept.len()
        == 0 implies apps[i].policy.nice >= 0 && apps[i].policy.io_class
        != IoPriorityClass::Realtime by {
        if !(apps[i].policy.nice >= 0 && apps[i].policy.io_class != IoPriorityClass::Realtime) {
            assert(keep(apps[i]));
        }
    }
}

/// The startup check is ready exactly where the launcher's own, current unit
/// and its marker are there and the unit is enabled. A foreign or stale file
/// in their place is an error, and so is a state that could not be found out;
/// everything else is a warning.
pub proof fn startup_check_tells_how_startup_stands(found: FindingsView)
    ensures
        checks_on(found)[8].status == DoctorStatus::Ready <==> {
            &&& found.startup matches Ok(status)
            &&& status.unit_present && status.unit_owned && status.unit_current
            &&& status.ownership_owned
            &&& status.enabled == Some(true)
        },
        checks_on(found)[8].status == DoctorStatus::Error <==> match found.startup {
            Err(_) => true,
            Ok(status) => {
                ||| status.unit_present && !(status.unit_owned && status.unit_current)
                ||| status.ownership_present && !status.ownership_owned
            },
        },
{
}

/// The check on the user manager is ready exactly where the manager has a
/// display, a desktop and a session bus, and else a warning.
pub proof fn environment_check_tells_what_the_manager_has(found: FindingsView)
    ensures
        checks_on(found)[9].status == DoctorStatus::Ready <==> {
            &&& found.startup matches Ok(status)
            &&& status.manager_environment matches Some(environment)
            &&& environment.display || environment.wayland_display
            &&& environment.current_desktop
            &&& environment.session_bus
        },
        checks_on(found)[9].status != DoctorStatus::Error,
{
}

proof fn lemma_assessed_ids(all: Seq<AssessmentView>, keep: spec_fn(AssessmentView) -> bool)
    ensures
        assessed_ids(all, keep) == all.filter(keep).map_values(|a: AssessmentView| a.desktop_id),
        assessed_ids(all, keep).len() == 0 <==> forall|i: int|
            0 <= i < all.len() ==> !keep(#[trigger] all[i]),
    decreases all.len(),
{
    reveal(Seq::filter);
    let id = |a: AssessmentView| a.desktop_id;
    if all.len() > 0 {
        let front = all.drop_last();
        lemma_assessed_ids(front, keep);
        if keep(all.last()) {
            assert(all.filter(keep) == front.filter(keep).push(all.last()));
            assert(keep(all[all.len() - 1]));
        }
        if forall|i: int| 0 <= i < all.len() ==> !keep(#[trigger] all[i]) {
            assert forall|i: int| 0 <= i < front.len() implies !keep(#[trigger] front[i]) by {
                assert(!keep(all[i]));
            }
            assert(!keep(all[all.len() - 1]));
        }
        if assessed_ids(all, keep).len() == 0 {
            assert forall|i: int| 0 <= i < all.len() implies !keep(#[trigger] all[i]) by {
                if i < front.len() {
                    assert(!keep(front[i]));
                }
            }
        }
    }
    assert(assessed_ids(all, keep) =~= all.filter(keep).map_values(id));
}

/// The autostart check is ready exactly where no assessment is a duplicate
/// risk and none is a user override in the place of a system entry; with
/// either it is a warning. The details list the IDs of each kind.
pub proof fn autostart_check_tells_of_risks_and_conflicts(found: FindingsView)
    ensures
        match found.startup {
            Err(_) => checks_on(found)[10].status == DoctorStatus::Error,
            Ok(status) => {
                &&& checks_on(found)[10].status != DoctorStatus::Error
                &&& checks_on(found)[10].status == DoctorStatus::Ready <==> forall|i: int|
                    0 <= i < status.autostart.len() ==> {
                        let one = #[trigger] status.autostart[i];
                        &&& one.state != AutostartState::DuplicateRisk
                        &&& one.state == AutostartState::UserOverride ==> one.system_entries.len()
                            == 0
                    }
                &&& checks_on(found)[10].details == seq![
                    (
                        "duplicate_risk"@,
                        join(
                            status.autostart.filter(
                                |a: AssessmentView| a.state == AutostartState::DuplicateRisk,
                            ).map_values(|a: AssessmentView| a.desktop_id),
                            ","@,
                        ),
                    ),
                    (
                        "owned_overrides"@,
                        join(
                            status.autostart.filter(
                                |a: AssessmentView| a.state == AutostartState::SuppressedByLauncher,
                            ).map_values(|a: AssessmentView| a.desktop_id),
                            ","@,
                        ),
                    ),
                    (
                        "user_conflicts"@,
                        join(
                            status.autostart.filter(
                                |a: AssessmentView|
                                    a.state == AutostartState::UserOverride && a.system_entries.len()
                                        > 0,
                            ).map_values(|a: AssessmentView| a.desktop_id),
                            ","@,
                        ),
                    ),
                ]
            },
        },
{
    match found.startup {
        Err(_) => {},
        Ok(status) => {
            let all = status.autostart;
            let risk = |a: AssessmentView| a.state == AutostartState::DuplicateRisk;
            let own = |a: AssessmentView| a.state == AutostartState::SuppressedByLauncher;
            let conflict = |a: AssessmentView|
                a.state == AutostartState::UserOverride && a.system_entries.len() > 0;
            assert(is_duplicate_risk() =~= risk);
            assert(is_suppressed() =~= own);
            assert(is_user_conflict() =~= conflict);
            lemma_assessed_ids(all, risk);
            lemma_assessed_ids(all, own);
            lemma_assessed_ids(all, conflict);
            if checks_on(found)[10].status == DoctorStatus::Ready {
                assert forall|i: int| 0 <= i < all.len() implies {
                    let one = #[trigger] all[i];
                    &&& one.state != AutostartState::DuplicateRisk
                    &&& one.state == AutostartState::UserOverride ==> one.system_entries.len() == 0
                } by {
                    assert(!risk(all[i]) && !conflict(all[i]));
                }
            }
        },
    }
}

/// The session check is ready exactly where a display, a desktop and a session
/// bus are known, and else a warning.
pub proof fn session_check_tells_what_the_session_has(found: FindingsView)
    ensures
        checks_on(found)[11].status == DoctorStatus::Ready <==> {
            &&& found.session.display is Some || found.session.wayland_display is Some
            &&& found.session.current_desktop is Some
            &&& found.session.dbus_session_bus_address is Some
        },
        checks_on(found)[11].status != DoctorStatus::Error,
{
}

/// The check on `/proc` is ready exactly where all that supervision needs can
/// be read, and else an error.
pub proof fn procfs_check_tells_what_can_be_read(found: FindingsView)
    ensures
        checks_on(found)[12].status == DoctorStatus::Ready <==> {
            &&& found.procfs.root_is_directory
            &&& found.procfs.stat_readable
            &&& found.procfs.tasks_readable
            &&& found.procfs.children_readable
        },
        checks_on(found)[12].status != DoctorStatus::Warning,
{
}

/// The report has the status of one of its checks, and none is more severe: it
/// is ready exactly where all are, and an error exactly where one is.
pub proof fn report_is_as_bad_as_its_worst_check(checks: Seq<CheckView>)
    ensures
        report_of(checks).checks == checks,
        report_of(checks).status == DoctorStatus::Ready <==> forall|i: int|
            0 <= i < checks.len() ==> (#[trigger] checks[i]).status == DoctorStatus::Ready,
        report_of(checks).status == DoctorStatus::Error <==> exists|i: int|
            0 <= i < checks.len() && (#[trigger] checks[i]).status == DoctorStatus::Error,
    decreases checks.len(),
{
    if checks.len() > 0 {
        let front = checks.drop_last();
        let last = checks.len() - 1;
        report_is_as_bad_as_its_worst_check(front);
        assert(report_of(checks).status == worst(checks));
        assert(report_of(front).status == worst(front));
        if forall|i: int| 0 <= i < checks.len() ==> (#[trigger] checks[i]).status == DoctorStatus::Ready {
            assert forall|i: int| 0 <= i < front.len() implies (#[trigger] front[i]).status
                == DoctorStatus::Ready by {
                assert(checks[i].status == DoctorStatus::Ready);
            }
            assert(checks[last].status == DoctorStatus::Ready);
        }
        if worst(checks) == DoctorStatus::Ready {
            assert forall|i: int| 0 <= i < checks.len() implies (#[trigger] checks[i]).status
                == DoctorStatus::Ready by {
                if i < front.len() {
                    assert(front[i].status == DoctorStatus::Ready);
                }
            }
        }
        if worst(front) == DoctorStatus::Error {
            let i = choose|i: int|
                0 <= i < front.len() && (#[trigger] front[i]).status == DoctorStatus::Error;
            assert(checks[i].status == DoctorStatus::Error);
        }
        if checks[last].status == DoctorStatus::Error {
            assert(worst(checks) == DoctorStatus::Error);
        }
        if exists|i: int| 0 <= i < checks.len() && (#[trigger] checks[i]).status == DoctorStatus::Error {
            let i = choose|i: int|
                0 <= i < checks.len() && (#[trigger] checks[i]).status == DoctorStatus::Error;
            if i < front.len() {
                assert(front[i].status == DoctorStatus::Error);
            }
        }
    }
}

/// A diagnosis goes by what loading, discovery and detection come to for what
/// was seen, with the default policy; and by an empty registry for startup
/// where none can be loaded.
pub proof fn diagnoses_go_by_what_was_seen(options: DoctorOptions, observed: DoctorObservations)
    ensures
        ({
            let found = findings(options, observed);
            &&& found.registry == loaded(options.registry_path@, observed.config)
            &&& found.discovery == discovery(options.discovery@, observed.discovery)
            &&& found.topology == detection(
                observed.sysfs_status,
                observed.sysfs@,
                options.sysfs_root@,
                default_policy(),
            )
            &&& found.session == options.session@
            &&& found.proc_root == options.proc_root@
            &&& found.procfs == observed.procfs
            &&& found.registry is Err ==> found.startup == startup_state(
                options,
                observed,
                default_registry(),
            )
            &&& found.registry matches Ok(load) ==> found.startup == startup_state(
                options,
                observed,
                load.0,
            )
        }),
{
}

} // verus!
