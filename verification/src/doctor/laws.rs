//! What holds of a diagnosis as a whole.
use vstd::prelude::*;

use super::checks::{
    affinity_view, autostart_view, environment_view, procfs_view, registry_view, resolution_view,
    session_view, startup_view, topology_view,
};
use super::diagnose::{checks_on, FindingsView};
use super::report::{report_of, report_status_is_worst, CheckView, DoctorStatus};
use crate::text::{lemma_before_transitive, text_before};

verus! {

/// The keys of details ascend.
pub open spec fn keys_ascend(details: Seq<(Seq<char>, Seq<char>)>) -> bool {
    forall|i: int, j: int|
        0 <= i < j < details.len() ==> text_before(
            (#[trigger] details[i]).0,
            (#[trigger] details[j]).0,
        )
}

spec fn neighbours_ascend(details: Seq<(Seq<char>, Seq<char>)>) -> bool {
    forall|i: int, j: int|
        0 <= i && j == i + 1 && j < details.len() ==> text_before(
            (#[trigger] details[i]).0,
            (#[trigger] details[j]).0,
        )
}

proof fn lemma_neighbours(details: Seq<(Seq<char>, Seq<char>)>)
    requires
        neighbours_ascend(details),
    ensures
        keys_ascend(details),
{
    assert forall|i: int, j: int| 0 <= i < j < details.len() implies text_before(
        (#[trigger] details[i]).0,
        (#[trigger] details[j]).0,
    ) by {
        lemma_distance(details, i, j);
    }
}

proof fn lemma_distance(details: Seq<(Seq<char>, Seq<char>)>, i: int, j: int)
    requires
        neighbours_ascend(details),
        0 <= i < j < details.len(),
    ensures
        text_before(details[i].0, details[j].0),
    decreases j - i,
{
    if j > i + 1 {
        lemma_distance(details, i, j - 1);
        assert(text_before(details[j - 1].0, details[j].0));
        lemma_before_transitive(details[i].0, details[j - 1].0, details[j].0);
    }
}

/// Texts that agree up to a position are ordered by what stands there.
proof fn lemma_before_at(a: Seq<char>, b: Seq<char>, at: int)
    requires
        0 <= at <= a.len(),
        at < b.len(),
        forall|k: int| 0 <= k < at ==> a[k] == b[k],
        at == a.len() || a[at] < b[at],
    ensures
        text_before(a, b),
    decreases at,
{
    if at > 0 {
        assert forall|k: int| 0 <= k < at - 1 implies a.drop_first()[k] == b.drop_first()[k] by {
            assert(a[k + 1] == b[k + 1]);
        }
        lemma_before_at(a.drop_first(), b.drop_first(), at - 1);
    }
}

proof fn lemma_registry_keys(found: FindingsView)
    ensures
        keys_ascend(registry_view(found.registry).details),
{
    reveal_strlit("applications");
    reveal_strlit("exists");
    lemma_before_at("applications"@, "exists"@, 0);
    lemma_neighbours(registry_view(found.registry).details);
}

proof fn lemma_resolution_keys(check: CheckView, valid: bool, ids: Seq<Seq<char>>, found: FindingsView)
    requires
        check == resolution_view(valid, ids, found.discovery),
    ensures
        keys_ascend(check.details),
{
    reveal_strlit("discovery_warnings");
    reveal_strlit("terminal");
    reveal_strlit("unavailable");
    lemma_before_at("discovery_warnings"@, "terminal"@, 0);
    lemma_before_at("terminal"@, "unavailable"@, 0);
    lemma_neighbours(check.details);
}

proof fn lemma_topology_keys(check: CheckView, any_enabled: bool, found: FindingsView)
    requires
        check == topology_view(any_enabled, found.topology),
    ensures
        keys_ascend(check.details),
{
    reveal_strlit("classification");
    reveal_strlit("efficiency_cpus");
    lemma_before_at("classification"@, "efficiency_cpus"@, 0);
    lemma_neighbours(check.details);
}

proof fn lemma_affinity_keys(check: CheckView, cpus: Seq<u32>, any_enabled: bool, found: FindingsView)
    requires
        check == affinity_view(cpus, any_enabled, found.allowed),
    ensures
        keys_ascend(check.details),
{
    reveal_strlit("allowed_cpus");
    reveal_strlit("requested_cpus");
    lemma_before_at("allowed_cpus"@, "requested_cpus"@, 0);
    lemma_neighbours(check.details);
}

proof fn lemma_startup_keys(found: FindingsView)
    ensures
        keys_ascend(startup_view(found.startup).details),
{
    reveal_strlit("current");
    reveal_strlit("enabled");
    reveal_strlit("owned");
    reveal_strlit("ownership_owned");
    reveal_strlit("ownership_present");
    reveal_strlit("present");
    reveal_strlit("systemctl_diagnostic");
    reveal_strlit("unit");
    lemma_before_at("current"@, "enabled"@, 0);
    lemma_before_at("enabled"@, "owned"@, 0);
    lemma_before_at("owned"@, "ownership_owned"@, 4);
    lemma_before_at("ownership_owned"@, "ownership_present"@, 10);
    lemma_before_at("ownership_present"@, "present"@, 0);
    lemma_before_at("present"@, "systemctl_diagnostic"@, 0);
    lemma_before_at("systemctl_diagnostic"@, "unit"@, 0);
    lemma_neighbours(startup_view(found.startup).details);
}

proof fn lemma_environment_keys(found: FindingsView)
    ensures
        keys_ascend(environment_view(found.startup).details),
{
    reveal_strlit("diagnostic");
    reveal_strlit("ready");
    lemma_before_at("diagnostic"@, "ready"@, 0);
    lemma_neighbours(environment_view(found.startup).details);
}

proof fn lemma_autostart_keys(found: FindingsView)
    ensures
        keys_ascend(autostart_view(found.startup).details),
{
    reveal_strlit("duplicate_risk");
    reveal_strlit("owned_overrides");
    reveal_strlit("user_conflicts");
    lemma_before_at("duplicate_risk"@, "owned_overrides"@, 0);
    lemma_before_at("owned_overrides"@, "user_conflicts"@, 0);
    lemma_neighbours(autostart_view(found.startup).details);
}

proof fn lemma_session_keys(found: FindingsView)
    ensures
        keys_ascend(session_view(found.session).details),
{
    reveal_strlit("current_desktop");
    reveal_strlit("dbus_session_bus");
    reveal_strlit("display");
    reveal_strlit("wayland_display");
    lemma_before_at("current_desktop"@, "dbus_session_bus"@, 0);
    lemma_before_at("dbus_session_bus"@, "display"@, 1);
    lemma_before_at("display"@, "wayland_display"@, 0);
    lemma_neighbours(session_view(found.session).details);
}

proof fn lemma_procfs_keys(found: FindingsView)
    ensures
        keys_ascend(procfs_view(found.proc_root, found.procfs).details),
{
    reveal_strlit("children_readable");
    reveal_strlit("ready");
    reveal_strlit("root");
    reveal_strlit("stat_readable");
    reveal_strlit("tasks_readable");
    lemma_before_at("children_readable"@, "ready"@, 0);
    lemma_before_at("ready"@, "root"@, 1);
    lemma_before_at("root"@, "stat_readable"@, 0);
    lemma_before_at("stat_readable"@, "tasks_readable"@, 0);
    lemma_neighbours(procfs_view(found.proc_root, found.procfs).details);
}

/// The details of every check stand in the order of their keys.
pub proof fn details_are_in_key_order(found: FindingsView, k: int)
    requires
        0 <= k < checks_on(found).len(),
    ensures
        keys_ascend(checks_on(found)[k].details),
{
    let check = checks_on(found)[k];
    if k == 2 {
        lemma_registry_keys(found);
    } else if k == 4 {
        let apps = super::diagnose::usable_registry(found.registry).apps;
        let ids = crate::launcher::plan::enabled_ids(apps);
        lemma_resolution_keys(check, found.registry is Ok, ids, found);
    } else if k == 5 {
        let apps = super::diagnose::usable_registry(found.registry).apps;
        let ids = crate::launcher::plan::enabled_ids(apps);
        lemma_topology_keys(check, ids.len() > 0, found);
    } else if k == 6 {
        let apps = super::diagnose::usable_registry(found.registry).apps;
        let ids = crate::launcher::plan::enabled_ids(apps);
        lemma_affinity_keys(
            check,
            super::diagnose::detected_cpus(found.topology),
            ids.len() > 0,
            found,
        );
    } else if k == 8 {
        lemma_startup_keys(found);
    } else if k == 9 {
        lemma_environment_keys(found);
    } else if k == 10 {
        lemma_autostart_keys(found);
    } else if k == 11 {
        lemma_session_keys(found);
    } else if k == 12 {
        lemma_procfs_keys(found);
    } else if k == 13 {
        reveal_strlit("privilege");
        reveal_strlit("shell");
        lemma_before_at("privilege"@, "shell"@, 0);
        lemma_neighbours(check.details);
    }
}

/// A registry that cannot be used, or a `/proc` that does not tell what is
/// needed, makes the whole diagnosis an error.
pub proof fn blocking_conditions_are_errors(found: FindingsView)
    requires
        found.registry is Err || !(found.procfs.root_is_directory && found.procfs.stat_readable
            && found.procfs.tasks_readable && found.procfs.children_readable),
    ensures
        report_of(checks_on(found)).status == DoctorStatus::Error,
{
    report_status_is_worst(checks_on(found));
    if found.registry is Err {
        assert(checks_on(found)[2].status == DoctorStatus::Error);
    } else {
        assert(checks_on(found)[12].status == DoctorStatus::Error);
    }
}

} // verus!
