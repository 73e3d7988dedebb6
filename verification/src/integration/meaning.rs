//! What startup integration makes of the files and of the manager's answers.
use vstd::prelude::*;
use vstd::utf8::encode_utf8;

use super::autostart::{
    assessed, assessment, assessment_before, assessments, entry_below, is_conflict, present_entries,
    state_at, suppression_failure, usable_id, AssessmentView, AutostartState,
};
use super::error::IntegrationErrorView;
use super::files::{
    escaped, escaped_char, generated_unit, owned_override, startup_marker, FileState, FileStateView,
    OwnedView,
};
use super::paths::{
    ancestor_failure, chosen_config_dirs, chosen_root, is_system, names_usr_share, nearest_failure,
    normal_components, absolute_path_failure, is_control_byte, user_root_failure, AncestorState,
    PathsView,
};
use super::startup::{
    disable_plan, enable_plan, enabled_state, enabled_with, environment_status, has_variable,
    is_duplicate, sets_variable, startup_status, suppression, ActionView, CommandOutcome,
    ManagerEnvironmentStatus, ManagerView, SystemctlOperation,
};
use super::write::{removal_failure, WriteEvent, WriteView};
use crate::order::{lemma_filter_holds, lemma_sorted_holds};
use crate::path::{child, components, parent, same_path, ComponentView};
use crate::registry::model::RegisteredView;
use crate::replace::{replace_name, DirectoryState, ReplaceEvent};
use crate::text::{has_control, is_control, find_char, lemma_find_char, lines, trim};

verus! {

/// The entries of the system are exactly those that are there below one of its
/// roots. They are told unless one of the places could not be seen.
pub proof fn entries_are_those_present(
    roots: Seq<Seq<u8>>,
    desktop_id: Seq<char>,
    files: Seq<(Seq<u8>, FileStateView)>,
    path: Seq<u8>,
)
    ensures
        present_entries(roots, desktop_id, files) matches Ok(found) ==> (found.contains(path)
            <==> !(state_at(files, path) is Missing) && exists|k: int|
            0 <= k < roots.len() && path == entry_below(#[trigger] roots[k], desktop_id)),
        present_entries(roots, desktop_id, files) is Ok <==> forall|k: int|
            0 <= k < roots.len() ==> !(state_at(
                files,
                entry_below(#[trigger] roots[k], desktop_id),
            ) is Failed),
    decreases roots.len(),
{
    if roots.len() > 0 {
        let front = roots.drop_last();
        let last = roots.last();
        let here = entry_below(last, desktop_id);
        entries_are_those_present(front, desktop_id, files, path);
        assert(roots[roots.len() - 1] == last);
        assert forall|k: int| 0 <= k < front.len() implies front[k] == roots[k] by {}
        if present_entries(roots, desktop_id, files) is Ok {
            let earlier = present_entries(front, desktop_id, files)->Ok_0;
            let found = present_entries(roots, desktop_id, files)->Ok_0;
            if earlier.contains(path) {
                let j = choose|j: int| 0 <= j < earlier.len() && earlier[j] == path;
                assert(found[j] == path);
                let k = choose|k: int|
                    0 <= k < front.len() && path == entry_below(#[trigger] front[k], desktop_id);
                assert(roots[k] == front[k]);
            }
            if found.contains(path) {
                let j = choose|j: int| 0 <= j < found.len() && found[j] == path;
                if j < earlier.len() {
                    assert(earlier[j] == path);
                }
            }
            if path == here && !(state_at(files, here) is Missing) {
                assert(found[found.len() - 1] == here);
            }
            if exists|k: int|
                0 <= k < roots.len() && path == entry_below(#[trigger] roots[k], desktop_id) {
                let k = choose|k: int|
                    0 <= k < roots.len() && path == entry_below(#[trigger] roots[k], desktop_id);
                if k < front.len() {
                    assert(front[k] == roots[k]);
                }
            }
            assert forall|k: int| 0 <= k < roots.len() implies !(state_at(
                files,
                entry_below(#[trigger] roots[k], desktop_id),
            ) is Failed) by {
                if k < front.len() {
                    assert(front[k] == roots[k]);
                }
            }
        }
        if forall|k: int|
            0 <= k < roots.len() ==> !(state_at(
                files,
                entry_below(#[trigger] roots[k], desktop_id),
            ) is Failed) {
            assert forall|k: int| 0 <= k < front.len() implies !(state_at(
                files,
                entry_below(#[trigger] front[k], desktop_id),
            ) is Failed) by {
                assert(front[k] == roots[k]);
            }
        }
    }
}

/// An assessment tells what there is: the launcher's own override, a file of
/// the user's in its place, an entry of the system alone, or neither.
pub proof fn assessments_tell_what_is_there(
    paths: PathsView,
    desktop_id: Seq<char>,
    files: Seq<(Seq<u8>, FileStateView)>,
)
    ensures
        assessment(paths, desktop_id, files) matches Ok(one) ==> ({
            let user = state_at(files, child(child(paths.config_home, "autostart"@), desktop_id));
            let owned = FileStateView::Text(owned_override(desktop_id));
            &&& one.desktop_id == desktop_id
            &&& one.user_override == child(child(paths.config_home, "autostart"@), desktop_id)
            &&& one.state == AutostartState::SuppressedByLauncher <==> user == owned
            &&& one.state == AutostartState::UserOverride <==> user is Text && user != owned
            &&& one.state == AutostartState::DuplicateRisk <==> user is Missing
                && one.system_entries.len() > 0
            &&& one.state == AutostartState::NotPresent <==> user is Missing
                && one.system_entries.len() == 0
            &&& present_entries(paths.config_dirs, desktop_id, files) == Ok::<
                Seq<Seq<u8>>,
                IntegrationErrorView,
            >(one.system_entries)
        }),
{
}

proof fn lemma_assessed(
    paths: PathsView,
    apps: Seq<RegisteredView>,
    files: Seq<(Seq<u8>, FileStateView)>,
    one: AssessmentView,
)
    ensures
        assessed(paths, apps, files) matches Ok(all) ==> (all.contains(one) <==> exists|k: int|
            0 <= k < apps.len() && assessed_as(paths, #[trigger] apps[k], files, one)),
    decreases apps.len(),
{
    if apps.len() > 0 && assessed(paths, apps, files) is Ok {
        let front = apps.drop_last();
        let last = apps.last();
        lemma_assessed(paths, front, files, one);
        let earlier = assessed(paths, front, files)->Ok_0;
        let all = assessed(paths, apps, files)->Ok_0;
        assert(apps[apps.len() - 1] == last);
        assert forall|k: int| 0 <= k < front.len() implies front[k] == apps[k] by {}
        if earlier.contains(one) {
            let j = choose|j: int| 0 <= j < earlier.len() && earlier[j] == one;
            assert(all[j] == one);
            let k = choose|k: int|
                0 <= k < front.len() && assessed_as(paths, #[trigger] front[k], files, one);
            assert(assessed_as(paths, apps[k], files, one));
        }
        if all.contains(one) {
            let j = choose|j: int| 0 <= j < all.len() && all[j] == one;
            if j < earlier.len() {
                assert(earlier[j] == one);
            }
        }
        if assessed_as(paths, last, files, one) {
            assert(all[all.len() - 1] == one);
        }
        if exists|k: int|
            0 <= k < apps.len() && assessed_as(paths, #[trigger] apps[k], files, one) {
            let k = choose|k: int|
                0 <= k < apps.len() && assessed_as(paths, #[trigger] apps[k], files, one);
            if k < front.len() {
                assert(assessed_as(paths, front[k], files, one));
            }
        }
    }
}

/// An application is enabled, and this is its assessment.
pub open spec fn assessed_as(
    paths: PathsView,
    app: RegisteredView,
    files: Seq<(Seq<u8>, FileStateView)>,
    one: AssessmentView,
) -> bool {
    app.enabled && assessment(paths, app.desktop_id, files) == Ok::<
        AssessmentView,
        IntegrationErrorView,
    >(one)
}

/// Exactly the enabled applications are assessed.
pub proof fn enabled_applications_are_assessed(
    paths: PathsView,
    apps: Seq<RegisteredView>,
    files: Seq<(Seq<u8>, FileStateView)>,
    one: AssessmentView,
)
    ensures
        assessments(paths, apps, files) matches Ok(all) ==> (all.contains(one) <==> exists|k: int|
            0 <= k < apps.len() && assessed_as(paths, #[trigger] apps[k], files, one)),
{
    if assessed(paths, apps, files) is Ok {
        lemma_assessed(paths, apps, files, one);
        lemma_sorted_holds(assessed(paths, apps, files)->Ok_0, assessment_before(), one);
    }
}

/// Suppression does not begin where a file of the user's stands in the place of
/// an override that is needed, and that file is named, the first one of
/// several.
pub proof fn conflicts_stop_suppression(all: Seq<AssessmentView>)
    ensures
        match suppression_failure(all) {
            None => forall|k: int|
                0 <= k < all.len() ==> !((#[trigger] all[k]).state == AutostartState::UserOverride
                    && all[k].system_entries.len() > 0),
            Some(e) => exists|k: int|
                0 <= k < all.len() && is_conflict(#[trigger] all[k]) && e == (
                IntegrationErrorView::UnownedFile { path: all[k].user_override }) && forall|j: int|
                    0 <= j < k ==> !is_conflict(#[trigger] all[j]),
        },
        forall|k: int|
            0 <= k < all.len() ==> (is_conflict(#[trigger] all[k]) <==> all[k].state
                == AutostartState::UserOverride && all[k].system_entries.len() > 0),
    decreases all.len(),
{
    if all.len() > 0 {
        let rest = all.drop_first();
        conflicts_stop_suppression(rest);
        assert forall|k: int| 0 < k < all.len() implies #[trigger] all[k] == rest[k - 1] by {}
        if !is_conflict(all[0]) {
            match suppression_failure(rest) {
                None => {
                    assert forall|k: int| 0 <= k < all.len() implies !((#[trigger] all[k]).state
                        == AutostartState::UserOverride && all[k].system_entries.len() > 0) by {
                        if k > 0 {
                            assert(all[k] == rest[k - 1]);
                        }
                    }
                },
                Some(e) => {
                    let k = choose|k: int|
                        0 <= k < rest.len() && is_conflict(#[trigger] rest[k]) && e == (
                        IntegrationErrorView::UnownedFile { path: rest[k].user_override })
                            && forall|j: int| 0 <= j < k ==> !is_conflict(#[trigger] rest[j]);
                    assert forall|j: int| 0 <= j < k + 1 implies !is_conflict(
                        #[trigger] all[j],
                    ) by {
                        if j > 0 {
                            assert(all[j] == rest[j - 1]);
                        }
                    }
                    assert(is_conflict(all[k + 1]));
                },
            }
        } else {
            assert(is_conflict(all[0]));
        }
    }
}

/// Where suppression is asked for and planned, every enabled application that
/// the system would start too gets an override, to the letter, and is reported.
pub proof fn every_duplicate_is_suppressed(
    manager: ManagerView,
    apps: Seq<RegisteredView>,
    files: Seq<(Seq<u8>, FileStateView)>,
    k: int,
    one: AssessmentView,
)
    requires
        enable_plan(manager, apps, true, files) is Ok,
        0 <= k < apps.len(),
        assessed_as(manager.paths, apps[k], files, one),
        one.state == AutostartState::DuplicateRisk,
    ensures
        ({
            let plan = enable_plan(manager, apps, true, files)->Ok_0;
            &&& plan.change.autostart_overrides_changed.contains(apps[k].desktop_id)
            &&& plan.actions.contains(
                ActionView::Write {
                    path: child(
                        child(manager.paths.config_home, "autostart"@),
                        apps[k].desktop_id,
                    ),
                    contents: owned_override(apps[k].desktop_id),
                    owned: OwnedView::Exactly(owned_override(apps[k].desktop_id)),
                },
            )
        }),
{
    let plan = enable_plan(manager, apps, true, files)->Ok_0;
    let all = assessments(manager.paths, apps, files)->Ok_0;
    enabled_applications_are_assessed(manager.paths, apps, files, one);
    assessments_tell_what_is_there(manager.paths, apps[k].desktop_id, files);
    let duplicates = all.filter(is_duplicate());
    lemma_filter_holds(all, is_duplicate(), one);
    let i = choose|i: int| 0 <= i < duplicates.len() && duplicates[i] == one;
    assert(plan.change.autostart_overrides_changed[i] == one.desktop_id);
    let written = duplicates.map_values(suppression());
    assert(written[i] == suppression()(one));
    let before = plan.actions.len() - written.len();
    assert(plan.actions[before + i] == written[i]);
}

/// Enabling writes the unit exactly where there is none or another one of the
/// launcher's, and the marker exactly where there is none. The manager is told
/// of the unit before it is asked to enable it.
pub proof fn enabling_writes_what_is_missing(
    manager: ManagerView,
    apps: Seq<RegisteredView>,
    files: Seq<(Seq<u8>, FileStateView)>,
)
    requires
        enable_plan(manager, apps, false, files) is Ok,
    ensures
        ({
            let plan = enable_plan(manager, apps, false, files)->Ok_0;
            let unit = manager.unit()->Ok_0;
            let writes_unit = state_at(files, manager.paths.unit_path()) != FileStateView::Text(
                unit,
            );
            let writes_marker = state_at(files, manager.paths.ownership_path()) is Missing;
            let write_unit = ActionView::Write {
                path: manager.paths.unit_path(),
                contents: unit,
                owned: OwnedView::Unit,
            };
            let write_marker = ActionView::Write {
                path: manager.paths.ownership_path(),
                contents: startup_marker(),
                owned: OwnedView::Exactly(startup_marker()),
            };
            let n = plan.actions.len();
            &&& n == 2 + (if writes_unit {
                1int
            } else {
                0
            }) + (if writes_marker {
                1int
            } else {
                0
            })
            &&& writes_unit ==> plan.actions[0] == write_unit
            &&& writes_marker ==> plan.actions[n - 3] == write_marker
            &&& plan.actions[n - 2] == ActionView::Systemctl(SystemctlOperation::DaemonReload)
            &&& plan.actions[n - 1] == ActionView::Systemctl(SystemctlOperation::Enable)
            &&& plan.change.unit_changed == writes_unit
            &&& plan.change.autostart_overrides_changed.len() == 0
        }),
{
    let none = Seq::<AssessmentView>::empty();
    assert(none.map_values(suppression()).len() == 0);
}

/// A status tells what there is: whether there is a unit, whether it is the
/// launcher's and the one that would be written now, and the same of the
/// marker.
pub proof fn status_tells_what_is_there(
    manager: ManagerView,
    apps: Seq<RegisteredView>,
    files: Seq<(Seq<u8>, FileStateView)>,
    enabled: CommandOutcome,
    environment: CommandOutcome,
)
    ensures
        startup_status(manager, apps, files, enabled, environment) matches Ok(status) ==> ({
            let unit = state_at(files, manager.paths.unit_path());
            let marker = state_at(files, manager.paths.ownership_path());
            &&& status.unit_present <==> unit is Text
            &&& !status.unit_present <==> unit is Missing
            &&& status.unit_owned <==> unit is Text && generated_unit(unit->Text_0)
            &&& status.unit_current <==> manager.unit() is Ok && unit == FileStateView::Text(
                manager.unit()->Ok_0,
            )
            &&& status.ownership_present <==> marker is Text
            &&& status.ownership_owned <==> marker == FileStateView::Text(startup_marker())
            &&& status.unit_path == manager.paths.unit_path()
            &&& assessments(manager.paths, apps, files) == Ok::<
                Seq<AssessmentView>,
                IntegrationErrorView,
            >(status.autostart)
        }),
{
}

/// A unit counts as enabled exactly where the manager says so with success;
/// where it cannot be asked, that is unknown. What it says is passed on, unless
/// it is one of the usual states.
pub proof fn enabled_is_what_the_manager_says(
    outcome: CommandOutcome,
    success: bool,
    stdout: Seq<char>,
    stderr: Seq<char>,
)
    ensures
        outcome is Failed <==> enabled_state(outcome).0 is None,
        outcome matches CommandOutcome::Finished(result) ==> enabled_state(outcome).0 == Some(
            result.success,
        ),
        enabled_with(success, stdout, stderr).0 == Some(success),
        enabled_with(success, stdout, stderr).1 is None <==> success || seq![
            "disabled"@,
            "static"@,
            "indirect"@,
            "not-found"@,
        ].contains(trim(stdout)),
        enabled_with(success, stdout, stderr).1 matches Some(said) ==> said.len() > 0,
        enabled_with(success, stdout, stderr).1 is Some && trim(stderr).len() > 0 ==> enabled_with(
            success,
            stdout,
            stderr,
        ).1 == Some(trim(stderr)),
{
    let plain = seq!["disabled"@, "static"@, "indirect"@, "not-found"@];
    assert(plain[0] == "disabled"@ && plain[1] == "static"@ && plain[2] == "indirect"@ && plain[3]
        == "not-found"@);
    assert("command returned a non-zero status"@.len() > 0) by {
        reveal_strlit("command returned a non-zero status");
    }
}

/// A line is a variable's name, an equals sign and a value that is not empty.
pub open spec fn assigns(line: Seq<char>, key: Seq<char>, value: Seq<char>) -> bool {
    value.len() > 0 && line == key + seq!['='] + value
}

pub open spec fn assigned(all: Seq<Seq<char>>, key: Seq<char>) -> bool {
    exists|i: int, value: Seq<char>| 0 <= i < all.len() && assigns(#[trigger] all[i], key, value)
        && #[trigger] value.len() > 0
}

proof fn lemma_first_at(s: Seq<char>, c: char)
    ensures
        0 <= find_char(s, c) <= s.len(),
        find_char(s, c) < s.len() ==> s[find_char(s, c)] == c,
    decreases s.len(),
{
    if s.len() > 0 && s[0] != c {
        lemma_first_at(s.drop_first(), c);
    }
}

proof fn lemma_assigned(all: Seq<Seq<char>>, key: Seq<char>)
    requires
        !key.contains('='),
    ensures
        has_variable(all, key) <==> assigned(all, key),
{
    if has_variable(all, key) {
        let i = choose|i: int| 0 <= i < all.len() && #[trigger] sets_variable(all[i], key);
        let line = all[i];
        lemma_first_at(line, '=');
        let at = find_char(line, '=');
        let value = line.skip(at + 1);
        assert(line =~= line.take(at) + seq!['='] + value);
        assert(assigns(all[i], key, value));
        assert(value.len() > 0);
    }
    if assigned(all, key) {
        let (i, value) = choose|i: int, value: Seq<char>|
            0 <= i < all.len() && assigns(#[trigger] all[i], key, value)
                && #[trigger] value.len() > 0;
        let line = all[i];
        assert forall|k: int| 0 <= k < key.len() implies line[k] != '=' by {
            assert(line[k] == key[k]);
            assert(key.contains(key[k]));
        }
        lemma_find_char(line, '=', key.len() as int);
        assert(line.take(key.len() as int) =~= key);
        assert(sets_variable(all[i], key));
    }
}

/// The manager's environment has a variable exactly where a line gives it a
/// value.
pub proof fn variables_are_those_assigned(text: Seq<char>)
    ensures
        environment_status(text).display <==> assigned(lines(text), "DISPLAY"@),
        environment_status(text).wayland_display <==> assigned(lines(text), "WAYLAND_DISPLAY"@),
        environment_status(text).current_desktop <==> assigned(
            lines(text),
            "XDG_CURRENT_DESKTOP"@,
        ),
        environment_status(text).session_bus <==> assigned(
            lines(text),
            "DBUS_SESSION_BUS_ADDRESS"@,
        ),
{
    reveal_strlit("DISPLAY");
    reveal_strlit("WAYLAND_DISPLAY");
    reveal_strlit("XDG_CURRENT_DESKTOP");
    reveal_strlit("DBUS_SESSION_BUS_ADDRESS");
    lemma_assigned(lines(text), "DISPLAY"@);
    lemma_assigned(lines(text), "WAYLAND_DISPLAY"@);
    lemma_assigned(lines(text), "XDG_CURRENT_DESKTOP"@);
    lemma_assigned(lines(text), "DBUS_SESSION_BUS_ADDRESS"@);
}

/// The text that a unit's manager reads between double quotes: percent signs
/// come in pairs, and a backslash comes before a quote or another backslash.
/// There is none where one of them stands alone.
pub open spec fn unit_word(s: Seq<char>) -> Option<Seq<char>>
    decreases s.len(),
{
    if s.len() == 0 {
        Some(s)
    } else if s.len() >= 2 && s.last() == '%' && s[s.len() - 2] == '%' {
        match unit_word(s.take(s.len() - 2)) {
            Some(front) => Some(front.push('%')),
            None => None,
        }
    } else if s.len() >= 2 && (s.last() == '"' || s.last() == '\\') && s[s.len() - 2] == '\\' {
        match unit_word(s.take(s.len() - 2)) {
            Some(front) => Some(front.push(s.last())),
            None => None,
        }
    } else if s.last() == '%' || s.last() == '"' || s.last() == '\\' {
        None
    } else {
        match unit_word(s.drop_last()) {
            Some(front) => Some(front.push(s.last())),
            None => None,
        }
    }
}

/// What is written between double quotes in a unit is read as it was.
pub proof fn unit_words_are_read_back(s: Seq<char>)
    ensures
        unit_word(escaped(s)) == Some(s),
    decreases s.len(),
{
    if s.len() > 0 {
        let front = escaped(s.drop_last());
        let whole = escaped(s);
        unit_words_are_read_back(s.drop_last());
        assert(s.drop_last().push(s.last()) =~= s);
        if escaped_char(s.last()).len() == 2 {
            assert(whole.take(whole.len() - 2) =~= front);
        } else {
            assert(whole.drop_last() =~= front);
        }
    } else {
        assert(s =~= Seq::empty());
    }
}

/// A place in a chain of directories is the nearest one that exists, and is one
/// that the user owns and that is none of the system's.
pub open spec fn nearest_is_owned(states: Seq<AncestorState>, k: int, user: u32) -> bool {
    &&& 0 <= k < states.len()
    &&& forall|j: int| 0 <= j < k ==> #[trigger] states[j] is Missing
    &&& match states[k] {
        AncestorState::Exists { path, resolved, owner } => owner == user && (resolved is None
            || !is_system(components(resolved->0@))),
        _ => false,
    }
}

/// A chain of directories is accepted exactly where the nearest one that exists
/// belongs to the user.
pub proof fn nearest_directories_decide(
    root: Seq<u8>,
    field: Seq<char>,
    states: Seq<AncestorState>,
    user: u32,
)
    ensures
        nearest_failure(root, field, states, user) is None <==> exists|k: int|
            nearest_is_owned(states, k, user),
    decreases states.len(),
{
    if states.len() > 0 {
        let rest = states.drop_first();
        nearest_directories_decide(root, field, rest, user);
        if states[0] is Missing {
            if exists|k: int| nearest_is_owned(rest, k, user) {
                let k = choose|k: int| nearest_is_owned(rest, k, user);
                assert forall|j: int| 0 <= j < k + 1 implies #[trigger] states[j] is Missing by {
                    if j > 0 {
                        assert(rest[j - 1] == states[j]);
                    }
                }
                assert(nearest_is_owned(states, k + 1, user));
            }
            if exists|k: int| nearest_is_owned(states, k, user) {
                let k = choose|k: int| nearest_is_owned(states, k, user);
                assert forall|j: int| 0 <= j < k - 1 implies #[trigger] rest[j] is Missing by {
                    assert(rest[j] == states[j + 1]);
                }
                assert(nearest_is_owned(rest, k - 1, user));
            }
        } else {
            if ancestor_failure(root, field, states[0], user) is None {
                assert(nearest_is_owned(states, 0, user));
            }
            if exists|k: int| nearest_is_owned(states, k, user) {
                let k = choose|k: int| nearest_is_owned(states, k, user);
                if k > 0 {
                    assert(states[0] is Missing);
                }
            }
        }
    }
}

/// Components are normal once they are resolved: after the root come names
/// alone. Names alone stay as they are.
pub proof fn resolved_components_are_names(parts: Seq<ComponentView>)
    ensures
        normal_components(parts).len() > 0,
        normal_components(parts)[0] is Root,
        forall|k: int|
            0 < k < normal_components(parts).len() ==> #[trigger] normal_components(
                parts,
            )[k] is Normal,
        (forall|k: int| 0 <= k < parts.len() ==> #[trigger] parts[k] is Normal)
            ==> normal_components(parts) == seq![ComponentView::Root] + parts,
    decreases parts.len(),
{
    if parts.len() > 0 {
        let front = parts.drop_last();
        resolved_components_are_names(front);
        if forall|k: int| 0 <= k < parts.len() ==> #[trigger] parts[k] is Normal {
            assert forall|k: int| 0 <= k < front.len() implies #[trigger] front[k] is Normal by {
                assert(front[k] == parts[k]);
            }
            assert(parts.last() == parts[parts.len() - 1]);
            assert((seq![ComponentView::Root] + front).push(parts.last()) =~= seq![
                ComponentView::Root,
            ] + parts);
        }
    } else {
        assert(seq![ComponentView::Root] + parts =~= seq![ComponentView::Root]);
    }
}

/// A parent takes back the name before it, and the current directory changes
/// nothing.
pub proof fn parents_take_names_back(parts: Seq<ComponentView>, name: Seq<u8>)
    ensures
        normal_components(parts.push(ComponentView::Normal(name)).push(ComponentView::Parent))
            == normal_components(parts),
        normal_components(parts.push(ComponentView::Current)) == normal_components(parts),
{
    let named = parts.push(ComponentView::Normal(name));
    let back = named.push(ComponentView::Parent);
    assert(named.drop_last() =~= parts);
    assert(back.drop_last() =~= named);
    assert(parts.push(ComponentView::Current).drop_last() =~= parts);
    resolved_components_are_names(parts);
    assert(normal_components(named).drop_last() =~= normal_components(parts));
}

/// A root that is given goes before that of the environment, which goes before
/// the one below the home directory; empty variables count for nothing.
pub proof fn given_roots_go_first(
    explicit: Option<Seq<u8>>,
    variable: Option<Seq<u8>>,
    home: Option<Seq<u8>>,
    below: Seq<char>,
)
    ensures
        explicit is Some ==> chosen_root(explicit, variable, home, below) == explicit,
        explicit is None && variable is Some && variable->0.len() > 0 ==> chosen_root(
            explicit,
            variable,
            home,
            below,
        ) == variable,
        explicit is None && variable == Some(Seq::<u8>::empty()) ==> chosen_root(
            explicit,
            variable,
            home,
            below,
        ) == chosen_root(None, None, home, below),
        chosen_root(None, None, home, below) is Some <==> home is Some && home->0.len() > 0,
{
}

/// The system's roots are those given, or else those of the environment and the
/// one for shared data, which is there in any case.
pub proof fn shared_data_is_a_system_root(
    explicit: Seq<Seq<u8>>,
    variable: Seq<Seq<u8>>,
    root: Seq<u8>,
)
    ensures
        explicit.len() > 0 ==> chosen_config_dirs(explicit, variable) == explicit,
        explicit.len() == 0 ==> names_usr_share(chosen_config_dirs(explicit, variable)),
        explicit.len() == 0 && variable.contains(root) ==> chosen_config_dirs(
            explicit,
            variable,
        ).contains(root),
        explicit.len() == 0 && chosen_config_dirs(explicit, variable).contains(root)
            ==> variable.contains(root) || root == encode_utf8("/usr/share"@) || (variable.len()
            == 0 && root == encode_utf8("/etc/xdg"@)),
{
    let listed = if variable.len() == 0 {
        seq![encode_utf8("/etc/xdg"@)]
    } else {
        variable
    };
    let all = chosen_config_dirs(explicit, variable);
    if explicit.len() == 0 {
        if !names_usr_share(listed) {
            assert(all[all.len() - 1] == encode_utf8("/usr/share"@));
            assert(same_path(all[all.len() - 1], encode_utf8("/usr/share"@)));
        }
        if variable.contains(root) {
            let i = choose|i: int| 0 <= i < variable.len() && variable[i] == root;
            assert(all[i] == root);
        }
        if all.contains(root) {
            let i = choose|i: int| 0 <= i < all.len() && all[i] == root;
            if i < listed.len() {
                assert(listed[i] == root);
            }
        }
    }
}

/// A file may be removed exactly where it stands in a directory that the user
/// may write to and its text was seen to be the launcher's.
pub proof fn only_owned_files_are_removed(
    path: Seq<u8>,
    owned: OwnedView,
    states: Seq<AncestorState>,
    user: u32,
    state: FileState,
)
    ensures
        removal_failure(path, owned, states, user, state) is None <==> (parent(path) is Some
            && user_root_failure(
            parent(path)->0,
            "integration destination"@,
            states,
            user,
        ) is None && (state@ matches FileStateView::Text(text) && owned.owns(text))),
        owned matches OwnedView::Exactly(expected) ==> forall|text: Seq<char>|
            #[trigger] owned.owns(text) <==> text == expected,
{
}

/// A write that meets nothing in its way is done: the directory is there, the
/// destination missing or the launcher's, and every step succeeds.
pub proof fn undisturbed_writes_are_done(
    start: WriteView,
    states: Vec<AncestorState>,
    user: u32,
    state: FileState,
)
    requires
        start.phase is InspectRoot,
        user_root_failure(
            start.directory,
            "integration destination"@,
            states@,
            user,
        ) is None,
        state@ is Missing || (state@ is Text && start.owned.owns(state@->Text_0)),
        replace_name(start.path) is Some,
    ensures
        ({
            let rooted = start.next(WriteEvent::Root { states, user });
            let placed = rooted.next(WriteEvent::Directory(DirectoryState::Directory));
            let begun = placed.next(WriteEvent::Destination(state));
            let filled = begun.next(WriteEvent::Outcome(ReplaceEvent::Succeeded)).next(
                WriteEvent::Outcome(ReplaceEvent::Succeeded),
            );
            let cleared = filled.next(WriteEvent::Destination(state));
            let renamed = cleared.next(WriteEvent::Outcome(ReplaceEvent::Succeeded));
            renamed.next(WriteEvent::Outcome(ReplaceEvent::Succeeded)).phase is Done
        }),
{
}

/// A character that may stand in a file name: no separator, no backslash and
/// no control character.
pub open spec fn plain_char(c: char) -> bool {
    c > '\u{1F}' && c != '/' && c != '\\' && !('\u{7F}' <= c <= '\u{9F}')
}

/// A desktop ID can be a file name exactly where it is one component of plain
/// characters that is neither of the two directories.
pub proof fn usable_ids_are_plain_names(id: Seq<char>)
    ensures
        usable_id(id) <==> {
            &&& id.len() > 0
            &&& id != seq!['.']
            &&& id != seq!['.', '.']
            &&& forall|i: int| 0 <= i < id.len() ==> plain_char(#[trigger] id[i])
        },
{
    reveal_strlit(".");
    reveal_strlit("..");
    assert("."@ =~= seq!['.']);
    assert(".."@ =~= seq!['.', '.']);
    if usable_id(id) {
        assert forall|i: int| 0 <= i < id.len() implies plain_char(#[trigger] id[i]) by {
            assert(id.contains(id[i]));
            assert(!is_control(id[i]));
        }
    }
    if forall|i: int| 0 <= i < id.len() ==> plain_char(#[trigger] id[i]) {
        if has_control(id) {
            let i = choose|i: int| 0 <= i < id.len() && is_control(#[trigger] id[i]);
            assert(plain_char(id[i]));
        }
        assert(!id.contains('/') && !id.contains('\\') && !id.contains('\0'));
    }
}

/// A path is accepted exactly where it is absolute and holds no control byte.
pub proof fn accepted_paths_are_absolute(path: Seq<u8>, field: Seq<char>)
    ensures
        absolute_path_failure(path, field) is None <==> {
            &&& path.len() > 0
            &&& path[0] == 0x2F
            &&& forall|i: int| 0 <= i < path.len() ==> #[trigger] path[i] >= 0x20 && path[i] != 0x7F
        },
{
    if absolute_path_failure(path, field) is None {
        assert forall|i: int| 0 <= i < path.len() implies #[trigger] path[i] >= 0x20 && path[i]
            != 0x7F by {
            assert(!is_control_byte(path[i]));
        }
    }
}

/// The names of the directories below the root that belong to the system.
pub open spec fn system_names() -> Seq<Seq<char>> {
    seq!["etc"@, "usr"@, "lib"@, "lib64"@, "boot"@, "proc"@, "sys"@, "dev"@]
}

/// The root and everything below one of the system's directories is a system
/// location; so is what is below the system's part of `/run` and `/var`.
pub proof fn system_directories_are_system_locations(k: int, rest: Seq<ComponentView>)
    requires
        0 <= k < system_names().len(),
    ensures
        is_system(seq![ComponentView::Root]),
        is_system(
            seq![ComponentView::Root, ComponentView::Normal(encode_utf8(system_names()[k]))] + rest,
        ),
        is_system(
            seq![
                ComponentView::Root,
                ComponentView::Normal(encode_utf8("run"@)),
                ComponentView::Normal(encode_utf8("systemd"@)),
            ] + rest,
        ),
        is_system(
            seq![
                ComponentView::Root,
                ComponentView::Normal(encode_utf8("var"@)),
                ComponentView::Normal(encode_utf8("lib"@)),
            ] + rest,
        ),
        is_system(
            seq![
                ComponentView::Root,
                ComponentView::Normal(encode_utf8("var"@)),
                ComponentView::Normal(encode_utf8("run"@)),
            ] + rest,
        ),
{
}

/// Disabling has the manager disable the unit before the files are removed and
/// take notice afterwards; where there is neither a unit nor a marker it does
/// nothing.
pub proof fn disabling_begins_and_ends_with_the_manager(
    manager: ManagerView,
    files: Seq<(Seq<u8>, FileStateView)>,
)
    requires
        disable_plan(manager, files) is Ok,
    ensures
        ({
            let plan = disable_plan(manager, files)->Ok_0;
            let unit = state_at(files, manager.paths.unit_path()) is Text;
            let marker = state_at(files, manager.paths.ownership_path()) is Text;
            let n = plan.actions.len();
            &&& !unit && !marker <==> n == 0
            &&& unit || marker ==> plan.actions[0] == ActionView::Systemctl(
                SystemctlOperation::Disable,
            ) && plan.actions[n - 1] == ActionView::Systemctl(SystemctlOperation::DaemonReload)
            &&& n > 0 ==> n == 2 + (if unit {
                1int
            } else {
                0
            }) + (if marker {
                1int
            } else {
                0
            })
            &&& plan.change.unit_changed == unit
        }),
{
}

/// The manager's environment is ready where it has a display of either kind, a
/// desktop and a session bus.
pub proof fn ready_environments_have_a_display(status: ManagerEnvironmentStatus)
    ensures
        status.ready() <==> (status.display || status.wayland_display) && status.current_desktop
            && status.session_bus,
{
}

} // verus!
