//! What holds of startup integration as a whole.
use vstd::prelude::*;

use vstd::utf8::{encode_utf8, encode_utf8_decode_utf8, encode_utf8_valid_utf8};

use super::autostart::{
    assessed, assessment, assessment_before, assessments, state_at, usable_id, AssessmentView,
    AutostartState,
};
use super::files::{
    escaped, escaped_char, generated_unit, owned_override, quoted, regular_text, startup_marker,
    unit_for, unit_lines, unit_text, FileStateView, OwnedView,
};
use super::paths::PathsView;
use super::startup::{
    assessed_id, disable_plan, enable_plan, enabling, is_duplicate, suppression, ActionView,
    ManagerView, SystemctlOperation,
};
use super::suppression::removal;
use crate::order::{lemma_filter_holds, lemma_stable_sorted_permutes, stable_sorted};
use crate::path::{joined, path_text};
use crate::registry::model::RegisteredView;
use crate::text::{has_control, is_control, join, lemma_lines_of_joined, lines, starts_with};

verus! {

spec fn plain(s: Seq<char>) -> bool {
    forall|i: int| 0 <= i < s.len() ==> !is_control(#[trigger] s[i])
}

proof fn lemma_plain_add(a: Seq<char>, b: Seq<char>)
    requires
        plain(a),
        plain(b),
    ensures
        plain(a + b),
{
    assert forall|i: int| 0 <= i < (a + b).len() implies !is_control(#[trigger] (a + b)[i]) by {
        if i < a.len() {
            assert((a + b)[i] == a[i]);
        } else {
            assert((a + b)[i] == b[i - a.len()]);
        }
    }
}

proof fn lemma_escaped_is_plain(s: Seq<char>)
    requires
        !has_control(s),
    ensures
        plain(escaped(s)),
    decreases s.len(),
{
    if s.len() > 0 {
        let front = s.drop_last();
        assert(!has_control(front)) by {
            if has_control(front) {
                let i = choose|i: int| 0 <= i < front.len() && is_control(#[trigger] front[i]);
                assert(is_control(s[i]));
            }
        }
        lemma_escaped_is_plain(front);
        assert(!is_control(s[s.len() - 1]));
        assert(plain(escaped_char(s.last())));
        lemma_plain_add(escaped(front), escaped_char(s.last()));
    }
}

proof fn lemma_quoted_is_plain(s: Seq<char>)
    requires
        !has_control(s),
    ensures
        plain(quoted(s)),
{
    lemma_escaped_is_plain(s);
    reveal_strlit("\"");
    lemma_plain_add("\""@, escaped(s));
    lemma_plain_add("\""@ + escaped(s), "\""@);
}

proof fn lemma_fixed_lines_are_plain()
    ensures
        plain("# Generated and owned by ecore-launcher."@),
        plain("[Unit]"@),
        plain("Description=Launch explicitly managed desktop applications on detected E-cores"@),
        plain("After=graphical-session.target"@),
        plain("PartOf=graphical-session.target"@),
        plain(""@),
        plain("[Service]"@),
        plain("Type=simple"@),
        plain("ExecStart=:"@),
        plain(" --config "@),
        plain(" supervise"@),
        plain("KillMode=process"@),
        plain("Restart=no"@),
        plain("[Install]"@),
        plain("WantedBy=graphical-session.target"@),
{
    reveal_strlit("# Generated and owned by ecore-launcher.");
    reveal_strlit("[Unit]");
    reveal_strlit("Description=Launch explicitly managed desktop applications on detected E-cores");
    reveal_strlit("After=graphical-session.target");
    reveal_strlit("PartOf=graphical-session.target");
    reveal_strlit("");
    reveal_strlit("[Service]");
    reveal_strlit("Type=simple");
    reveal_strlit("ExecStart=:");
    reveal_strlit(" --config ");
    reveal_strlit(" supervise");
    reveal_strlit("KillMode=process");
    reveal_strlit("Restart=no");
    reveal_strlit("[Install]");
    reveal_strlit("WantedBy=graphical-session.target");
}

proof fn lemma_unit_lines_are_plain(executable: Seq<char>, registry: Seq<char>)
    requires
        plain(executable),
        plain(registry),
    ensures
        forall|k: int, i: int|
            0 <= k < 14 && 0 <= i < unit_lines(executable, registry)[k].len() ==> !is_control(
                #[trigger] unit_lines(executable, registry)[k][i],
            ),
{
    lemma_fixed_lines_are_plain();
    let all = unit_lines(executable, registry);
    lemma_plain_add("ExecStart=:"@, executable);
    lemma_plain_add("ExecStart=:"@ + executable, " --config "@);
    lemma_plain_add("ExecStart=:"@ + executable + " --config "@, registry);
    lemma_plain_add("ExecStart=:"@ + executable + " --config "@ + registry, " supervise"@);
    assert forall|k: int, i: int| 0 <= k < 14 && 0 <= i < all[k].len() implies !is_control(
        #[trigger] all[k][i],
    ) by {
        assert(plain(all[k]));
    }
}

/// A joined text begins with its first piece and what follows it.
proof fn lemma_join_begins(parts: Seq<Seq<char>>)
    requires
        parts.len() > 1,
    ensures
        starts_with(join(parts, seq!['\n']), parts[0].push('\n')),
    decreases parts.len(),
{
    let whole = join(parts, seq!['\n']);
    let front = parts.drop_last();
    let begin = join(front, seq!['\n']);
    if parts.len() == 2 {
        assert(begin == parts[0]);
        assert(whole.take(parts[0].len() as int + 1) =~= parts[0].push('\n'));
    } else {
        lemma_join_begins(front);
        assert(whole.take(parts[0].len() as int + 1) =~= begin.take(parts[0].len() as int + 1));
    }
}

proof fn lemma_join_contains(parts: Seq<Seq<char>>, c: char)
    requires
        c != '\n',
        join(parts, seq!['\n']).contains(c),
    ensures
        exists|k: int, i: int|
            0 <= k < parts.len() && 0 <= i < parts[k].len() && #[trigger] parts[k][i] == c,
    decreases parts.len(),
{
    let whole = join(parts, seq!['\n']);
    let at = choose|at: int| 0 <= at < whole.len() && whole[at] == c;
    if parts.len() == 1 {
        assert(parts[0][at] == c);
    } else if parts.len() > 1 {
        let front = parts.drop_last();
        let begin = join(front, seq!['\n']);
        if at < begin.len() {
            assert(begin[at] == c);
            assert(begin.contains(c));
            lemma_join_contains(front, c);
            let (k, i) = choose|k: int, i: int|
                0 <= k < front.len() && 0 <= i < front[k].len() && #[trigger] front[k][i] == c;
            assert(parts[k][i] == c);
        } else {
            assert(parts[parts.len() - 1][at - begin.len() - 1] == c);
        }
    }
}

/// The launcher takes the units that it writes for its own, so that it can
/// replace and remove them.
pub proof fn own_unit_is_recognized(executable: Seq<u8>, registry: Seq<u8>)
    requires
        unit_for(executable, registry) is Ok,
    ensures
        generated_unit(unit_for(executable, registry)->Ok_0),
        OwnedView::Unit.owns(unit_for(executable, registry)->Ok_0),
{
    let program = quoted(path_text(executable)->0);
    let configuration = quoted(path_text(registry)->0);
    lemma_quoted_is_plain(path_text(executable)->0);
    lemma_quoted_is_plain(path_text(registry)->0);
    lemma_unit_lines_are_plain(program, configuration);
    let all = unit_lines(program, configuration);
    let text = unit_text(program, configuration);
    lemma_lines_of_joined(all);
    assert(lines(text) == all);
    lemma_join_begins(all);
    let marker = "# Generated and owned by ecore-launcher.\n"@;
    assert(marker =~= all[0].push('\n')) by {
        reveal_strlit("# Generated and owned by ecore-launcher.\n");
        reveal_strlit("# Generated and owned by ecore-launcher.");
    }
    assert(text.take(marker.len() as int) =~= join(all, seq!['\n']).take(marker.len() as int));
    assert(!text.contains('\0')) by {
        if text.contains('\0') {
            let at = choose|at: int| 0 <= at < text.len() && text[at] == '\0';
            assert(join(all, seq!['\n'])[at] == '\0');
            assert(join(all, seq!['\n']).contains('\0'));
            lemma_join_contains(all, '\0');
            let (k, i) = choose|k: int, i: int|
                0 <= k < all.len() && 0 <= i < all[k].len() && #[trigger] all[k][i] == '\0';
            assert(!is_control(all[k][i]));
        }
    }
    assert(starts_with(all[8], "ExecStart=:"@)) by {
        assert(all[8].take("ExecStart=:"@.len() as int) =~= "ExecStart=:"@);
    }
}

/// An assessment belongs to an enabled application and holds what was seen.
pub(crate) open spec fn is_assessed(
    paths: PathsView,
    apps: Seq<RegisteredView>,
    files: Seq<(Seq<u8>, FileStateView)>,
    one: AssessmentView,
) -> bool {
    &&& assessment(paths, one.desktop_id, files) == Ok::<
        AssessmentView,
        super::error::IntegrationErrorView,
    >(one)
    &&& exists|k: int|
        0 <= k < apps.len() && (#[trigger] apps[k]).enabled && apps[k].desktop_id == one.desktop_id
}

proof fn lemma_assessed(
    paths: PathsView,
    apps: Seq<RegisteredView>,
    files: Seq<(Seq<u8>, FileStateView)>,
    i: int,
)
    requires
        assessed(paths, apps, files) is Ok,
        0 <= i < assessed(paths, apps, files)->Ok_0.len(),
    ensures
        is_assessed(paths, apps, files, assessed(paths, apps, files)->Ok_0[i]),
    decreases apps.len(),
{
    let all = assessed(paths, apps, files)->Ok_0;
    let front = assessed(paths, apps.drop_last(), files)->Ok_0;
    if i < front.len() {
        lemma_assessed(paths, apps.drop_last(), files, i);
        let k = choose|k: int|
            0 <= k < apps.drop_last().len() && (#[trigger] apps.drop_last()[k]).enabled
                && apps.drop_last()[k].desktop_id == front[i].desktop_id;
        assert(apps[k] == apps.drop_last()[k]);
    } else {
        assert(apps[apps.len() - 1] == apps.last());
    }
}

pub(crate) proof fn lemma_assessments(
    paths: PathsView,
    apps: Seq<RegisteredView>,
    files: Seq<(Seq<u8>, FileStateView)>,
    one: AssessmentView,
)
    requires
        assessments(paths, apps, files) is Ok,
        assessments(paths, apps, files)->Ok_0.contains(one),
    ensures
        is_assessed(paths, apps, files, one),
{
    broadcast use vstd::seq_lib::group_to_multiset_ensures;

    let all = assessed(paths, apps, files)->Ok_0;
    lemma_stable_sorted_permutes(all, assessment_before());
    assert(stable_sorted(all, assessment_before()).to_multiset().count(one) > 0);
    assert(all.contains(one));
    let i = choose|i: int| 0 <= i < all.len() && all[i] == one;
    lemma_assessed(paths, apps, files, i);
}

/// A file that is missing or one of the owned ones.
pub open spec fn missing_or_owned(
    files: Seq<(Seq<u8>, FileStateView)>,
    path: Seq<u8>,
    owned: OwnedView,
) -> bool {
    match state_at(files, path) {
        FileStateView::Missing => true,
        FileStateView::Text(text) => owned.owns(text),
        _ => false,
    }
}

pub(crate) proof fn lemma_duplicates(
    paths: PathsView,
    apps: Seq<RegisteredView>,
    files: Seq<(Seq<u8>, FileStateView)>,
    i: int,
)
    requires
        assessments(paths, apps, files) is Ok,
        0 <= i < assessments(paths, apps, files)->Ok_0.filter(is_duplicate()).len(),
    ensures
        ({
            let one = assessments(paths, apps, files)->Ok_0.filter(is_duplicate())[i];
            &&& is_assessed(paths, apps, files, one)
            &&& one.state == AutostartState::DuplicateRisk
            &&& state_at(files, one.user_override) is Missing
            &&& one.system_entries.len() > 0
        }),
{
    let all = assessments(paths, apps, files)->Ok_0;
    let one = all.filter(is_duplicate())[i];
    lemma_filter_holds(all, is_duplicate(), one);
    assert(all.filter(is_duplicate()).contains(one));
    lemma_assessments(paths, apps, files, one);
}

/// Enabling writes only where there is nothing or a file of the launcher, and
/// what it writes the launcher takes for its own.
pub proof fn enabling_spares_user_files(
    manager: ManagerView,
    apps: Seq<RegisteredView>,
    suppress: bool,
    files: Seq<(Seq<u8>, FileStateView)>,
    k: int,
)
    requires
        enable_plan(manager, apps, suppress, files) is Ok,
        0 <= k < enable_plan(manager, apps, suppress, files)->Ok_0.actions.len(),
    ensures
        match enable_plan(manager, apps, suppress, files)->Ok_0.actions[k] {
            ActionView::Write { path, contents, owned } => missing_or_owned(files, path, owned)
                && owned.owns(contents),
            ActionView::Remove { .. } => false,
            ActionView::Systemctl(_) => true,
        },
{
    let plan = enable_plan(manager, apps, suppress, files)->Ok_0;
    let all = assessments(manager.paths, apps, files)->Ok_0;
    let unit = manager.unit()->Ok_0;
    let unit_path = manager.paths.unit_path();
    let ownership_path = manager.paths.ownership_path();
    let current = regular_text(unit_path, state_at(files, unit_path))->Ok_0;
    let marked = regular_text(ownership_path, state_at(files, ownership_path))->Ok_0 is Some;
    let duplicates = if suppress {
        all.filter(is_duplicate())
    } else {
        Seq::empty()
    };
    assert(plan == enabling(manager, unit, current, marked, duplicates));
    own_unit_is_recognized(manager.launcher_executable, manager.registry_path);
    let fixed = plan.actions.len() - duplicates.len();
    if k >= fixed {
        let i = k - fixed;
        assert(plan.actions[k] == duplicates.map_values(suppression())[i]);
        assert(plan.actions[k] == suppression()(duplicates[i]));
        lemma_duplicates(manager.paths, apps, files, i);
    }
}

/// Enabling suppresses only the autostart of applications that are registered
/// and enabled and that the system would start too, and none unless asked to.
pub proof fn suppresses_only_managed_duplicates(
    manager: ManagerView,
    apps: Seq<RegisteredView>,
    suppress: bool,
    files: Seq<(Seq<u8>, FileStateView)>,
    i: int,
)
    requires
        enable_plan(manager, apps, suppress, files) is Ok,
        0 <= i < enable_plan(
            manager,
            apps,
            suppress,
            files,
        )->Ok_0.change.autostart_overrides_changed.len(),
    ensures
        suppress,
        ({
            let id = enable_plan(
                manager,
                apps,
                suppress,
                files,
            )->Ok_0.change.autostart_overrides_changed[i];
            &&& exists|k: int|
                0 <= k < apps.len() && (#[trigger] apps[k]).enabled && apps[k].desktop_id == id
            &&& assessment(manager.paths, id, files) matches Ok(one)
            &&& one.state == AutostartState::DuplicateRisk
            &&& one.system_entries.len() > 0
        }),
{
    let all = assessments(manager.paths, apps, files)->Ok_0;
    if suppress {
        let duplicates = all.filter(is_duplicate());
        lemma_duplicates(manager.paths, apps, files, i);
        assert(duplicates.map_values(assessed_id())[i] == duplicates[i].desktop_id);
    }
}

/// Where the unit is current, the marker is there and nothing has to be
/// suppressed, enabling changes no file.
pub proof fn enabling_again_changes_nothing(
    manager: ManagerView,
    apps: Seq<RegisteredView>,
    suppress: bool,
    files: Seq<(Seq<u8>, FileStateView)>,
)
    requires
        enable_plan(manager, apps, suppress, files) is Ok,
        state_at(files, manager.paths.unit_path()) == FileStateView::Text(manager.unit()->Ok_0),
        state_at(files, manager.paths.ownership_path()) == FileStateView::Text(startup_marker()),
        !suppress || assessments(manager.paths, apps, files)->Ok_0.filter(is_duplicate()).len()
            == 0,
    ensures
        enable_plan(manager, apps, suppress, files)->Ok_0.actions == seq![
            ActionView::Systemctl(SystemctlOperation::DaemonReload),
            ActionView::Systemctl(SystemctlOperation::Enable),
        ],
        !enable_plan(manager, apps, suppress, files)->Ok_0.change.unit_changed,
{
}

/// Disabling removes only files that were seen to be the launcher's.
pub proof fn disabling_spares_user_files(
    manager: ManagerView,
    files: Seq<(Seq<u8>, FileStateView)>,
    k: int,
)
    requires
        disable_plan(manager, files) is Ok,
        0 <= k < disable_plan(manager, files)->Ok_0.actions.len(),
    ensures
        match disable_plan(manager, files)->Ok_0.actions[k] {
            ActionView::Write { .. } => false,
            ActionView::Remove { path, owned } => state_at(files, path) matches FileStateView::Text(
                text,
            ) && owned.owns(text),
            ActionView::Systemctl(_) => true,
        },
{
}

/// Where the unit is the launcher's current one and the marker is there,
/// disabling removes both.
pub proof fn disabling_removes_unit_and_marker(manager: ManagerView, files: Seq<(Seq<u8>, FileStateView)>)
    requires
        manager.unit() is Ok,
        state_at(files, manager.paths.unit_path()) == FileStateView::Text(manager.unit()->Ok_0),
        state_at(files, manager.paths.ownership_path()) == FileStateView::Text(startup_marker()),
    ensures
        disable_plan(manager, files) is Ok,
        disable_plan(manager, files)->Ok_0.actions == seq![
            ActionView::Systemctl(SystemctlOperation::Disable),
            ActionView::Remove { path: manager.paths.unit_path(), owned: OwnedView::Unit },
            ActionView::Remove {
                path: manager.paths.ownership_path(),
                owned: OwnedView::Exactly(startup_marker()),
            },
            ActionView::Systemctl(SystemctlOperation::DaemonReload),
        ],
{
    own_unit_is_recognized(manager.launcher_executable, manager.registry_path);
    assert(disable_plan(manager, files)->Ok_0.actions =~= seq![
        ActionView::Systemctl(SystemctlOperation::Disable),
        ActionView::Remove { path: manager.paths.unit_path(), owned: OwnedView::Unit },
        ActionView::Remove {
            path: manager.paths.ownership_path(),
            owned: OwnedView::Exactly(startup_marker()),
        },
        ActionView::Systemctl(SystemctlOperation::DaemonReload),
    ]);
}

/// The removal of overrides removes only what is, to the letter, an override
/// of the launcher under its own name.
pub proof fn removal_spares_user_files(
    directory: Seq<u8>,
    entries: Seq<(Seq<u8>, FileStateView)>,
    k: int,
)
    requires
        0 <= k < removal(directory, entries).actions.len(),
    ensures
        removal(directory, entries).removed.len() == removal(directory, entries).actions.len(),
        exists|i: int|
            {
                let id = removal(directory, entries).removed[k];
                &&& 0 <= i < entries.len()
                &&& path_text((#[trigger] entries[i]).0) == Some(id)
                &&& entries[i].1 == FileStateView::Text(owned_override(id))
                &&& removal(directory, entries).actions[k] == (ActionView::Remove {
                    path: joined(directory, entries[i].0),
                    owned: OwnedView::Exactly(owned_override(id)),
                })
            },
    decreases entries.len(),
{
    let whole = removal(directory, entries);
    let front = removal(directory, entries.drop_last());
    lemma_removal_lengths(directory, entries);
    lemma_removal_lengths(directory, entries.drop_last());
    if k < front.actions.len() {
        removal_spares_user_files(directory, entries.drop_last(), k);
        let id = front.removed[k];
        let i = choose|i: int|
            {
                &&& 0 <= i < entries.drop_last().len()
                &&& path_text((#[trigger] entries.drop_last()[i]).0) == Some(id)
                &&& entries.drop_last()[i].1 == FileStateView::Text(owned_override(id))
                &&& front.actions[k] == (ActionView::Remove {
                    path: joined(directory, entries.drop_last()[i].0),
                    owned: OwnedView::Exactly(owned_override(id)),
                })
            };
        assert(entries[i] == entries.drop_last()[i]);
        assert(whole.removed[k] == id);
    } else {
        assert(entries[entries.len() - 1] == entries.last());
    }
}

proof fn lemma_removal_lengths(directory: Seq<u8>, entries: Seq<(Seq<u8>, FileStateView)>)
    ensures
        removal(directory, entries).removed.len() == removal(directory, entries).actions.len(),
    decreases entries.len(),
{
    if entries.len() > 0 {
        lemma_removal_lengths(directory, entries.drop_last());
    }
}

/// Every override that the launcher wrote is taken back, where nothing fails.
pub proof fn suppression_is_reversible(
    directory: Seq<u8>,
    entries: Seq<(Seq<u8>, FileStateView)>,
    desktop_id: Seq<char>,
)
    requires
        removal(directory, entries).failure is None,
        usable_id(desktop_id),
        entries.contains(
            (encode_utf8(desktop_id), FileStateView::Text(owned_override(desktop_id))),
        ),
    ensures
        removal(directory, entries).removed.contains(desktop_id),
        removal(directory, entries).actions.contains(
            ActionView::Remove {
                path: joined(directory, encode_utf8(desktop_id)),
                owned: OwnedView::Exactly(owned_override(desktop_id)),
            },
        ),
    decreases entries.len(),
{
    let entry = (encode_utf8(desktop_id), FileStateView::Text(owned_override(desktop_id)));
    let whole = removal(directory, entries);
    let front = removal(directory, entries.drop_last());
    let action = ActionView::Remove {
        path: joined(directory, encode_utf8(desktop_id)),
        owned: OwnedView::Exactly(owned_override(desktop_id)),
    };
    assert(entries.len() > 0);
    assert(front.failure is None);
    if entries.drop_last().contains(entry) {
        suppression_is_reversible(directory, entries.drop_last(), desktop_id);
        let i = choose|i: int| 0 <= i < front.removed.len() && front.removed[i] == desktop_id;
        let j = choose|j: int| 0 <= j < front.actions.len() && front.actions[j] == action;
        assert(whole.removed[i] == desktop_id);
        assert(whole.actions[j] == action);
    } else {
        let i = choose|i: int| 0 <= i < entries.len() && entries[i] == entry;
        if i < entries.len() - 1 {
            assert(entries.drop_last()[i] == entry);
        }
        assert(entries.last() == entry);
        encode_utf8_valid_utf8(desktop_id);
        encode_utf8_decode_utf8(desktop_id);
        assert(whole.removed[whole.removed.len() - 1] == desktop_id);
        assert(whole.actions[whole.actions.len() - 1] == action);
    }
}

} // verus!
