//! What the files are after a plan was carried out, and what a second plan
//! makes of them.
use vstd::prelude::*;

use vstd::utf8::{
    char_is_scalar, char_u32_cast, encode_scalar, encode_utf8, encode_utf8_decode_utf8,
    has_width_1_encoding, is_ascii_chars_encode_utf8, leading_byte_width_1,
};

use super::autostart::{
    assessed, assessment, assessment_before, assessments, entry_below, inspected_for, is_conflict,
    lemma_entries_depend, override_path, present_entries, state_at, suppression_failure, usable_id,
    AssessmentView, AutostartState,
};
use super::error::IntegrationErrorView;
use super::files::{owned_override, regular_text, startup_marker, FileStateView, OwnedView};
use super::laws::{
    disabling_removes_unit_and_marker, lemma_assessments, lemma_duplicates, own_unit_is_recognized,
};
use super::paths::{PathsView, USER_UNIT_NAME};
use super::startup::{
    assessed_id, disable_plan, enable_plan, enabling, is_duplicate, suppression, ActionView,
    ChangeView, ManagerView, PlanView, SystemctlOperation,
};
use crate::order::{lemma_filter_holds, lemma_sorted_holds};
use crate::path::{child, joined};
use crate::registry::model::RegisteredView;

verus! {

/// What is seen at the paths after some actions, all of which succeeded.
pub open spec fn applied(files: Seq<(Seq<u8>, FileStateView)>, actions: Seq<ActionView>) -> Seq<
    (Seq<u8>, FileStateView),
>
    decreases actions.len(),
{
    if actions.len() == 0 {
        files
    } else {
        let before = applied(files, actions.drop_last());
        match actions.last() {
            ActionView::Write { path, contents, .. } => before.push(
                (path, FileStateView::Text(contents)),
            ),
            ActionView::Remove { path, .. } => before.push((path, FileStateView::Missing)),
            ActionView::Systemctl(_) => before,
        }
    }
}

/// An action writes or removes the file at a path.
pub open spec fn touches(action: ActionView, path: Seq<u8>) -> bool {
    match action {
        ActionView::Write { path: at, .. } => at == path,
        ActionView::Remove { path: at, .. } => at == path,
        ActionView::Systemctl(_) => false,
    }
}

proof fn lemma_applied_add(
    files: Seq<(Seq<u8>, FileStateView)>,
    first: Seq<ActionView>,
    second: Seq<ActionView>,
)
    ensures
        applied(files, first + second) == applied(applied(files, first), second),
    decreases second.len(),
{
    if second.len() == 0 {
        assert(first + second =~= first);
    } else {
        assert((first + second).drop_last() =~= first + second.drop_last());
        lemma_applied_add(files, first, second.drop_last());
    }
}

/// What no action touches stays as it was.
pub proof fn actions_spare_other_files(
    files: Seq<(Seq<u8>, FileStateView)>,
    actions: Seq<ActionView>,
    path: Seq<u8>,
)
    requires
        forall|k: int| 0 <= k < actions.len() ==> !touches(#[trigger] actions[k], path),
    ensures
        state_at(applied(files, actions), path) == state_at(files, path),
    decreases actions.len(),
{
    if actions.len() > 0 {
        let front = actions.drop_last();
        assert forall|k: int| 0 <= k < front.len() implies !touches(#[trigger] front[k], path) by {
            assert(!touches(actions[k], path));
        }
        actions_spare_other_files(files, front, path);
        assert(!touches(actions[actions.len() - 1], path));
        let before = applied(files, front);
        match actions.last() {
            ActionView::Write { path: at, contents, .. } => {
                let last = (at, FileStateView::Text(contents));
                assert(before.push(last).drop_last() =~= before);
            },
            ActionView::Remove { path: at, .. } => {
                let last = (at, FileStateView::Missing);
                assert(before.push(last).drop_last() =~= before);
            },
            ActionView::Systemctl(_) => {},
        }
    }
}

spec fn no_slash(bytes: Seq<u8>) -> bool {
    forall|i: int| 0 <= i < bytes.len() ==> #[trigger] bytes[i] != 0x2F
}

proof fn lemma_high_bytes(scalar: u32)
    by (bit_vector)
    ensures
        0xC0u8 | ((scalar >> 6) & 0x1F) as u8 >= 0x80,
        0xE0u8 | ((scalar >> 12) & 0x0F) as u8 >= 0x80,
        0xF0u8 | ((scalar >> 18) & 0x7) as u8 >= 0x80,
        0x80u8 | (scalar & 0x3F) as u8 >= 0x80,
        0x80u8 | ((scalar >> 6) & 0x3F) as u8 >= 0x80,
        0x80u8 | ((scalar >> 12) & 0x3F) as u8 >= 0x80,
{
}

proof fn lemma_low_byte(scalar: u32)
    by (bit_vector)
    requires
        scalar <= 0x7F,
    ensures
        (scalar & 0x7F) as u8 == scalar,
{
}

/// A text without a slash has none among its bytes.
proof fn lemma_no_slash(chars: Seq<char>)
    requires
        !chars.contains('/'),
    ensures
        no_slash(encode_utf8(chars)),
    decreases chars.len(),
{
    if chars.len() > 0 {
        let rest = chars.drop_first();
        assert(!rest.contains('/')) by {
            if rest.contains('/') {
                let i = choose|i: int| 0 <= i < rest.len() && rest[i] == '/';
                assert(chars[i + 1] == '/');
            }
        }
        lemma_no_slash(rest);
        let c = chars[0];
        let scalar = c as u32;
        char_is_scalar(c);
        char_u32_cast(c, scalar);
        assert(c != '/') by {
            assert(chars.contains(c));
        }
        assert(scalar != 0x2F);
        lemma_high_bytes(scalar);
        if has_width_1_encoding(scalar) {
            lemma_low_byte(scalar);
            assert(leading_byte_width_1(scalar) == scalar);
        } else {
            let bytes = encode_scalar(scalar);
            assert(forall|i: int| 0 <= i < bytes.len() ==> #[trigger] bytes[i] >= 0x80);
        }
        assert(no_slash(encode_scalar(scalar)));
    }
}

/// A directory with the slash that separates it from what is below it.
spec fn stem(directory: Seq<u8>) -> Seq<u8> {
    if directory.len() == 0 || directory.last() == 0x2F {
        directory
    } else {
        directory.push(0x2F)
    }
}

/// Where two paths are equal, so are their last names and the directories
/// before them.
proof fn lemma_last_names(one: Seq<u8>, a: Seq<u8>, other: Seq<u8>, b: Seq<u8>)
    requires
        no_slash(a),
        no_slash(b),
        joined(one, a) == joined(other, b),
    ensures
        a == b,
        stem(one) == stem(other),
{
    let p = joined(one, a);
    let s = stem(one);
    let t = stem(other);
    assert(p == s + a);
    assert(p == t + b);
    if s.len() < t.len() {
        assert(p[t.len() - 1] == t.last());
        assert(p[t.len() - 1] == a[t.len() - 1 - s.len()]);
        assert(false);
    }
    if t.len() < s.len() {
        assert(p[s.len() - 1] == s.last());
        assert(p[s.len() - 1] == b[s.len() - 1 - t.len()]);
        assert(false);
    }
    assert(p.take(s.len() as int) =~= s);
    assert(p.take(s.len() as int) =~= t);
    assert(p.skip(s.len() as int) =~= a);
    assert(p.skip(s.len() as int) =~= b);
}

/// The autostart entry of an application is neither the launcher's unit nor
/// its marker, which are two files.
proof fn lemma_own_paths_apart(paths: PathsView, root: Seq<u8>, id: Seq<char>)
    ensures
        usable_id(id) ==> entry_below(root, id) != paths.unit_path(),
        usable_id(id) ==> entry_below(root, id) != paths.ownership_path(),
        paths.unit_path() != paths.ownership_path(),
{
    reveal_strlit("autostart");
    reveal_strlit("systemd/user");
    reveal_strlit("ecore-launcher.service");
    reveal_strlit("ecore-launcher/startup-owned");
    reveal_strlit("ecore-launcher");
    reveal_strlit("startup-owned");
    let autostart = encode_utf8("autostart"@);
    let user = encode_utf8("systemd/user"@);
    let unit = encode_utf8(USER_UNIT_NAME@);
    let marker = encode_utf8("ecore-launcher/startup-owned"@);
    let owner = encode_utf8("ecore-launcher"@);
    let owned = encode_utf8("startup-owned"@);
    is_ascii_chars_encode_utf8("autostart"@);
    is_ascii_chars_encode_utf8("systemd/user"@);
    is_ascii_chars_encode_utf8(USER_UNIT_NAME@);
    is_ascii_chars_encode_utf8("ecore-launcher/startup-owned"@);
    is_ascii_chars_encode_utf8("ecore-launcher"@);
    is_ascii_chars_encode_utf8("startup-owned"@);
    assert(autostart[0] == 0x61 && autostart[8] == 0x74);
    assert(user[0] == 0x73 && user[11] == 0x72);
    assert(owner[0] == 0x65 && owner[13] == 0x72);
    assert(owned[0] == 0x73 && owned[12] == 0x64);
    assert(unit[0] == 0x65 && unit[21] == 0x65);
    assert(marker =~= owner.push(0x2F) + owned);
    lemma_no_slash(USER_UNIT_NAME@);
    lemma_no_slash("startup-owned"@);

    let unit_directory = child(paths.config_home, "systemd/user"@);
    let marker_directory = child(paths.state_home, "ecore-launcher"@);
    let directory = child(root, "autostart"@);
    assert(paths.ownership_path() =~= joined(marker_directory, owned));
    assert(unit_directory.last() == 0x72);
    assert(marker_directory.last() == 0x72);
    assert(directory.last() == 0x74);
    if paths.unit_path() == paths.ownership_path() {
        lemma_last_names(unit_directory, unit, marker_directory, owned);
        assert(false);
    }
    if usable_id(id) {
        lemma_no_slash(id);
        let name = encode_utf8(id);
        if entry_below(root, id) == paths.unit_path() {
            lemma_last_names(directory, name, unit_directory, unit);
            assert(stem(directory)[directory.len() - 1] == 0x74);
            assert(stem(unit_directory)[unit_directory.len() - 1] == 0x72);
            assert(false);
        }
        if entry_below(root, id) == paths.ownership_path() {
            lemma_last_names(directory, name, marker_directory, owned);
            assert(stem(directory)[directory.len() - 1] == 0x74);
            assert(stem(marker_directory)[marker_directory.len() - 1] == 0x72);
            assert(false);
        }
    }
}

/// Autostart entries at the same path are entries of the same application.
proof fn lemma_entry_names(one: Seq<u8>, a: Seq<char>, other: Seq<u8>, b: Seq<char>)
    requires
        usable_id(a),
        usable_id(b),
        entry_below(one, a) == entry_below(other, b),
    ensures
        a == b,
{
    lemma_no_slash(a);
    lemma_no_slash(b);
    lemma_last_names(
        child(one, "autostart"@),
        encode_utf8(a),
        child(other, "autostart"@),
        encode_utf8(b),
    );
    encode_utf8_decode_utf8(a);
    encode_utf8_decode_utf8(b);
}

/// A path that is written and not removed holds what was written, where all
/// that is written there is the same.
proof fn lemma_written(
    files: Seq<(Seq<u8>, FileStateView)>,
    actions: Seq<ActionView>,
    path: Seq<u8>,
    contents: Seq<char>,
)
    requires
        exists|k: int| 0 <= k < actions.len() && touches(#[trigger] actions[k], path),
        forall|k: int|
            0 <= k < actions.len() && touches(#[trigger] actions[k], path) ==> (
            actions[k] matches ActionView::Write { contents: written, .. } && written == contents),
    ensures
        state_at(applied(files, actions), path) == FileStateView::Text(contents),
    decreases actions.len(),
{
    let front = actions.drop_last();
    let last = actions.len() - 1;
    let before = applied(files, front);
    assert(actions[last] == actions.last());
    if !touches(actions[last], path) {
        let k = choose|k: int| 0 <= k < actions.len() && touches(#[trigger] actions[k], path);
        assert(touches(front[k], path));
        assert forall|k: int| 0 <= k < front.len() && touches(#[trigger] front[k], path) implies (
        front[k] matches ActionView::Write { contents: written, .. } && written == contents) by {
            assert(touches(actions[k], path));
        }
        lemma_written(files, front, path, contents);
        let one = seq![actions[last]];
        assert forall|k: int| 0 <= k < one.len() implies !touches(#[trigger] one[k], path) by {}
        assert(front + one =~= actions);
        lemma_applied_add(files, front, one);
        actions_spare_other_files(before, one, path);
    }
}

/// What an action of the plan that enables startup is.
spec fn is_enabling_action(
    manager: ManagerView,
    unit: Seq<char>,
    current: Option<Seq<char>>,
    marked: bool,
    duplicates: Seq<AssessmentView>,
    action: ActionView,
) -> bool {
    ||| current != Some(unit) && action == (ActionView::Write {
        path: manager.paths.unit_path(),
        contents: unit,
        owned: OwnedView::Unit,
    })
    ||| !marked && action == (ActionView::Write {
        path: manager.paths.ownership_path(),
        contents: startup_marker(),
        owned: OwnedView::Exactly(startup_marker()),
    })
    ||| action is Systemctl
    ||| exists|i: int| 0 <= i < duplicates.len() && action == suppression()(#[trigger] duplicates[i])
}

proof fn lemma_enabling_actions(
    manager: ManagerView,
    unit: Seq<char>,
    current: Option<Seq<char>>,
    marked: bool,
    duplicates: Seq<AssessmentView>,
)
    ensures
        ({
            let actions = enabling(manager, unit, current, marked, duplicates).actions;
            &&& forall|k: int|
                0 <= k < actions.len() ==> is_enabling_action(
                    manager,
                    unit,
                    current,
                    marked,
                    duplicates,
                    #[trigger] actions[k],
                )
            &&& current != Some(unit) ==> exists|k: int|
                0 <= k < actions.len() && touches(#[trigger] actions[k], manager.paths.unit_path())
            &&& !marked ==> exists|k: int|
                0 <= k < actions.len() && touches(
                    #[trigger] actions[k],
                    manager.paths.ownership_path(),
                )
            &&& forall|i: int|
                0 <= i < duplicates.len() ==> exists|k: int|
                    0 <= k < actions.len() && touches(
                        #[trigger] actions[k],
                        (#[trigger] duplicates[i]).user_override,
                    )
        }),
{
    let actions = enabling(manager, unit, current, marked, duplicates).actions;
    let first: int = if current != Some(unit) {
        1
    } else {
        0
    };
    let second: int = if !marked {
        first + 1
    } else {
        first
    };
    let fixed = second + 2;
    assert(actions.len() == fixed + duplicates.len());
    assert forall|k: int| 0 <= k < actions.len() implies is_enabling_action(
        manager,
        unit,
        current,
        marked,
        duplicates,
        #[trigger] actions[k],
    ) by {
        if k >= fixed {
            assert(actions[k] == duplicates.map_values(suppression())[k - fixed]);
            assert(actions[k] == suppression()(duplicates[k - fixed]));
        }
    }
    if current != Some(unit) {
        assert(touches(actions[0], manager.paths.unit_path()));
    }
    if !marked {
        assert(touches(actions[first], manager.paths.ownership_path()));
    }
    assert forall|i: int| 0 <= i < duplicates.len() implies exists|k: int|
        0 <= k < actions.len() && touches(
            #[trigger] actions[k],
            (#[trigger] duplicates[i]).user_override,
        ) by {
        assert(actions[fixed + i] == duplicates.map_values(suppression())[i]);
        assert(touches(actions[fixed + i], duplicates[i].user_override));
    }
}

/// The files that enabling writes for duplicates.
spec fn suppressed(
    manager: ManagerView,
    apps: Seq<RegisteredView>,
    suppress: bool,
    files: Seq<(Seq<u8>, FileStateView)>,
) -> Seq<AssessmentView> {
    if suppress {
        assessments(manager.paths, apps, files)->Ok_0.filter(is_duplicate())
    } else {
        Seq::empty()
    }
}

/// What is seen once startup was enabled.
pub open spec fn enabled_files(
    manager: ManagerView,
    apps: Seq<RegisteredView>,
    suppress: bool,
    files: Seq<(Seq<u8>, FileStateView)>,
) -> Seq<(Seq<u8>, FileStateView)> {
    applied(files, enable_plan(manager, apps, suppress, files)->Ok_0.actions)
}

/// Where startup was enabled, the unit, the marker and the overrides are
/// there, and every other file is as it was.
proof fn lemma_enabled_files(
    manager: ManagerView,
    apps: Seq<RegisteredView>,
    suppress: bool,
    files: Seq<(Seq<u8>, FileStateView)>,
)
    requires
        enable_plan(manager, apps, suppress, files) is Ok,
    ensures
        ({
            let after = enabled_files(manager, apps, suppress, files);
            let duplicates = suppressed(manager, apps, suppress, files);
            &&& state_at(after, manager.paths.unit_path()) == FileStateView::Text(
                manager.unit()->Ok_0,
            )
            &&& state_at(after, manager.paths.ownership_path()) == FileStateView::Text(
                startup_marker(),
            )
            &&& forall|i: int|
                0 <= i < duplicates.len() ==> state_at(
                    after,
                    (#[trigger] duplicates[i]).user_override,
                ) == FileStateView::Text(owned_override(duplicates[i].desktop_id))
            &&& forall|path: Seq<u8>|
                path != manager.paths.unit_path() && path != manager.paths.ownership_path() && (
                forall|i: int|
                    0 <= i < duplicates.len() ==> (#[trigger] duplicates[i]).user_override != path)
                    ==> #[trigger] state_at(after, path) == state_at(files, path)
        }),
{
    let paths = manager.paths;
    let unit_path = paths.unit_path();
    let ownership_path = paths.ownership_path();
    let unit = manager.unit()->Ok_0;
    let current = regular_text(unit_path, state_at(files, unit_path))->Ok_0;
    let marked = regular_text(ownership_path, state_at(files, ownership_path))->Ok_0 is Some;
    let duplicates = suppressed(manager, apps, suppress, files);
    let actions = enabling(manager, unit, current, marked, duplicates).actions;
    let after = enabled_files(manager, apps, suppress, files);
    assert(enable_plan(manager, apps, suppress, files)->Ok_0 == enabling(
        manager,
        unit,
        current,
        marked,
        duplicates,
    ));
    lemma_enabling_actions(manager, unit, current, marked, duplicates);
    assert forall|i: int| 0 <= i < duplicates.len() implies {
        let one = #[trigger] duplicates[i];
        &&& usable_id(one.desktop_id)
        &&& one.user_override == override_path(paths, one.desktop_id)
        &&& one.user_override != unit_path
        &&& one.user_override != ownership_path
    } by {
        lemma_duplicates(paths, apps, files, i);
        lemma_own_paths_apart(paths, paths.config_home, duplicates[i].desktop_id);
    }
    lemma_own_paths_apart(paths, paths.config_home, ""@);
    assert(state_at(after, unit_path) == FileStateView::Text(unit)) by {
        if current != Some(unit) {
            lemma_written(files, actions, unit_path, unit);
        } else {
            actions_spare_other_files(files, actions, unit_path);
        }
    }
    assert(state_at(after, ownership_path) == FileStateView::Text(startup_marker())) by {
        if !marked {
            lemma_written(files, actions, ownership_path, startup_marker());
        } else {
            actions_spare_other_files(files, actions, ownership_path);
        }
    }
    assert forall|i: int| 0 <= i < duplicates.len() implies state_at(
        after,
        (#[trigger] duplicates[i]).user_override,
    ) == FileStateView::Text(owned_override(duplicates[i].desktop_id)) by {
        let path = duplicates[i].user_override;
        let contents = owned_override(duplicates[i].desktop_id);
        assert forall|k: int| 0 <= k < actions.len() && touches(#[trigger] actions[k], path) implies (
        actions[k] matches ActionView::Write { contents: written, .. } && written == contents) by {
            assert(is_enabling_action(manager, unit, current, marked, duplicates, actions[k]));
            let m = choose|m: int|
                0 <= m < duplicates.len() && actions[k] == suppression()(#[trigger] duplicates[m]);
            assert(duplicates[m].user_override == path);
            lemma_entry_names(
                paths.config_home,
                duplicates[m].desktop_id,
                paths.config_home,
                duplicates[i].desktop_id,
            );
        }
        lemma_written(files, actions, path, contents);
    }
    assert forall|path: Seq<u8>|
        path != unit_path && path != ownership_path && (forall|i: int|
            0 <= i < duplicates.len() ==> (#[trigger] duplicates[i]).user_override
                != path) implies #[trigger] state_at(after, path) == state_at(files, path) by {
        assert forall|k: int| 0 <= k < actions.len() implies !touches(#[trigger] actions[k], path) by {
            assert(is_enabling_action(manager, unit, current, marked, duplicates, actions[k]));
        }
        actions_spare_other_files(files, actions, path);
    }
}

/// Disabling takes back what enabling wrote: carried out one after the other
/// they leave neither the unit nor the marker, and between the two no other
/// file changes.
pub proof fn disabling_undoes_enabling(
    manager: ManagerView,
    apps: Seq<RegisteredView>,
    suppress: bool,
    files: Seq<(Seq<u8>, FileStateView)>,
)
    requires
        enable_plan(manager, apps, suppress, files) is Ok,
    ensures
        ({
            let after = enabled_files(manager, apps, suppress, files);
            let end = applied(after, disable_plan(manager, after)->Ok_0.actions);
            &&& disable_plan(manager, after) is Ok
            &&& disable_plan(manager, after)->Ok_0.change.unit_changed
            &&& state_at(end, manager.paths.unit_path()) is Missing
            &&& state_at(end, manager.paths.ownership_path()) is Missing
            &&& forall|path: Seq<u8>|
                path != manager.paths.unit_path() && path != manager.paths.ownership_path()
                    ==> #[trigger] state_at(end, path) == state_at(after, path)
        }),
{
    let after = enabled_files(manager, apps, suppress, files);
    let unit_path = manager.paths.unit_path();
    let ownership_path = manager.paths.ownership_path();
    lemma_enabled_files(manager, apps, suppress, files);
    lemma_own_paths_apart(manager.paths, manager.paths.config_home, ""@);
    disabling_removes_unit_and_marker(manager, after);
    let plan = disable_plan(manager, after)->Ok_0;
    let stop = ActionView::Systemctl(SystemctlOperation::Disable);
    let unit = ActionView::Remove { path: unit_path, owned: OwnedView::Unit };
    let marker = ActionView::Remove {
        path: ownership_path,
        owned: OwnedView::Exactly(startup_marker()),
    };
    let reload = ActionView::Systemctl(SystemctlOperation::DaemonReload);
    let end = applied(after, plan.actions);
    assert(plan.actions =~= seq![stop, unit, marker, reload]);
    let gone = after.push((unit_path, FileStateView::Missing)).push(
        (ownership_path, FileStateView::Missing),
    );
    assert(end == gone) by {
        reveal_with_fuel(applied, 5);
        assert(plan.actions.drop_last() =~= seq![stop, unit, marker]);
        assert(seq![stop, unit, marker].drop_last() =~= seq![stop, unit]);
        assert(seq![stop, unit].drop_last() =~= seq![stop]);
        assert(seq![stop].drop_last() =~= Seq::<ActionView>::empty());
    }
    assert(gone.drop_last() =~= after.push((unit_path, FileStateView::Missing)));
    assert(gone.drop_last().drop_last() =~= after);
    assert forall|path: Seq<u8>| path != unit_path && path != ownership_path implies
        #[trigger] state_at(end, path) == state_at(after, path) by {
        assert(state_at(gone, path) == state_at(gone.drop_last(), path));
        assert(state_at(gone.drop_last(), path) == state_at(gone.drop_last().drop_last(), path));
    }
    assert(state_at(gone, unit_path) == state_at(gone.drop_last(), unit_path));
}

/// Every enabled application has an assessment among those of all.
proof fn lemma_enabled_is_assessed(
    paths: PathsView,
    apps: Seq<RegisteredView>,
    files: Seq<(Seq<u8>, FileStateView)>,
    k: int,
)
    requires
        assessed(paths, apps, files) is Ok,
        0 <= k < apps.len(),
        apps[k].enabled,
    ensures
        assessment(paths, apps[k].desktop_id, files) is Ok,
        assessed(paths, apps, files)->Ok_0.contains(
            assessment(paths, apps[k].desktop_id, files)->Ok_0,
        ),
    decreases apps.len(),
{
    let front = apps.drop_last();
    let all = assessed(paths, apps, files)->Ok_0;
    let fewer = assessed(paths, front, files)->Ok_0;
    if k < front.len() {
        assert(front[k] == apps[k]);
        lemma_enabled_is_assessed(paths, front, files, k);
        let one = assessment(paths, apps[k].desktop_id, files)->Ok_0;
        let m = choose|m: int| 0 <= m < fewer.len() && fewer[m] == one;
        assert(all[m] == one);
    } else {
        assert(all[all.len() - 1] == assessment(paths, apps[k].desktop_id, files)->Ok_0);
    }
}

/// The entries of an application can still be inspected where no path became
/// one that cannot.
proof fn lemma_entries_stay(
    roots: Seq<Seq<u8>>,
    id: Seq<char>,
    one: Seq<(Seq<u8>, FileStateView)>,
    other: Seq<(Seq<u8>, FileStateView)>,
)
    requires
        present_entries(roots, id, one) is Ok,
        forall|path: Seq<u8>|
            state_at(other, path) is Failed ==> #[trigger] state_at(one, path) is Failed,
    ensures
        present_entries(roots, id, other) is Ok,
    decreases roots.len(),
{
    if roots.len() > 0 {
        lemma_entries_stay(roots.drop_last(), id, one, other);
        let path = entry_below(roots.last(), id);
        assert(!(state_at(one, path) is Failed));
    }
}

/// What an assessment may be once startup was enabled: that of before, or one
/// that is suppressed.
spec fn settled(
    paths: PathsView,
    suppress: bool,
    files: Seq<(Seq<u8>, FileStateView)>,
    one: AssessmentView,
) -> bool {
    ||| one.state == AutostartState::SuppressedByLauncher
    ||| assessment(paths, one.desktop_id, files) == Ok::<AssessmentView, IntegrationErrorView>(one)
        && !(suppress && one.state == AutostartState::DuplicateRisk)
}

proof fn lemma_assessment_after(
    manager: ManagerView,
    apps: Seq<RegisteredView>,
    suppress: bool,
    files: Seq<(Seq<u8>, FileStateView)>,
    k: int,
)
    requires
        enable_plan(manager, apps, suppress, files) is Ok,
        0 <= k < apps.len(),
        apps[k].enabled,
    ensures
        ({
            let now = assessment(
                manager.paths,
                apps[k].desktop_id,
                enabled_files(manager, apps, suppress, files),
            );
            now is Ok && settled(manager.paths, suppress, files, now->Ok_0)
        }),
{
    let paths = manager.paths;
    let id = apps[k].desktop_id;
    let after = enabled_files(manager, apps, suppress, files);
    let duplicates = suppressed(manager, apps, suppress, files);
    let all = assessments(paths, apps, files)->Ok_0;
    lemma_enabled_files(manager, apps, suppress, files);
    lemma_enabled_is_assessed(paths, apps, files, k);
    let before = assessment(paths, id, files)->Ok_0;
    lemma_sorted_holds(assessed(paths, apps, files)->Ok_0, assessment_before(), before);
    assert(all.contains(before));
    if suppress && before.state == AutostartState::DuplicateRisk {
        lemma_filter_holds(all, is_duplicate(), before);
        let i = choose|i: int| 0 <= i < duplicates.len() && duplicates[i] == before;
        assert(state_at(after, duplicates[i].user_override) == FileStateView::Text(
            owned_override(id),
        ));
        assert forall|path: Seq<u8>| state_at(after, path) is Failed implies #[trigger] state_at(
            files,
            path,
        ) is Failed by {
            if forall|m: int|
                0 <= m < duplicates.len() ==> (#[trigger] duplicates[m]).user_override != path {
                assert(state_at(after, path) == state_at(files, path));
            } else {
                let m = choose|m: int|
                    0 <= m < duplicates.len() && (#[trigger] duplicates[m]).user_override == path;
                assert(state_at(after, duplicates[m].user_override) is Text);
            }
        }
        lemma_entries_stay(paths.config_dirs, id, files, after);
    } else {
        assert forall|path: Seq<u8>| inspected_for(paths, id, path) implies #[trigger] state_at(
            after,
            path,
        ) == state_at(files, path) by {
            let root = if path == override_path(paths, id) {
                paths.config_home
            } else {
                let i = choose|i: int|
                    0 <= i < paths.config_dirs.len() && path == entry_below(
                        #[trigger] paths.config_dirs[i],
                        id,
                    );
                paths.config_dirs[i]
            };
            assert(path == entry_below(root, id));
            lemma_own_paths_apart(paths, root, id);
            assert forall|m: int| 0 <= m < duplicates.len() implies (
            #[trigger] duplicates[m]).user_override != path by {
                lemma_duplicates(paths, apps, files, m);
                if duplicates[m].user_override == path {
                    lemma_entry_names(paths.config_home, duplicates[m].desktop_id, root, id);
                }
            }
        }
        lemma_entries_depend(paths, paths.config_dirs.len(), id, after, files);
        assert(paths.config_dirs.take(paths.config_dirs.len() as int) =~= paths.config_dirs);
        assert(inspected_for(paths, id, override_path(paths, id)));
        assert(state_at(after, override_path(paths, id)) == state_at(
            files,
            override_path(paths, id),
        ));
    }
}

/// The assessments of the first applications once startup was enabled.
proof fn lemma_assessed_after(
    manager: ManagerView,
    apps: Seq<RegisteredView>,
    suppress: bool,
    files: Seq<(Seq<u8>, FileStateView)>,
    count: int,
)
    requires
        enable_plan(manager, apps, suppress, files) is Ok,
        0 <= count <= apps.len(),
    ensures
        ({
            let now = assessed(
                manager.paths,
                apps.take(count),
                enabled_files(manager, apps, suppress, files),
            );
            &&& now is Ok
            &&& forall|i: int|
                0 <= i < now->Ok_0.len() ==> settled(
                    manager.paths,
                    suppress,
                    files,
                    #[trigger] now->Ok_0[i],
                )
        }),
    decreases count,
{
    if count > 0 {
        lemma_assessed_after(manager, apps, suppress, files, count - 1);
        assert(apps.take(count).drop_last() =~= apps.take(count - 1));
        assert(apps.take(count).last() == apps[count - 1]);
        if apps[count - 1].enabled {
            lemma_assessment_after(manager, apps, suppress, files, count - 1);
        }
    }
}

proof fn lemma_no_conflict(all: Seq<AssessmentView>)
    ensures
        suppression_failure(all) is None <==> forall|i: int|
            0 <= i < all.len() ==> !is_conflict(#[trigger] all[i]),
    decreases all.len(),
{
    if all.len() > 0 {
        let rest = all.drop_first();
        lemma_no_conflict(rest);
        if suppression_failure(all) is None {
            assert forall|i: int| 0 <= i < all.len() implies !is_conflict(#[trigger] all[i]) by {
                if i > 0 {
                    assert(!is_conflict(rest[i - 1]));
                }
            }
        } else if !is_conflict(all[0]) {
            let i = choose|i: int| 0 <= i < rest.len() && is_conflict(#[trigger] rest[i]);
            assert(is_conflict(all[i + 1]));
        }
    }
}

/// Enabling a second time changes no file: the plan for what the first one
/// left only has systemd take notice.
pub proof fn enabling_twice_changes_nothing(
    manager: ManagerView,
    apps: Seq<RegisteredView>,
    suppress: bool,
    files: Seq<(Seq<u8>, FileStateView)>,
)
    requires
        enable_plan(manager, apps, suppress, files) is Ok,
    ensures
        enable_plan(manager, apps, suppress, enabled_files(manager, apps, suppress, files)) == Ok::<
            PlanView,
            IntegrationErrorView,
        >(
            PlanView {
                actions: seq![
                    ActionView::Systemctl(SystemctlOperation::DaemonReload),
                    ActionView::Systemctl(SystemctlOperation::Enable),
                ],
                change: ChangeView {
                    unit_changed: false,
                    autostart_overrides_changed: Seq::empty(),
                },
            },
        ),
{
    let paths = manager.paths;
    let after = enabled_files(manager, apps, suppress, files);
    let before = assessments(paths, apps, files)->Ok_0;
    lemma_enabled_files(manager, apps, suppress, files);
    lemma_assessed_after(manager, apps, suppress, files, apps.len() as int);
    assert(apps.take(apps.len() as int) =~= apps);
    let found = assessed(paths, apps, after)->Ok_0;
    let all = assessments(paths, apps, after)->Ok_0;
    assert forall|i: int| 0 <= i < all.len() implies settled(
        paths,
        suppress,
        files,
        #[trigger] all[i],
    ) && (suppress ==> !is_conflict(all[i]) && !is_duplicate()(all[i])) by {
        assert(all.contains(all[i]));
        lemma_sorted_holds(found, assessment_before(), all[i]);
        let m = choose|m: int| 0 <= m < found.len() && found[m] == all[i];
        assert(settled(paths, suppress, files, found[m]));
        lemma_assessments(paths, apps, after, all[i]);
        if suppress && is_conflict(all[i]) {
            let k = choose|k: int|
                0 <= k < apps.len() && (#[trigger] apps[k]).enabled && apps[k].desktop_id
                    == all[i].desktop_id;
            lemma_enabled_is_assessed(paths, apps, files, k);
            lemma_sorted_holds(assessed(paths, apps, files)->Ok_0, assessment_before(), all[i]);
            let n = choose|n: int| 0 <= n < before.len() && before[n] == all[i];
            lemma_no_conflict(before);
            assert(is_conflict(before[n]));
        }
    }
    lemma_no_conflict(all);
    own_unit_is_recognized(manager.launcher_executable, manager.registry_path);
    if suppress {
        let left = all.filter(is_duplicate());
        if left.len() > 0 {
            assert(left.contains(left[0]));
            lemma_filter_holds(all, is_duplicate(), left[0]);
            let i = choose|i: int| 0 <= i < all.len() && all[i] == left[0];
            assert(!is_duplicate()(all[i]));
        }
        assert(left =~= Seq::empty());
    }
    let none = Seq::<AssessmentView>::empty();
    let plan = enabling(manager, manager.unit()->Ok_0, Some(manager.unit()->Ok_0), true, none);
    assert(none.map_values(suppression()) =~= Seq::empty());
    assert(none.map_values(assessed_id()) =~= Seq::empty());
    assert(plan.actions =~= seq![
        ActionView::Systemctl(SystemctlOperation::DaemonReload),
        ActionView::Systemctl(SystemctlOperation::Enable),
    ]);
    assert(enable_plan(manager, apps, suppress, after) == Ok::<PlanView, IntegrationErrorView>(
        plan,
    ));
}

} // verus!
