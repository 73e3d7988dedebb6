//! What the registry operations do, setting by setting and ID by ID.
use vstd::prelude::*;

use vstd::utf8::encode_utf8;

use super::config_path::config_path;
use super::error::RegistryErrorView;
use super::laws::configuring_changes_one_policy;
use super::model::{
    fitting_priority, normalized, registered_before, stored_priority, ApplicationSettingsUpdate,
    IoPriorityClass, PolicyView, RegisteredView, RegistryView,
};
use super::operations::{
    application_ids, availability, configured, current_name, find_app, first_unknown, flag_agrees,
    flag_differs, flagged, is_known, is_new, selected, snapshot, updated_policy, with_added,
    AvailabilityView,
};
use super::store::{loaded, ConfigState};
use super::validation::{app_problem, apps_problem, id_taken, policy_problem, valid};
use crate::discovery::types::{ApplicationView, ReportView};
use crate::order::{lemma_filter_holds, lemma_sorted_holds};
use crate::path::absolute;
use crate::text::{is_space, trim};

verus! {

/// Requests of the class carry a priority.
pub open spec fn takes_priority(class: IoPriorityClass) -> bool {
    match class {
        IoPriorityClass::BestEffort | IoPriorityClass::Realtime => true,
        IoPriorityClass::Unset | IoPriorityClass::Idle => false,
    }
}

/// A setting is the given value, or else the one it was.
pub open spec fn given_or_kept<T>(given: Option<T>, before: T, after: T) -> bool {
    &&& given matches Some(value) ==> after == value
    &&& given is None ==> after == before
}

/// A priority follows the class: there is none where the class takes none; else
/// it is the given one or the one that was there, and four where there is
/// neither.
pub open spec fn priority_follows(
    given: Option<Option<u8>>,
    before: Option<u8>,
    class: IoPriorityClass,
    after: Option<u8>,
) -> bool {
    &&& !takes_priority(class) ==> after is None
    &&& takes_priority(class) ==> match given {
        Some(Some(level)) => after == Some(level),
        Some(None) => after == Some(4u8),
        None => match before {
            Some(level) => after == Some(level),
            None => after == Some(4u8),
        },
    }
}

/// After an update that is no reset, the policy of an application has, for
/// each setting that the update gives, the given value, and for each other one
/// the value it had, but for the priority, which follows the class. After a
/// reset it is the launcher's own.
pub proof fn updates_set_exactly_what_they_give(
    registry: RegistryView,
    id: Seq<char>,
    update: ApplicationSettingsUpdate,
    at: int,
)
    requires
        0 <= at < registry.apps.len(),
        registry.apps[at].desktop_id == id,
        forall|i: int| 0 <= i < at ==> (#[trigger] registry.apps[i]).desktop_id != id,
    ensures
        ({
            let before = registry.apps[at].policy;
            exists|k: int|
                0 <= k < configured(registry, id, update).apps.len() && {
                    let app = #[trigger] configured(registry, id, update).apps[k];
                    let after = app.policy;
                    &&& app == (RegisteredView { policy: after, ..registry.apps[at] })
                    &&& update.reset_to_defaults ==> after == registry.launcher.policy
                    &&& !update.reset_to_defaults ==> {
                        &&& given_or_kept(
                            update.delay_seconds,
                            before.delay_seconds,
                            after.delay_seconds,
                        )
                        &&& given_or_kept(update.nice, before.nice, after.nice)
                        &&& given_or_kept(update.io_class, before.io_class, after.io_class)
                        &&& given_or_kept(
                            update.enforce_process_tree,
                            before.enforce_process_tree,
                            after.enforce_process_tree,
                        )
                        &&& priority_follows(
                            update.io_priority,
                            before.io_priority,
                            after.io_class,
                            after.io_priority,
                        )
                    }
                }
        }),
        forall|app: RegisteredView|
            app.desktop_id != id ==> (#[trigger] configured(registry, id, update).apps.contains(app)
                <==> registry.apps.contains(app)),
{
    lemma_find_first(registry.apps, id, at);
    let policy = updated_policy(registry.apps[at].policy, update, registry.launcher.policy);
    configuring_changes_one_policy(registry, id, policy);
    let after = configured(registry, id, update);
    let k = find_app(after.apps, id)->0;
    assert(after.apps[k].policy == policy);
}

/// An update changes something exactly where one of the settings comes out
/// otherwise than it was.
pub proof fn updates_that_repeat_what_is_change_nothing(
    policy: PolicyView,
    update: ApplicationSettingsUpdate,
    defaults: PolicyView,
)
    requires
        !update.reset_to_defaults,
        takes_priority(policy.io_class) <==> policy.io_priority is Some,
        update.delay_seconds matches Some(value) ==> value == policy.delay_seconds,
        update.nice matches Some(value) ==> value == policy.nice,
        update.io_class matches Some(value) ==> value == policy.io_class,
        update.io_priority matches Some(value) ==> value == policy.io_priority,
        update.enforce_process_tree matches Some(value) ==> value == policy.enforce_process_tree,
    ensures
        updated_policy(policy, update, defaults) == policy,
{
}

proof fn lemma_find_first(apps: Seq<RegisteredView>, id: Seq<char>, at: int)
    requires
        0 <= at < apps.len(),
        apps[at].desktop_id == id,
        forall|i: int| 0 <= i < at ==> (#[trigger] apps[i]).desktop_id != id,
    ensures
        find_app(apps, id) == Some(at),
    decreases apps.len(),
{
    let front = apps.drop_last();
    if at < front.len() {
        assert forall|i: int| 0 <= i < at implies (#[trigger] front[i]).desktop_id != id by {
            assert(apps[i].desktop_id != id);
        }
        lemma_find_first(front, id, at);
    } else {
        assert forall|i: int| 0 <= i < front.len() implies (#[trigger] front[i]).desktop_id
            != id by {
            assert(apps[i].desktop_id != id);
        }
        lemma_find_none(front, id);
    }
}

proof fn lemma_find_none(apps: Seq<RegisteredView>, id: Seq<char>)
    requires
        forall|i: int| 0 <= i < apps.len() ==> (#[trigger] apps[i]).desktop_id != id,
    ensures
        find_app(apps, id) is None,
    decreases apps.len(),
{
    if apps.len() > 0 {
        let front = apps.drop_last();
        assert forall|i: int| 0 <= i < front.len() implies (#[trigger] front[i]).desktop_id
            != id by {
            assert(apps[i].desktop_id != id);
        }
        assert(apps[apps.len() - 1].desktop_id != id);
        lemma_find_none(front, id);
    }
}

/// An application is found exactly where one has the ID.
pub proof fn applications_are_found_by_their_id(apps: Seq<RegisteredView>, id: Seq<char>)
    ensures
        find_app(apps, id) is None <==> forall|i: int|
            0 <= i < apps.len() ==> (#[trigger] apps[i]).desktop_id != id,
        find_app(apps, id) matches Some(at) ==> 0 <= at < apps.len() && apps[at].desktop_id == id
            && forall|i: int| 0 <= i < at ==> (#[trigger] apps[i]).desktop_id != id,
    decreases apps.len(),
{
    if apps.len() > 0 {
        let front = apps.drop_last();
        let last = apps.len() - 1;
        applications_are_found_by_their_id(front, id);
        match find_app(front, id) {
            Some(at) => {
                assert(apps[at].desktop_id == id);
                assert forall|i: int| 0 <= i < at implies (#[trigger] apps[i]).desktop_id
                    != id by {
                    assert(front[i].desktop_id != id);
                }
            },
            None => {
                assert forall|i: int| 0 <= i < last implies (#[trigger] apps[i]).desktop_id
                    != id by {
                    assert(front[i].desktop_id != id);
                }
                assert(apps[last] == apps.last());
            },
        }
    }
}

/// A policy within the ranges of Linux and of this launcher, with a priority
/// exactly where the class takes one.
pub open spec fn policy_is_sound(policy: PolicyView) -> bool {
    &&& policy.delay_seconds <= 3_600
    &&& -20 <= policy.nice <= 19
    &&& match policy.io_priority {
        Some(level) => takes_priority(policy.io_class) && level <= 7,
        None => !takes_priority(policy.io_class),
    }
}

/// An ID that is a name: not empty, with no white space around it, and no path.
pub open spec fn id_is_sound(id: Seq<char>) -> bool {
    &&& id.len() > 0
    &&& !is_space(id[0])
    &&& !is_space(id[id.len() - 1])
    &&& id != "."@
    &&& id != ".."@
    &&& !id.contains('/')
    &&& !id.contains('\\')
    &&& !id.contains('\0')
}

/// A name that shows something and is not too long.
pub open spec fn name_is_sound(name: Seq<char>) -> bool {
    &&& exists|i: int| 0 <= i < name.len() && !is_space(#[trigger] name[i])
    &&& encode_utf8(name).len() <= 4_096
}

/// Text that has no white space at its ends is what is left of it without
/// these; and nothing is left exactly where all of it is white space.
proof fn lemma_trim(s: Seq<char>)
    ensures
        trim(s) == s <==> s.len() == 0 || (!is_space(s[0]) && !is_space(s[s.len() - 1])),
        trim(s).len() > 0 <==> exists|i: int| 0 <= i < s.len() && !is_space(#[trigger] s[i]),
{
    lemma_trim_start(s);
    let t = crate::text::trim_start(s);
    lemma_trim_end(t);
    if exists|i: int| 0 <= i < s.len() && !is_space(#[trigger] s[i]) {
        assert(t.len() > 0);
        assert(!is_space(t[0]));
    }
    if trim(s).len() > 0 {
        assert(t.len() > 0);
    }
    if trim(s) == s {
        assert(t.len() == s.len());
    }
}

proof fn lemma_trim_start(s: Seq<char>)
    ensures
        crate::text::trim_start(s).len() <= s.len(),
        crate::text::trim_start(s).len() > 0 ==> !is_space(crate::text::trim_start(s)[0]),
        crate::text::trim_start(s) == s <==> s.len() == 0 || !is_space(s[0]),
        crate::text::trim_start(s).len() == s.len() ==> crate::text::trim_start(s) == s,
        crate::text::trim_start(s).len() > 0 <==> exists|i: int|
            0 <= i < s.len() && !is_space(#[trigger] s[i]),
        crate::text::trim_start(s).len() > 0 ==> crate::text::trim_start(s).last() == s.last(),
    decreases s.len(),
{
    if s.len() > 0 && is_space(s[0]) {
        let rest = s.drop_first();
        lemma_trim_start(rest);
        if exists|i: int| 0 <= i < s.len() && !is_space(#[trigger] s[i]) {
            let i = choose|i: int| 0 <= i < s.len() && !is_space(#[trigger] s[i]);
            assert(rest[i - 1] == s[i]);
        }
        if exists|i: int| 0 <= i < rest.len() && !is_space(#[trigger] rest[i]) {
            let i = choose|i: int| 0 <= i < rest.len() && !is_space(#[trigger] rest[i]);
            assert(s[i + 1] == rest[i]);
        }
    }
}

proof fn lemma_trim_end(s: Seq<char>)
    ensures
        crate::text::trim_end(s).len() <= s.len(),
        crate::text::trim_end(s) == s <==> s.len() == 0 || !is_space(s[s.len() - 1]),
        crate::text::trim_end(s).len() == s.len() ==> crate::text::trim_end(s) == s,
        crate::text::trim_end(s).len() > 0 <==> exists|i: int|
            0 <= i < s.len() && !is_space(#[trigger] s[i]),
    decreases s.len(),
{
    if s.len() > 0 && is_space(s.last()) {
        let rest = s.drop_last();
        lemma_trim_end(rest);
        if exists|i: int| 0 <= i < s.len() && !is_space(#[trigger] s[i]) {
            let i = choose|i: int| 0 <= i < s.len() && !is_space(#[trigger] s[i]);
            assert(rest[i] == s[i]);
        }
        if exists|i: int| 0 <= i < rest.len() && !is_space(#[trigger] rest[i]) {
            let i = choose|i: int| 0 <= i < rest.len() && !is_space(#[trigger] rest[i]);
            assert(s[i] == rest[i]);
        }
    } else if s.len() > 0 {
        assert(!is_space(s[s.len() - 1]));
    }
}

proof fn lemma_app_is_sound(index: int, app: RegisteredView)
    ensures
        app_problem(index, app) is None <==> id_is_sound(app.desktop_id) && name_is_sound(app.name)
            && policy_is_sound(app.policy),
{
    let id = app.desktop_id;
    lemma_trim(id);
    lemma_trim(app.name);
    if exists|i: int| 0 <= i < id.len() && super::validation::is_path_char(#[trigger] id[i]) {
        let i = choose|i: int| 0 <= i < id.len() && super::validation::is_path_char(#[trigger] id[i]);
        assert(id.contains(id[i]));
    } else {
        assert forall|c: char| super::validation::is_path_char(c) implies !id.contains(c) by {
            if id.contains(c) {
                let i = choose|i: int| 0 <= i < id.len() && id[i] == c;
                assert(super::validation::is_path_char(id[i]));
            }
        }
    }
}

proof fn lemma_apps_are_sound(apps: Seq<RegisteredView>)
    ensures
        apps_problem(apps) is None <==> {
            &&& forall|i: int|
                0 <= i < apps.len() ==> id_is_sound((#[trigger] apps[i]).desktop_id)
                    && name_is_sound(apps[i].name) && policy_is_sound(apps[i].policy)
            &&& forall|i: int, j: int|
                0 <= i < j < apps.len() ==> (#[trigger] apps[i]).desktop_id != (
                #[trigger] apps[j]).desktop_id
        },
    decreases apps.len(),
{
    if apps.len() > 0 {
        let front = apps.drop_last();
        let last = apps.len() - 1;
        lemma_apps_are_sound(front);
        lemma_app_is_sound(last, apps[last]);
        let each = forall|i: int|
            0 <= i < apps.len() ==> id_is_sound((#[trigger] apps[i]).desktop_id) && name_is_sound(
                apps[i].name,
            ) && policy_is_sound(apps[i].policy);
        let apart = forall|i: int, j: int|
            0 <= i < j < apps.len() ==> (#[trigger] apps[i]).desktop_id != (
            #[trigger] apps[j]).desktop_id;
        if each && apart {
            assert forall|i: int| 0 <= i < front.len() implies id_is_sound(
                (#[trigger] front[i]).desktop_id,
            ) && name_is_sound(front[i].name) && policy_is_sound(front[i].policy) by {
                assert(apps[i] == front[i]);
            }
            assert forall|i: int, j: int| 0 <= i < j < front.len() implies (
            #[trigger] front[i]).desktop_id != (#[trigger] front[j]).desktop_id by {
                assert(apps[i].desktop_id != apps[j].desktop_id);
            }
            if id_taken(front, apps[last].desktop_id) {
                let i = choose|i: int|
                    0 <= i < front.len() && (#[trigger] front[i]).desktop_id
                        == apps[last].desktop_id;
                assert(apps[i].desktop_id != apps[last].desktop_id);
            }
        }
        if apps_problem(apps) is None {
            assert forall|i: int| 0 <= i < apps.len() implies id_is_sound(
                (#[trigger] apps[i]).desktop_id,
            ) && name_is_sound(apps[i].name) && policy_is_sound(apps[i].policy) by {
                if i < last {
                    assert(front[i] == apps[i]);
                }
            }
            assert forall|i: int, j: int| 0 <= i < j < apps.len() implies (
            #[trigger] apps[i]).desktop_id != (#[trigger] apps[j]).desktop_id by {
                assert(front[i] == apps[i]);
                if j < last {
                    assert(front[j] == apps[j]);
                } else {
                    assert(!id_taken(front, apps[last].desktop_id));
                }
            }
        }
    }
}

/// A registry is valid exactly where its schema is the known one, it has not
/// too many entries, its own policy and that of each entry is sound, each
/// entry has a sound ID and name, and no two entries have one ID.
pub proof fn valid_registries_are_sound_throughout(registry: RegistryView)
    ensures
        valid(registry) <==> {
            &&& registry.schema_version == 1
            &&& registry.apps.len() <= 10_000
            &&& policy_is_sound(registry.launcher.policy)
            &&& forall|i: int|
                0 <= i < registry.apps.len() ==> id_is_sound(
                    (#[trigger] registry.apps[i]).desktop_id,
                ) && name_is_sound(registry.apps[i].name) && policy_is_sound(
                    registry.apps[i].policy,
                )
            &&& forall|i: int, j: int|
                0 <= i < j < registry.apps.len() ==> (#[trigger] registry.apps[i]).desktop_id != (
                #[trigger] registry.apps[j]).desktop_id
        },
{
    lemma_apps_are_sound(registry.apps);
    assert(policy_problem("launcher"@, registry.launcher.policy) is None <==> policy_is_sound(
        registry.launcher.policy,
    ));
}

/// Of some IDs the first that no application has is unknown; where each is an
/// application's, none is.
pub proof fn unknown_ids_are_told(apps: Seq<RegisteredView>, ids: Seq<Seq<char>>)
    ensures
        match first_unknown(apps, ids) {
            None => forall|k: int|
                0 <= k < ids.len() ==> exists|i: int|
                    0 <= i < apps.len() && (#[trigger] apps[i]).desktop_id == #[trigger] ids[k],
            Some(id) => exists|k: int|
                0 <= k < ids.len() && #[trigger] ids[k] == id && (forall|i: int|
                    0 <= i < apps.len() ==> (#[trigger] apps[i]).desktop_id != id) && (forall|m: int|
                    0 <= m < k ==> id_taken(apps, #[trigger] ids[m])),
        },
    decreases ids.len(),
{
    if ids.len() > 0 {
        let rest = ids.drop_first();
        unknown_ids_are_told(apps, rest);
        if !id_taken(apps, ids[0]) {
            assert(ids[0] == first_unknown(apps, ids)->0);
        } else {
            match first_unknown(apps, rest) {
                None => {
                    assert forall|k: int| 0 <= k < ids.len() implies exists|i: int|
                        0 <= i < apps.len() && (#[trigger] apps[i]).desktop_id
                            == #[trigger] ids[k] by {
                        if k > 0 {
                            assert(rest[k - 1] == ids[k]);
                        }
                    }
                },
                Some(id) => {
                    let k = choose|k: int|
                        0 <= k < rest.len() && #[trigger] rest[k] == id && (forall|i: int|
                            0 <= i < apps.len() ==> (#[trigger] apps[i]).desktop_id != id) && (
                        forall|m: int| 0 <= m < k ==> id_taken(apps, #[trigger] rest[m]));
                    assert(ids[k + 1] == id);
                    assert forall|m: int| 0 <= m < k + 1 implies id_taken(
                        apps,
                        #[trigger] ids[m],
                    ) by {
                        if m > 0 {
                            assert(rest[m - 1] == ids[m]);
                        }
                    }
                },
            }
        }
    }
}

/// An ID is reported changed exactly where setting the flag changes its
/// application, and unchanged exactly where it was asked for and does not.
pub proof fn reported_flags_are_those_that_change(
    ids: Seq<Seq<char>>,
    enabled: bool,
    app: RegisteredView,
)
    ensures
        flag_differs(ids, enabled)(app) <==> flagged(ids, enabled)(app) != app,
        flag_agrees(ids, enabled)(app) <==> ids.contains(app.desktop_id) && flagged(ids, enabled)(
            app,
        ) == app,
        ids.contains(app.desktop_id) ==> flagged(ids, enabled)(app).enabled == enabled,
{
}

/// A discovered application is new exactly where no registered one has its ID,
/// and known where one has.
pub proof fn new_is_what_is_not_registered(apps: Seq<RegisteredView>, app: ApplicationView)
    ensures
        is_new(apps)(app) <==> forall|i: int|
            0 <= i < apps.len() ==> (#[trigger] apps[i]).desktop_id != app.desktop_id,
        is_known(apps)(app) <==> exists|i: int|
            0 <= i < apps.len() && (#[trigger] apps[i]).desktop_id == app.desktop_id,
{
}

proof fn lemma_selected_is_first(all: Seq<ApplicationView>, one: ApplicationView)
    requires
        selected(all).contains(one),
    ensures
        exists|k: int|
            0 <= k < all.len() && #[trigger] all[k] == one && forall|m: int|
                0 <= m < k ==> (#[trigger] all[m]).desktop_id != one.desktop_id,
    decreases all.len(),
{
    if all.len() > 0 {
        let front = all.drop_last();
        let s = selected(front);
        let before = crate::discovery::scanner::application_before();
        if super::operations::holds_id(s, all.last().desktop_id) {
            lemma_selected_is_first(front, one);
        } else {
            crate::order::lemma_insert_holds(s, all.last(), before);
            if s.contains(one) {
                lemma_selected_is_first(front, one);
            } else {
                let last = all.len() - 1;
                assert(all[last] == one);
                assert forall|m: int| 0 <= m < last implies (#[trigger] all[m]).desktop_id
                    != one.desktop_id by {
                    if all[m].desktop_id == one.desktop_id {
                        assert(front[m].desktop_id == one.desktop_id);
                        super::laws::lemma_selected_holds(front, one.desktop_id);
                    }
                }
            }
        }
        if s.contains(one) {
            let k = choose|k: int|
                0 <= k < front.len() && #[trigger] front[k] == one && forall|m: int|
                    0 <= m < k ==> (#[trigger] front[m]).desktop_id != one.desktop_id;
            assert(all[k] == one);
            assert forall|m: int| 0 <= m < k implies (#[trigger] all[m]).desktop_id
                != one.desktop_id by {
                assert(front[m].desktop_id != one.desktop_id);
            }
        }
    }
}

/// An added application is the first with its ID among those that were
/// selected: it has that one's name and file, is enabled, and has a copy of the
/// launcher's policy and nothing else.
pub proof fn added_applications_are_the_first_selected(
    registry: RegistryView,
    all: Seq<ApplicationView>,
    app: RegisteredView,
)
    requires
        with_added(registry, all).apps.contains(app),
        !registry.apps.contains(app),
    ensures
        exists|k: int|
            0 <= k < all.len() && {
                let one = #[trigger] all[k];
                &&& app.desktop_id == one.desktop_id
                &&& app.name == one.name
                &&& app.desktop_file == Some(one.desktop_file)
                &&& app.enabled
                &&& app.policy == registry.launcher.policy
                &&& app.extra.len() == 0
                &&& forall|m: int| 0 <= m < k ==> (#[trigger] all[m]).desktop_id != app.desktop_id
            },
{
    let new = selected(all).filter(is_new(registry.apps));
    let more = new.map_values(snapshot(registry.launcher.policy));
    let joined = registry.apps + more;
    lemma_sorted_holds(joined, registered_before(), app);
    let k = choose|k: int| 0 <= k < joined.len() && joined[k] == app;
    if k < registry.apps.len() {
        assert(registry.apps[k] == app);
    } else {
        let m = k - registry.apps.len();
        assert(more[m] == app);
        assert(new.contains(new[m]));
        lemma_filter_holds(selected(all), is_new(registry.apps), new[m]);
        lemma_selected_is_first(all, new[m]);
    }
}

/// What is reported added is what was not registered, and what is reported as
/// registered already is what was.
pub proof fn reported_additions_are_those_made(
    registry: RegistryView,
    all: Seq<ApplicationView>,
    id: Seq<char>,
)
    ensures
        application_ids(selected(all).filter(is_new(registry.apps))).contains(id) <==> (exists|k: int|
            0 <= k < all.len() && (#[trigger] all[k]).desktop_id == id) && forall|i: int|
            0 <= i < registry.apps.len() ==> (#[trigger] registry.apps[i]).desktop_id != id,
        application_ids(selected(all).filter(is_known(registry.apps))).contains(id) <==> (exists|
            k: int,
        |
            0 <= k < all.len() && (#[trigger] all[k]).desktop_id == id) && exists|i: int|
            0 <= i < registry.apps.len() && (#[trigger] registry.apps[i]).desktop_id == id,
{
    lemma_new_is_not_known(registry.apps);
    lemma_reported(registry.apps, all, is_new(registry.apps), id);
    lemma_reported(registry.apps, all, is_known(registry.apps), id);
}

proof fn lemma_reported(
    apps: Seq<RegisteredView>,
    all: Seq<ApplicationView>,
    keep: spec_fn(ApplicationView) -> bool,
    id: Seq<char>,
)
    requires
        keep == is_new(apps) || keep == is_known(apps),
    ensures
        application_ids(selected(all).filter(keep)).contains(id) <==> super::operations::holds_id(
            all,
            id,
        ) && id_taken(apps, id) == (keep == is_known(apps) && !(keep == is_new(apps))),
{
    let chosen = selected(all);
    let kept = chosen.filter(keep);
    let ids = application_ids(kept);
    super::laws::lemma_selected_holds(all, id);
    if ids.contains(id) {
        let k = choose|k: int| 0 <= k < ids.len() && ids[k] == id;
        assert(kept.contains(kept[k]));
        lemma_filter_holds(chosen, keep, kept[k]);
        let c = choose|c: int| 0 <= c < chosen.len() && chosen[c] == kept[k];
        assert(chosen[c].desktop_id == id);
    }
    if super::operations::holds_id(all, id) {
        let c = choose|c: int| 0 <= c < chosen.len() && (#[trigger] chosen[c]).desktop_id == id;
        assert(chosen.contains(chosen[c]));
        lemma_filter_holds(chosen, keep, chosen[c]);
        if keep(chosen[c]) {
            let k = choose|k: int| 0 <= k < kept.len() && kept[k] == chosen[c];
            assert(ids[k] == id);
        }
    }
    lemma_new_is_not_known(apps);
}

proof fn lemma_new_is_not_known(apps: Seq<RegisteredView>)
    ensures
        is_new(apps) != is_known(apps),
{
    let one: ApplicationView = arbitrary();
    assert(is_new(apps)(one) != is_known(apps)(one));
}

/// A registered application is available under the name that the last
/// discovered one with its ID has, and unavailable where none has it; nothing
/// is known of it where nothing was discovered.
pub proof fn availability_is_what_was_discovered(discovery: Option<ReportView>, id: Seq<char>)
    ensures
        match discovery {
            None => availability(discovery, id) == AvailabilityView::Unknown,
            Some(report) => match availability(discovery, id) {
                AvailabilityView::Unknown => false,
                AvailabilityView::Unavailable => forall|i: int|
                    0 <= i < report.applications.len() ==> (
                    #[trigger] report.applications[i]).desktop_id != id,
                AvailabilityView::Available { current_name } => exists|i: int|
                    0 <= i < report.applications.len() && {
                        let one = #[trigger] report.applications[i];
                        one.desktop_id == id && one.name == current_name && forall|m: int|
                            i < m < report.applications.len() ==> (
                            #[trigger] report.applications[m]).desktop_id != id
                    },
            },
        },
{
    if discovery is Some {
        lemma_current_name(discovery->0.applications, id);
    }
}

proof fn lemma_current_name(all: Seq<ApplicationView>, id: Seq<char>)
    ensures
        match current_name(all, id) {
            None => forall|i: int| 0 <= i < all.len() ==> (#[trigger] all[i]).desktop_id != id,
            Some(name) => exists|i: int|
                0 <= i < all.len() && {
                    let one = #[trigger] all[i];
                    one.desktop_id == id && one.name == name && forall|m: int|
                        i < m < all.len() ==> (#[trigger] all[m]).desktop_id != id
                },
        },
    decreases all.len(),
{
    if all.len() > 0 {
        let front = all.drop_last();
        let last = all.len() - 1;
        lemma_current_name(front, id);
        if all[last].desktop_id == id {
            assert(all[last].name == current_name(all, id)->0);
        } else {
            match current_name(front, id) {
                None => {
                    assert forall|i: int| 0 <= i < all.len() implies (#[trigger] all[i]).desktop_id
                        != id by {
                        if i < last {
                            assert(front[i] == all[i]);
                        }
                    }
                },
                Some(name) => {
                    let i = choose|i: int|
                        0 <= i < front.len() && {
                            let one = #[trigger] front[i];
                            one.desktop_id == id && one.name == name && forall|m: int|
                                i < m < front.len() ==> (#[trigger] front[m]).desktop_id != id
                        };
                    assert(all[i].desktop_id == id);
                    assert forall|m: int| i < m < all.len() implies (#[trigger] all[m]).desktop_id
                        != id by {
                        if m < last {
                            assert(front[m] == all[m]);
                        }
                    }
                },
            }
        }
    }
}

/// Loading gives every entry of the file and no other, valid and in the order
/// of the IDs, with the launcher's settings and unknown keys as they stand
/// there; a file of another schema, or an invalid one, is never loaded.
pub proof fn loading_gives_what_is_stored(path: Seq<u8>, state: ConfigState)
    ensures
        match loaded(path, state) {
            Ok((registry, exists)) => {
                &&& valid(registry)
                &&& registry.schema_version == 1
                &&& match state {
                    ConfigState::Missing => !exists && registry.apps.len() == 0,
                    ConfigState::Decoded(stored) => {
                        &&& exists
                        &&& registry.launcher == stored@.launcher
                        &&& registry.extra == stored@.extra
                        &&& registry.schema_version == stored@.schema_version
                        &&& registry.apps.to_multiset() == stored@.apps.to_multiset()
                        &&& crate::order::in_order(registry.apps, registered_before())
                    },
                    _ => false,
                }
            },
            Err(_) => match state {
                ConfigState::Missing => false,
                ConfigState::Decoded(stored) => stored@.schema_version != 1 || !valid(
                    normalized(stored@),
                ),
                _ => true,
            },
        },
{
    match state {
        ConfigState::Decoded(stored) => {
            super::laws::sorted_apps_are_in_order(stored@.apps);
            crate::order::lemma_stable_sorted_permutes(stored@.apps, registered_before());
        },
        ConfigState::Missing => {
            lemma_apps_are_sound(Seq::empty());
        },
        _ => {},
    }
}

/// A priority that is read from a file is the one that stands there, and four
/// where there is none and the class takes one; one that is fitted to a class
/// is none where the class takes none.
pub proof fn priorities_fit_their_class(priority: Option<u8>, class: IoPriorityClass)
    ensures
        fitting_priority(priority, class) is Some <==> takes_priority(class),
        takes_priority(class) ==> fitting_priority(priority, class) == stored_priority(
            priority,
            class,
        ),
        priority is Some ==> stored_priority(priority, class) == priority,
        priority is None ==> stored_priority(priority, class) == (if takes_priority(class) {
            Some(4u8)
        } else {
            None
        }),
{
}

/// A configuration file that is given is taken, unless it is no path at all;
/// else it is looked for below the directory for configurations or below the
/// home directory, of which only absolute ones count.
pub proof fn given_configurations_go_first(
    explicit: Option<Seq<u8>>,
    xdg: Option<Seq<u8>>,
    home: Option<Seq<u8>>,
)
    ensures
        explicit is Some && explicit->0.len() > 0 ==> config_path(explicit, xdg, home) == Ok::<
            Seq<u8>,
            RegistryErrorView,
        >(explicit->0),
        explicit is Some ==> (config_path(explicit, xdg, home) is Err <==> explicit->0.len() == 0),
        explicit is None ==> (config_path(explicit, xdg, home) is Ok <==> (xdg is Some && absolute(
            xdg->0,
        )) || (home is Some && absolute(home->0))),
        explicit is None && xdg is Some && absolute(xdg->0) ==> config_path(explicit, xdg, home)
            == config_path(None, xdg, None),
        explicit is None && !(xdg is Some && absolute(xdg->0)) ==> config_path(
            explicit,
            xdg,
            home,
        ) == config_path(None, None, home),
{
}

} // verus!
