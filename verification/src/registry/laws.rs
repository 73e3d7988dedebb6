//! What the registry operations keep, and what one of them undoes.
use vstd::prelude::*;

use super::error::RegistryErrorView;
use super::model::{
    io_class_text, normalized, registered_before, sorted_apps, AppRegistry,
    ApplicationSettingsUpdate, IoPriorityClass, PolicyView, RegisteredView, RegistryView,
};
use super::operations::{
    application_ids, configured, find_app, flag_differs, flagged, holds_id, is_kept, is_new,
    selected, snapshot, updated_policy, with_added, with_enabled, with_policy, with_removed,
};
use super::store::{gives_valid, loaded, ChangeEvent, ChangePhaseView, ChangeView, ConfigState};
use super::validation::{app_problem, id_taken, sound_apps_are_valid, valid, valid_apps_are_sound};
use crate::discovery::types::ApplicationView;
use crate::order::{
    in_order, lemma_filter_all, lemma_filter_holds, lemma_filter_of_sorted, lemma_insert_holds,
    lemma_sorted_holds, lemma_sorted_is_fixed, stable_sorted,
};
use crate::text::{lemma_before_irreflexive, lemma_before_total, lemma_before_transitive};

verus! {

proof fn lemma_registered_order()
    ensures
        crate::order::strict_weak_order(registered_before()),
{
    let before = registered_before();
    assert forall|a: RegisteredView, b: RegisteredView| #[trigger] before(a, b) implies !before(
        b,
        a,
    ) by {
        if before(b, a) {
            lemma_before_transitive(a.desktop_id, b.desktop_id, a.desktop_id);
            lemma_before_irreflexive(a.desktop_id);
        }
    }
    assert forall|a: RegisteredView, b: RegisteredView, c: RegisteredView|
        !(#[trigger] before(a, b)) && !(#[trigger] before(b, c)) implies !before(a, c) by {
        if before(a, c) {
            lemma_before_total(b.desktop_id, c.desktop_id);
            lemma_before_total(a.desktop_id, b.desktop_id);
            if b.desktop_id == c.desktop_id {
            } else if a.desktop_id == b.desktop_id {
            } else {
                lemma_before_transitive(c.desktop_id, b.desktop_id, a.desktop_id);
                lemma_before_transitive(a.desktop_id, c.desktop_id, a.desktop_id);
                lemma_before_irreflexive(a.desktop_id);
            }
        }
    }
}

/// Sorted applications are in the order of their IDs.
pub proof fn sorted_apps_are_in_order(apps: Seq<RegisteredView>)
    ensures
        in_order(sorted_apps(apps), registered_before()),
        sorted_apps(apps).len() == apps.len(),
{
    lemma_registered_order();
    crate::order::lemma_stable_sorted_order(apps, registered_before());
    crate::order::lemma_stable_sorted_permutes(apps, registered_before());
}

/// Sorting twice is sorting once.
pub proof fn sorting_is_idempotent(apps: Seq<RegisteredView>)
    ensures
        sorted_apps(sorted_apps(apps)) == sorted_apps(apps),
{
    sorted_apps_are_in_order(apps);
    lemma_sorted_is_fixed(sorted_apps(apps), registered_before());
}

/// Adding keeps every application that was registered, as it was.
pub proof fn adding_keeps_registered(
    registry: RegistryView,
    all: Seq<ApplicationView>,
    app: RegisteredView,
)
    requires
        registry.apps.contains(app),
    ensures
        with_added(registry, all).apps.contains(app),
{
    let more = selected(all).filter(is_new(registry.apps)).map_values(
        snapshot(registry.launcher.policy),
    );
    let k = choose|k: int| 0 <= k < registry.apps.len() && registry.apps[k] == app;
    assert((registry.apps + more)[k] == app);
    lemma_sorted_holds(registry.apps + more, registered_before(), app);
}

/// An added application has a copy of the policy that was the default at that
/// time, and is enabled.
pub proof fn added_applications_copy_the_defaults(
    registry: RegistryView,
    all: Seq<ApplicationView>,
    app: RegisteredView,
)
    requires
        with_added(registry, all).apps.contains(app),
        !registry.apps.contains(app),
    ensures
        app.policy == registry.launcher.policy,
        app.enabled,
        !id_taken(registry.apps, app.desktop_id),
{
    let new = selected(all).filter(is_new(registry.apps));
    let more = new.map_values(snapshot(registry.launcher.policy));
    lemma_sorted_holds(registry.apps + more, registered_before(), app);
    let k = choose|k: int|
        0 <= k < (registry.apps + more).len() && (registry.apps + more)[k] == app;
    if k < registry.apps.len() {
        assert(registry.apps[k] == app);
    } else {
        let m = k - registry.apps.len();
        assert(more[m] == app);
        assert(new.contains(new[m]));
        lemma_filter_holds(selected(all), is_new(registry.apps), new[m]);
    }
}

/// An application that is selected stands among the selected ones.
pub(crate) proof fn lemma_selected_holds(all: Seq<ApplicationView>, id: Seq<char>)
    ensures
        holds_id(selected(all), id) <==> holds_id(all, id),
    decreases all.len(),
{
    if all.len() > 0 {
        let front = all.drop_last();
        let last = all.last();
        lemma_selected_holds(front, id);
        let s = selected(front);
        if holds_id(front, id) {
            let k = choose|k: int| 0 <= k < front.len() && (#[trigger] front[k]).desktop_id == id;
            assert(all[k].desktop_id == id);
        }
        if last.desktop_id == id {
            assert(all[all.len() - 1].desktop_id == id);
        }
        if holds_id(all, id) {
            let k = choose|k: int| 0 <= k < all.len() && (#[trigger] all[k]).desktop_id == id;
            if k < front.len() {
                assert(front[k].desktop_id == id);
            }
        }
        if !holds_id(s, last.desktop_id) {
            let before = crate::discovery::scanner::application_before();
            let r = crate::order::insert_sorted(s, last, before);
            lemma_insert_holds(s, last, before);
            if holds_id(s, id) {
                let k = choose|k: int| 0 <= k < s.len() && (#[trigger] s[k]).desktop_id == id;
                assert(s.contains(s[k]));
                assert(r.contains(s[k]));
                let m = choose|m: int| 0 <= m < r.len() && r[m] == s[k];
                assert(r[m].desktop_id == id);
            }
            if last.desktop_id == id {
                assert(r.contains(last));
                let m = choose|m: int| 0 <= m < r.len() && r[m] == last;
                assert(r[m].desktop_id == id);
            }
            if holds_id(r, id) {
                let m = choose|m: int| 0 <= m < r.len() && (#[trigger] r[m]).desktop_id == id;
                assert(r.contains(r[m]));
                if r[m] != last {
                    assert(s.contains(r[m]));
                    let k = choose|k: int| 0 <= k < s.len() && s[k] == r[m];
                    assert(s[k].desktop_id == id);
                }
            }
        }
    }
}

/// After adding, exactly those IDs are registered that were so before or that
/// an added application has.
pub proof fn adding_registers_every_id(
    registry: RegistryView,
    all: Seq<ApplicationView>,
    id: Seq<char>,
)
    ensures
        id_taken(with_added(registry, all).apps, id) <==> id_taken(registry.apps, id)
            || holds_id(all, id),
{
    let after = with_added(registry, all).apps;
    let chosen = selected(all);
    let new = chosen.filter(is_new(registry.apps));
    let more = new.map_values(snapshot(registry.launcher.policy));
    let joined = registry.apps + more;
    lemma_selected_holds(all, id);
    if id_taken(after, id) {
        let k = choose|k: int| 0 <= k < after.len() && (#[trigger] after[k]).desktop_id == id;
        assert(after.contains(after[k]));
        lemma_sorted_holds(joined, registered_before(), after[k]);
        let m = choose|m: int| 0 <= m < joined.len() && joined[m] == after[k];
        if m < registry.apps.len() {
            assert(registry.apps[m].desktop_id == id);
        } else {
            let n = m - registry.apps.len();
            assert(more[n] == after[k]);
            assert(new.contains(new[n]));
            lemma_filter_holds(chosen, is_new(registry.apps), new[n]);
            let c = choose|c: int| 0 <= c < chosen.len() && chosen[c] == new[n];
            assert(chosen[c].desktop_id == id);
        }
    }
    if id_taken(registry.apps, id) {
        let k = choose|k: int|
            0 <= k < registry.apps.len() && (#[trigger] registry.apps[k]).desktop_id == id;
        assert(registry.apps.contains(registry.apps[k]));
        adding_keeps_registered(registry, all, registry.apps[k]);
        let m = choose|m: int| 0 <= m < after.len() && after[m] == registry.apps[k];
        assert(after[m].desktop_id == id);
    } else if holds_id(all, id) {
        let c = choose|c: int| 0 <= c < chosen.len() && (#[trigger] chosen[c]).desktop_id == id;
        assert(chosen.contains(chosen[c]));
        lemma_filter_holds(chosen, is_new(registry.apps), chosen[c]);
        let n = choose|n: int| 0 <= n < new.len() && new[n] == chosen[c];
        assert(joined[registry.apps.len() + n] == more[n]);
        assert(joined.contains(more[n]));
        lemma_sorted_holds(joined, registered_before(), more[n]);
        let m = choose|m: int| 0 <= m < after.len() && after[m] == more[n];
        assert(after[m].desktop_id == id);
    }
}

/// Adding the same applications again adds nothing.
pub proof fn adding_twice_adds_nothing(registry: RegistryView, all: Seq<ApplicationView>)
    ensures
        selected(all).filter(is_new(with_added(registry, all).apps)).len() == 0,
        with_added(with_added(registry, all), all) == with_added(registry, all),
{
    let after = with_added(registry, all);
    let chosen = selected(all);
    let new = chosen.filter(is_new(registry.apps));
    let more = new.map_values(snapshot(registry.launcher.policy));
    let again = chosen.filter(is_new(after.apps));
    if again.len() > 0 {
        let a = again[0];
        assert(again.contains(a));
        lemma_filter_holds(chosen, is_new(after.apps), a);
        lemma_filter_holds(chosen, is_new(registry.apps), a);
        if id_taken(registry.apps, a.desktop_id) {
            let k = choose|k: int|
                0 <= k < registry.apps.len() && (#[trigger] registry.apps[k]).desktop_id
                    == a.desktop_id;
            adding_keeps_registered(registry, all, registry.apps[k]);
            assert(registry.apps.contains(registry.apps[k]));
            let m = choose|m: int| 0 <= m < after.apps.len() && after.apps[m] == registry.apps[k];
            assert(after.apps[m].desktop_id == a.desktop_id);
        } else {
            let k = choose|k: int| 0 <= k < new.len() && new[k] == a;
            assert(more[k].desktop_id == a.desktop_id);
            assert((registry.apps + more)[registry.apps.len() + k] == more[k]);
            assert((registry.apps + more).contains(more[k]));
            lemma_sorted_holds(registry.apps + more, registered_before(), more[k]);
            let m = choose|m: int| 0 <= m < after.apps.len() && after.apps[m] == more[k];
            assert(after.apps[m].desktop_id == a.desktop_id);
        }
    }
    assert(again =~= Seq::empty());
    let repeated = again.map_values(snapshot(after.launcher.policy));
    assert(repeated =~= Seq::empty());
    assert(after.apps + repeated =~= after.apps);
    sorting_is_idempotent(registry.apps + more);
}

/// Removed IDs are gone, and every other application stays as it was.
pub proof fn removing_removes_exactly(registry: RegistryView, ids: Seq<Seq<char>>, app: RegisteredView)
    ensures
        with_removed(registry, ids).apps.contains(app) <==> registry.apps.contains(app)
            && !ids.contains(app.desktop_id),
{
    lemma_sorted_holds(registry.apps.filter(is_kept(ids)), registered_before(), app);
    lemma_filter_holds(registry.apps, is_kept(ids), app);
}

/// Setting a flag that is set changes nothing.
pub proof fn enabling_is_idempotent(registry: RegistryView, ids: Seq<Seq<char>>, enabled: bool)
    ensures
        with_enabled(registry, ids, enabled).apps.filter(flag_differs(ids, enabled)).len() == 0,
        with_enabled(with_enabled(registry, ids, enabled), ids, enabled) == with_enabled(
            registry,
            ids,
            enabled,
        ),
{
    let set = registry.apps.map_values(flagged(ids, enabled));
    let after = with_enabled(registry, ids, enabled);
    assert forall|k: int| 0 <= k < after.apps.len() implies flagged(ids, enabled)(
        #[trigger] after.apps[k],
    ) == after.apps[k] && !flag_differs(ids, enabled)(after.apps[k]) by {
        lemma_sorted_holds(set, registered_before(), after.apps[k]);
        assert(after.apps.contains(after.apps[k]));
        let m = choose|m: int| 0 <= m < set.len() && set[m] == after.apps[k];
        assert(set[m] == flagged(ids, enabled)(registry.apps[m]));
    }
    let differing = after.apps.filter(flag_differs(ids, enabled));
    if differing.len() > 0 {
        assert(differing.contains(differing[0]));
        lemma_filter_holds(after.apps, flag_differs(ids, enabled), differing[0]);
        let k = choose|k: int| 0 <= k < after.apps.len() && after.apps[k] == differing[0];
        assert(!flag_differs(ids, enabled)(after.apps[k]));
    }
    assert(after.apps.map_values(flagged(ids, enabled)) =~= after.apps);
    sorting_is_idempotent(set);
}

/// Setting a flag and then setting it otherwise is setting it otherwise.
pub proof fn last_flag_wins(registry: RegistryView, ids: Seq<Seq<char>>, first: bool, last: bool)
    ensures
        with_enabled(with_enabled(registry, ids, first), ids, last) == with_enabled(
            registry,
            ids,
            last,
        ),
{
    let apps = registry.apps.map_values(flagged(ids, first));
    let before = registered_before();
    crate::order::lemma_stable_sorted_map(apps, flagged(ids, last), before, before);
    assert(apps.map_values(flagged(ids, last)) =~= registry.apps.map_values(flagged(ids, last)));
    sorting_is_idempotent(registry.apps.map_values(flagged(ids, last)));
}

/// Setting a flag changes the flag of the named applications and nothing else.
pub proof fn enabling_changes_only_the_flag(
    registry: RegistryView,
    ids: Seq<Seq<char>>,
    enabled: bool,
    app: RegisteredView,
)
    requires
        registry.apps.contains(app),
    ensures
        with_enabled(registry, ids, enabled).apps.contains(
            if ids.contains(app.desktop_id) {
                RegisteredView { enabled, ..app }
            } else {
                app
            },
        ),
        with_enabled(registry, ids, enabled).apps.len() == registry.apps.len(),
{
    let set = registry.apps.map_values(flagged(ids, enabled));
    let k = choose|k: int| 0 <= k < registry.apps.len() && registry.apps[k] == app;
    assert(set[k] == flagged(ids, enabled)(app));
    lemma_sorted_holds(set, registered_before(), set[k]);
    crate::order::lemma_stable_sorted_permutes(set, registered_before());
}

proof fn lemma_find_app_is(apps: Seq<RegisteredView>, id: Seq<char>)
    ensures
        match find_app(apps, id) {
            Some(k) => 0 <= k < apps.len() && apps[k].desktop_id == id,
            None => !id_taken(apps, id),
        },
    decreases apps.len(),
{
    if apps.len() > 0 {
        let front = apps.drop_last();
        lemma_find_app_is(front, id);
        if find_app(apps, id) is None && id_taken(apps, id) {
            let k = choose|k: int| 0 <= k < apps.len() && (#[trigger] apps[k]).desktop_id == id;
            assert(front[k].desktop_id == id);
        }
    }
}

/// The applications of one ID.
spec fn has_id(id: Seq<char>) -> spec_fn(RegisteredView) -> bool {
    |a: RegisteredView| a.desktop_id == id
}

/// What is found is the first application of the ID.
proof fn lemma_find_app_is_first(apps: Seq<RegisteredView>, id: Seq<char>)
    ensures
        match find_app(apps, id) {
            Some(k) => apps.filter(has_id(id)).len() > 0 && apps.filter(has_id(id))[0] == apps[k],
            None => apps.filter(has_id(id)).len() == 0,
        },
    decreases apps.len(),
{
    reveal(Seq::filter);
    lemma_find_app_is(apps, id);
    if apps.len() > 0 {
        let front = apps.drop_last();
        lemma_find_app_is(front, id);
        lemma_find_app_is_first(front, id);
    }
}

/// A change that keeps the ID of what is found leaves it the one to be found.
proof fn lemma_find_app_after_update(apps: Seq<RegisteredView>, id: Seq<char>, app: RegisteredView)
    requires
        find_app(apps, id) is Some,
        app.desktop_id == id,
    ensures
        find_app(apps.update(find_app(apps, id)->0, app), id) == find_app(apps, id),
    decreases apps.len(),
{
    let at = find_app(apps, id)->0;
    let set = apps.update(at, app);
    let front = apps.drop_last();
    lemma_find_app_is(apps, id);
    lemma_find_app_is(front, id);
    if find_app(front, id) is Some {
        lemma_find_app_after_update(front, id, app);
        assert(set.drop_last() =~= front.update(at, app));
    } else {
        assert(set.drop_last() =~= front);
    }
}

/// What is found among sorted applications is what was found before.
proof fn lemma_find_app_sorted(apps: Seq<RegisteredView>, id: Seq<char>)
    ensures
        match find_app(apps, id) {
            Some(k) => find_app(sorted_apps(apps), id) matches Some(m)
                && sorted_apps(apps)[m] == apps[k],
            None => find_app(sorted_apps(apps), id) is None,
        },
{
    let before = registered_before();
    let own = apps.filter(has_id(id));
    lemma_find_app_is_first(apps, id);
    lemma_find_app_is_first(sorted_apps(apps), id);
    lemma_registered_order();
    lemma_filter_of_sorted(apps, before, has_id(id));
    assert forall|i: int, j: int| 0 <= i < j < own.len() implies !before(
        #[trigger] own[j],
        #[trigger] own[i],
    ) by {
        assert(own.contains(own[i]) && own.contains(own[j]));
        lemma_filter_holds(apps, has_id(id), own[i]);
        lemma_filter_holds(apps, has_id(id), own[j]);
        lemma_before_irreflexive(id);
    }
    lemma_sorted_is_fixed(own, before);
}

/// Configuring an application changes its policy and nothing else: what is
/// found under its ID afterwards is the application with the new policy, and
/// every application of another ID stays as it was.
pub proof fn configuring_changes_one_policy(registry: RegistryView, id: Seq<char>, policy: PolicyView)
    requires
        find_app(registry.apps, id) is Some,
    ensures
        ({
            let at = find_app(registry.apps, id)->0;
            let after = with_policy(registry, at, policy);
            let found = find_app(after.apps, id);
            &&& found is Some
            &&& 0 <= found->0 < after.apps.len()
            &&& after.apps[found->0] == (RegisteredView { policy, ..registry.apps[at] })
            &&& after.apps.len() == registry.apps.len()
            &&& forall|app: RegisteredView|
                app.desktop_id != id ==> (#[trigger] after.apps.contains(app)
                    <==> registry.apps.contains(app))
        }),
{
    let at = find_app(registry.apps, id)->0;
    let changed = RegisteredView { policy, ..registry.apps[at] };
    let set = registry.apps.update(at, changed);
    let after = with_policy(registry, at, policy);
    let before = registered_before();
    lemma_find_app_is(registry.apps, id);
    lemma_find_app_is(after.apps, id);
    lemma_find_app_after_update(registry.apps, id, changed);
    lemma_find_app_sorted(set, id);
    crate::order::lemma_stable_sorted_permutes(set, before);
    assert forall|app: RegisteredView| app.desktop_id != id implies (#[trigger] after.apps.contains(
        app,
    ) <==> registry.apps.contains(app)) by {
        lemma_sorted_holds(set, before, app);
        if set.contains(app) {
            let n = choose|n: int| 0 <= n < set.len() && set[n] == app;
            assert(registry.apps[n] == app);
        }
        if registry.apps.contains(app) {
            let n = choose|n: int| 0 <= n < registry.apps.len() && registry.apps[n] == app;
            assert(set[n] == app);
        }
    }
}

/// The same update again changes nothing.
pub proof fn configuring_is_idempotent(
    registry: RegistryView,
    id: Seq<char>,
    update: ApplicationSettingsUpdate,
)
    requires
        find_app(registry.apps, id) is Some,
    ensures
        ({
            let after = configured(registry, id, update);
            let found = find_app(after.apps, id)->0;
            &&& updated_policy(after.apps[found].policy, update, after.launcher.policy)
                == after.apps[found].policy
            &&& configured(after, id, update) == after
        }),
{
    let at = find_app(registry.apps, id)->0;
    let policy = updated_policy(registry.apps[at].policy, update, registry.launcher.policy);
    configuring_changes_one_policy(registry, id, policy);
    let after = configured(registry, id, update);
    let found = find_app(after.apps, id)->0;
    assert(after.apps[found].policy == policy);
    assert(after.apps.update(found, RegisteredView { policy, ..after.apps[found] })
        =~= after.apps);
    sorting_is_idempotent(
        registry.apps.update(at, RegisteredView { policy, ..registry.apps[at] }),
    );
}

/// A reset gives an application the policy that is the default at that time,
/// whatever its own was.
pub proof fn reset_restores_the_defaults(
    registry: RegistryView,
    id: Seq<char>,
    update: ApplicationSettingsUpdate,
)
    requires
        find_app(registry.apps, id) is Some,
        update.reset_to_defaults,
    ensures
        ({
            let after = configured(registry, id, update);
            after.apps[find_app(after.apps, id)->0].policy == registry.launcher.policy
        }),
{
    configuring_changes_one_policy(registry, id, registry.launcher.policy);
}

/// Two registries that differ in their applications at most.
pub open spec fn same_settings(a: RegistryView, b: RegistryView) -> bool {
    &&& a.schema_version == b.schema_version
    &&& a.launcher == b.launcher
    &&& a.extra == b.extra
}

/// No operation on the applications changes the launcher's own settings, the
/// schema version or a key that the registry does not know.
pub proof fn settings_survive(
    registry: RegistryView,
    all: Seq<ApplicationView>,
    ids: Seq<Seq<char>>,
    enabled: bool,
    id: Seq<char>,
    update: ApplicationSettingsUpdate,
)
    ensures
        same_settings(normalized(registry), registry),
        same_settings(with_added(registry, all), registry),
        same_settings(with_removed(registry, ids), registry),
        same_settings(with_enabled(registry, ids, enabled), registry),
        same_settings(configured(registry, id, update), registry),
{
}

/// What was saved loads back: the canonical form of a registry, found in the
/// file, is what loading gives. The text in between is written and read by the
/// program around the library; that it decodes to the same registry is not
/// stated here.
pub proof fn saved_registry_loads_back(path: Seq<u8>, registry: RegistryView, stored: AppRegistry)
    requires
        valid(normalized(registry)),
        stored@ == normalized(registry),
    ensures
        loaded(path, ConfigState::Decoded(stored)) == Ok::<
            (RegistryView, bool),
            RegistryErrorView,
        >((normalized(registry), true)),
{
    sorting_is_idempotent(registry.apps);
}

/// No two applications have the same ID.
spec fn distinct_ids(apps: Seq<RegisteredView>) -> bool {
    forall|i: int, j: int|
        0 <= i < j < apps.len() ==> (#[trigger] apps[i]).desktop_id != (
        #[trigger] apps[j]).desktop_id
}

proof fn lemma_sorted_distinct(apps: Seq<RegisteredView>)
    requires
        distinct_ids(apps),
    ensures
        distinct_ids(sorted_apps(apps)),
{
    let before = registered_before();
    let sorted = sorted_apps(apps);
    assert(apps.no_duplicates());
    apps.lemma_multiset_has_no_duplicates();
    crate::order::lemma_stable_sorted_permutes(apps, before);
    sorted.lemma_multiset_has_no_duplicates_conv();
    assert forall|i: int, j: int| 0 <= i < j < sorted.len() implies (
    #[trigger] sorted[i]).desktop_id != (#[trigger] sorted[j]).desktop_id by {
        lemma_sorted_holds(apps, before, sorted[i]);
        lemma_sorted_holds(apps, before, sorted[j]);
        assert(sorted.contains(sorted[i]) && sorted.contains(sorted[j]));
        let k = choose|k: int| 0 <= k < apps.len() && apps[k] == sorted[i];
        let m = choose|m: int| 0 <= m < apps.len() && apps[m] == sorted[j];
        assert(k != m);
        if k < m {
            assert(apps[k].desktop_id != apps[m].desktop_id);
        } else {
            assert(apps[m].desktop_id != apps[k].desktop_id);
        }
    }
}

/// Applications that are sound by themselves, distinct and no more than there
/// were stay valid when they are sorted.
proof fn lemma_valid_after(registry: RegistryView, apps: Seq<RegisteredView>)
    requires
        valid(registry),
        apps.len() <= registry.apps.len(),
        forall|i: int| 0 <= i < apps.len() ==> app_problem(0, #[trigger] apps[i]) is None,
        distinct_ids(apps),
    ensures
        valid(RegistryView { apps: sorted_apps(apps), ..registry }),
{
    let before = registered_before();
    let sorted = sorted_apps(apps);
    crate::order::lemma_stable_sorted_permutes(apps, before);
    lemma_sorted_distinct(apps);
    assert forall|i: int| 0 <= i < sorted.len() implies app_problem(0, #[trigger] sorted[i])
        is None by {
        lemma_sorted_holds(apps, before, sorted[i]);
        assert(sorted.contains(sorted[i]));
        let k = choose|k: int| 0 <= k < apps.len() && apps[k] == sorted[i];
        assert(app_problem(0, apps[k]) is None);
    }
    sound_apps_are_valid(sorted);
}

proof fn lemma_filter_distinct(apps: Seq<RegisteredView>, keep: spec_fn(RegisteredView) -> bool)
    requires
        distinct_ids(apps),
    ensures
        distinct_ids(apps.filter(keep)),
        apps.filter(keep).len() <= apps.len(),
    decreases apps.len(),
{
    reveal(Seq::filter);
    if apps.len() > 0 {
        let front = apps.drop_last();
        assert forall|i: int, j: int| 0 <= i < j < front.len() implies (
        #[trigger] front[i]).desktop_id != (#[trigger] front[j]).desktop_id by {
            assert(apps[i].desktop_id != apps[j].desktop_id);
        }
        lemma_filter_distinct(front, keep);
        if keep(apps.last()) {
            let f = front.filter(keep);
            let kept = f.push(apps.last());
            assert forall|i: int, j: int| 0 <= i < j < kept.len() implies (
            #[trigger] kept[i]).desktop_id != (#[trigger] kept[j]).desktop_id by {
                if j < f.len() {
                    assert(f[i].desktop_id != f[j].desktop_id);
                } else {
                    assert(f.contains(f[i]));
                    lemma_filter_holds(front, keep, f[i]);
                    let k = choose|k: int| 0 <= k < front.len() && front[k] == f[i];
                    assert(apps[k].desktop_id != apps[apps.len() - 1].desktop_id);
                }
            }
            assert(apps.filter(keep) == kept);
        }
    }
}

/// Putting a valid registry in order, removing from it and setting flags in it
/// leaves it valid, so that none of these is ever refused for its outcome.
pub proof fn valid_registries_stay_valid(
    registry: RegistryView,
    ids: Seq<Seq<char>>,
    enabled: bool,
)
    requires
        valid(registry),
    ensures
        valid(normalized(registry)),
        valid(with_removed(registry, ids)),
        valid(with_enabled(registry, ids, enabled)),
{
    let apps = registry.apps;
    valid_apps_are_sound(apps);
    assert forall|i: int| 0 <= i < apps.len() implies app_problem(0, #[trigger] apps[i])
        is None by {
        assert(app_problem(i, apps[i]) is None);
    }
    lemma_valid_after(registry, apps);

    let kept = apps.filter(is_kept(ids));
    lemma_filter_distinct(apps, is_kept(ids));
    assert forall|i: int| 0 <= i < kept.len() implies app_problem(0, #[trigger] kept[i])
        is None by {
        assert(kept.contains(kept[i]));
        lemma_filter_holds(apps, is_kept(ids), kept[i]);
        let k = choose|k: int| 0 <= k < apps.len() && apps[k] == kept[i];
        assert(app_problem(0, apps[k]) is None);
    }
    lemma_valid_after(registry, kept);

    let set = apps.map_values(flagged(ids, enabled));
    assert forall|i: int| 0 <= i < set.len() implies app_problem(0, #[trigger] set[i]) is None by {
        assert(app_problem(0, apps[i]) is None);
    }
    assert forall|i: int, j: int| 0 <= i < j < set.len() implies (#[trigger] set[i]).desktop_id != (
    #[trigger] set[j]).desktop_id by {
        assert(apps[i].desktop_id != apps[j].desktop_id);
    }
    lemma_valid_after(registry, set);
}

/// A policy that was configured piece by piece has a priority exactly where
/// its class takes one.
pub proof fn configured_priority_fits(
    policy: PolicyView,
    update: ApplicationSettingsUpdate,
    defaults: PolicyView,
)
    requires
        !update.reset_to_defaults,
    ensures
        updated_policy(policy, update, defaults).io_priority is Some
            <==> super::model::has_priority(updated_policy(policy, update, defaults).io_class),
{
}

/// A name stands for one I/O class, so that a class is read back from its name.
pub proof fn io_class_names_are_distinct(a: IoPriorityClass, b: IoPriorityClass)
    requires
        io_class_text(a) == io_class_text(b),
    ensures
        a == b,
{
    reveal_strlit("none");
    reveal_strlit("realtime");
    reveal_strlit("best-effort");
    reveal_strlit("idle");
    assert("none"@[0] == 'n' && "idle"@[0] == 'i');
    assert("none"@.len() == 4 && "idle"@.len() == 4);
    assert("realtime"@.len() == 8 && "best-effort"@.len() == 11);
    match (a, b) {
        (IoPriorityClass::Unset, IoPriorityClass::Idle) => {
            assert("none"@[0] == "idle"@[0]);
        },
        (IoPriorityClass::Idle, IoPriorityClass::Unset) => {
            assert("none"@[0] == "idle"@[0]);
        },
        _ => {},
    }
}

/// In a valid registry each ID names at most one application, so that what is
/// found under an ID is the application with that ID.
pub proof fn valid_ids_are_unique(registry: RegistryView, i: int, j: int)
    requires
        valid(registry),
        0 <= i < registry.apps.len(),
        0 <= j < registry.apps.len(),
        registry.apps[i].desktop_id == registry.apps[j].desktop_id,
    ensures
        i == j,
{
    valid_apps_are_sound(registry.apps);
    if i < j {
        assert(registry.apps[i].desktop_id != registry.apps[j].desktop_id);
    } else if j < i {
        assert(registry.apps[j].desktop_id != registry.apps[i].desktop_id);
    }
}

/// Removing the IDs that were just added gives back the registry, where it was
/// in order: of applications that are registered already, adding and removing
/// alike leave everything as it was.
pub proof fn removing_undoes_adding(registry: RegistryView, all: Seq<ApplicationView>)
    requires
        in_order(registry.apps, registered_before()),
    ensures
        with_removed(
            with_added(registry, all),
            application_ids(selected(all).filter(is_new(registry.apps))),
        ) == registry,
{
    let chosen = selected(all);
    let new = chosen.filter(is_new(registry.apps));
    let ids = application_ids(new);
    let more = new.map_values(snapshot(registry.launcher.policy));
    let keep = is_kept(ids);
    let before = registered_before();
    lemma_filter_sorted(registry.apps + more, before, keep);
    assert(registry.apps.filter(keep) == registry.apps) by {
        assert forall|k: int| 0 <= k < registry.apps.len() implies keep(
            #[trigger] registry.apps[k],
        ) by {
            if ids.contains(registry.apps[k].desktop_id) {
                let m = choose|m: int| 0 <= m < ids.len() && ids[m] == registry.apps[k].desktop_id;
                assert(new[m].desktop_id == ids[m]);
                assert(new.contains(new[m]));
                lemma_filter_holds(chosen, is_new(registry.apps), new[m]);
                assert(id_taken(registry.apps, new[m].desktop_id));
            }
        }
        lemma_filter_all(registry.apps, keep);
    }
    assert(more.filter(keep).len() == 0) by {
        if more.filter(keep).len() > 0 {
            let a = more.filter(keep)[0];
            assert(more.filter(keep).contains(a));
            lemma_filter_holds(more, keep, a);
            let k = choose|k: int| 0 <= k < more.len() && more[k] == a;
            assert(ids[k] == a.desktop_id);
        }
    }
    Seq::filter_distributes_over_add(registry.apps, more, keep);
    assert((registry.apps + more).filter(keep) =~= registry.apps);
    lemma_sorted_is_fixed(registry.apps, before);
}

/// Filtering what is sorted and sorting it again is sorting what is filtered.
proof fn lemma_filter_sorted(
    s: Seq<RegisteredView>,
    before: spec_fn(RegisteredView, RegisteredView) -> bool,
    keep: spec_fn(RegisteredView) -> bool,
)
    requires
        before == registered_before(),
    ensures
        stable_sorted(stable_sorted(s, before).filter(keep), before) == stable_sorted(
            s.filter(keep),
            before,
        ),
{
    lemma_registered_order();
    crate::order::lemma_stable_sorted_order(s, before);
    lemma_filter_of_sorted(s, before, keep);
    crate::order::lemma_stable_sorted_order(s.filter(keep), before);
    lemma_sorted_is_fixed(stable_sorted(s.filter(keep), before), before);
}

/// A mutation has given a valid registry at some time.
pub open spec fn gave_valid(events: Seq<ChangeEvent>) -> bool {
    exists|i: int| 0 <= i < events.len() && gives_valid(#[trigger] events[i])
}

/// Whatever happens, the directory, the lock and the file are created only
/// after the mutation has given a valid registry.
pub proof fn nothing_is_created_before_a_valid_mutation(path: Seq<u8>, events: Seq<ChangeEvent>)
    ensures
        ChangeView::start(path).after(events).phase.creates() ==> gave_valid(events),
        ChangeView::start(path).after(events).accepted is Some ==> gave_valid(events),
        ChangeView::start(path).after(events).well_formed(),
    decreases events.len(),
{
    if events.len() > 0 {
        let front = events.drop_last();
        nothing_is_created_before_a_valid_mutation(path, front);
        if gave_valid(front) {
            let i = choose|i: int| 0 <= i < front.len() && gives_valid(#[trigger] front[i]);
            assert(gives_valid(events[i]));
        }
        if gives_valid(events.last()) {
            assert(gives_valid(events[events.len() - 1]));
        }
    }
}

/// What is over stays over.
pub proof fn ended_changes_stay_ended(change: ChangeView, events: Seq<ChangeEvent>)
    requires
        change.phase is Finished || change.phase is Failed,
    ensures
        change.after(events) == change,
    decreases events.len(),
{
    if events.len() > 0 {
        ended_changes_stay_ended(change, events.drop_last());
    }
}

/// A mutation that fails, or gives an invalid registry, ends the change with
/// its error, and nothing is written.
pub proof fn refused_mutations_end_the_change(change: ChangeView, event: ChangeEvent)
    requires
        change.phase is Rehearse || change.phase is Apply,
        event is Changed,
        !gives_valid(event),
    ensures
        match event->Changed_0 {
            Err(e) => change.next(event).phase == ChangePhaseView::Failed(e@),
            Ok(registry) => change.next(event).phase == ChangePhaseView::Failed(
                RegistryErrorView::Validation(
                    super::validation::registry_problem(normalized(registry@))->0,
                ),
            ),
        },
{
}

/// The lock was taken, and then the mutation gave a registry whose canonical
/// form this is.
pub open spec fn made_under_lock(events: Seq<ChangeEvent>, registry: RegistryView) -> bool {
    exists|i: int, j: int|
        #![trigger events[i], events[j]]
        0 <= i < j < events.len() && events[i] is Locked && gives_valid(events[j]) && registry
            == normalized(events[j]->Changed_0->Ok_0@)
}

/// What is written is what the mutation made of the registry after the lock was
/// taken, in canonical form, and is valid.
pub proof fn changes_are_written_under_the_lock(path: Seq<u8>, events: Seq<ChangeEvent>)
    ensures
        ({
            let change = ChangeView::start(path).after(events);
            &&& change.phase is Apply ==> exists|i: int|
                0 <= i < events.len() && (#[trigger] events[i]) is Locked
            &&& change.phase is InspectConfig || change.phase is Write || change.phase is Finished
                ==> change.accepted is Some && valid(change.accepted->0) && made_under_lock(
                events,
                change.accepted->0,
            )
        }),
    decreases events.len(),
{
    if events.len() > 0 {
        let front = events.drop_last();
        let last = events.len() - 1;
        changes_are_written_under_the_lock(path, front);
        let before = ChangeView::start(path).after(front);
        let after = ChangeView::start(path).after(events);
        assert(after == before.next(events[last]));
        if before.phase is Apply {
            let i = choose|i: int| 0 <= i < front.len() && (#[trigger] front[i]) is Locked;
            assert(events[i] is Locked);
            if after.phase is InspectConfig {
                assert(gives_valid(events[last]));
                assert(made_under_lock(events, after.accepted->0));
            }
        } else if before.phase is InspectConfig || before.phase is Write
            || before.phase is Finished {
            let (i, j) = choose|i: int, j: int|
                #![trigger front[i], front[j]]
                0 <= i < j < front.len() && front[i] is Locked && gives_valid(front[j])
                    && before.accepted->0 == normalized(front[j]->Changed_0->Ok_0@);
            assert(events[i] is Locked && gives_valid(events[j]));
            assert(made_under_lock(events, before.accepted->0));
        } else if after.phase is Apply {
            assert(events[last] is Locked);
        }
    }
}

} // verus!
