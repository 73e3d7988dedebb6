//! Changing the registry, and comparing it with what is installed.
use vstd::prelude::*;

use super::error::{ProblemView, RegistryError, RegistryErrorView, ValidationError};
use super::model::{
    fitting_priority, normalize_priority, sorted_apps, AppRegistry, ApplicationSettingsUpdate,
    PolicyView, RegisteredApplication, RegisteredView, RegistryView,
};
use super::validation::{id_taken, is_id_taken, registry_problem, valid, validate_registry};
use crate::discovery::scanner::application_before;
use crate::discovery::types::{ApplicationView, DiscoveredApplication, DiscoveryReport, ReportView};
use crate::order::{insert_sorted, lemma_insert_sorted_at};
use crate::text::{
    contains_text, distinct_texts, group_views, is_before, same_text, text_set, views,
};

verus! {

/// Outcome of adding discovered applications to the registry.
#[derive(Debug, PartialEq, Eq)]
pub struct AddApplicationsResult {
    /// IDs newly added to the explicit registry.
    pub added: Vec<String>,
    /// IDs already selected before this operation.
    pub already_registered: Vec<String>,
}

/// Outcome of a state-changing multi-application operation.
#[derive(Debug, PartialEq, Eq)]
pub struct RegistryMutationResult {
    /// IDs whose stored state changed.
    pub changed: Vec<String>,
    /// IDs which already had the requested state.
    pub unchanged: Vec<String>,
}

/// Current discovery status for one explicit registry entry.
#[derive(Debug, PartialEq, Eq)]
pub enum RegisteredApplicationAvailability {
    /// The stable desktop ID is currently discoverable.
    Available {
        /// Current display name from desktop-entry discovery.
        current_name: String,
    },
    /// No current discovery result has this stable desktop ID.
    Unavailable,
    /// Availability was not checked for this report.
    Unknown,
}

/// Availability by its contents.
pub enum AvailabilityView {
    Available { current_name: Seq<char> },
    Unavailable,
    Unknown,
}

impl View for RegisteredApplicationAvailability {
    type V = AvailabilityView;

    open spec fn view(&self) -> AvailabilityView {
        match self {
            RegisteredApplicationAvailability::Available { current_name } => {
                AvailabilityView::Available { current_name: current_name@ }
            },
            RegisteredApplicationAvailability::Unavailable => AvailabilityView::Unavailable,
            RegisteredApplicationAvailability::Unknown => AvailabilityView::Unknown,
        }
    }
}

/// Stored application data paired with current discovery availability.
#[derive(Debug, PartialEq)]
pub struct RegisteredApplicationStatus {
    /// Explicitly stored registry entry.
    pub application: RegisteredApplication,
    /// Current discovery result, without mutating the registry.
    pub availability: RegisteredApplicationAvailability,
}

impl View for RegisteredApplicationStatus {
    type V = (RegisteredView, AvailabilityView);

    open spec fn view(&self) -> (RegisteredView, AvailabilityView) {
        (self.application@, self.availability@)
    }
}

pub open spec fn holds_id(all: Seq<ApplicationView>, id: Seq<char>) -> bool {
    exists|i: int| 0 <= i < all.len() && (#[trigger] all[i]).desktop_id == id
}

/// The first application of each ID, in the order of the IDs.
pub open spec fn selected(all: Seq<ApplicationView>) -> Seq<ApplicationView>
    decreases all.len(),
{
    if all.len() == 0 {
        Seq::empty()
    } else {
        let front = selected(all.drop_last());
        if holds_id(front, all.last().desktop_id) {
            front
        } else {
            insert_sorted(front, all.last(), application_before())
        }
    }
}

pub open spec fn is_new(apps: Seq<RegisteredView>) -> spec_fn(ApplicationView) -> bool {
    |a: ApplicationView| !id_taken(apps, a.desktop_id)
}

pub open spec fn is_known(apps: Seq<RegisteredView>) -> spec_fn(ApplicationView) -> bool {
    |a: ApplicationView| id_taken(apps, a.desktop_id)
}

/// The stored form of a discovered application: enabled, with a copy of the
/// current default policy.
pub open spec fn snapshot(policy: PolicyView) -> spec_fn(ApplicationView) -> RegisteredView {
    |a: ApplicationView|
        RegisteredView {
            desktop_id: a.desktop_id,
            name: a.name,
            enabled: true,
            policy,
            desktop_file: Some(a.desktop_file),
            extra: Seq::empty(),
        }
}

pub open spec fn application_ids(all: Seq<ApplicationView>) -> Seq<Seq<char>> {
    all.map_values(|a: ApplicationView| a.desktop_id)
}

pub open spec fn registered_ids(all: Seq<RegisteredView>) -> Seq<Seq<char>> {
    all.map_values(|a: RegisteredView| a.desktop_id)
}

/// A registry with the new ones of some discovered applications added.
pub open spec fn with_added(registry: RegistryView, all: Seq<ApplicationView>) -> RegistryView {
    RegistryView {
        apps: sorted_apps(
            registry.apps + selected(all).filter(is_new(registry.apps)).map_values(
                snapshot(registry.launcher.policy),
            ),
        ),
        ..registry
    }
}

fn is_held(all: &Vec<&DiscoveredApplication>, id: &str) -> (out: bool)
    ensures
        out == holds_id(views(all@), id@),
{
    let ghost list = views(all@);
    let mut i: usize = 0;
    while i < all.len()
        invariant
            i <= all@.len(),
            list == views(all@),
            forall|k: int| 0 <= k < i ==> (#[trigger] list[k]).desktop_id != id@,
        decreases all.len() - i,
    {
        assert(list[i as int] == all@[i as int]@);
        if same_text(all[i].desktop_id.as_str(), id) {
            assert(list[i as int].desktop_id == id@);
            return true;
        }
        i += 1;
    }
    false
}

fn select<'a>(all: &'a Vec<DiscoveredApplication>) -> (out: Vec<&'a DiscoveredApplication>)
    ensures
        views(out@) == selected(views(all@)),
{
    broadcast use group_views;

    let ghost list = views(all@);
    let mut out: Vec<&DiscoveredApplication> = Vec::new();
    let mut n: usize = 0;
    assert(list.take(0) =~= Seq::empty());
    while n < all.len()
        invariant
            n <= all@.len(),
            list == views(all@),
            views(out@) == selected(list.take(n as int)),
        decreases all.len() - n,
    {
        assert(list.take(n + 1).drop_last() =~= list.take(n as int));
        assert(list.take(n + 1).last() == all@[n as int]@);
        let next = &all[n];
        if !is_held(&out, next.desktop_id.as_str()) {
            let ghost front = views(out@);
            let mut i: usize = out.len();
            while i > 0 && is_before(next.desktop_id.as_str(), out[i - 1].desktop_id.as_str())
                invariant
                    i <= out@.len(),
                    front == views(out@),
                    forall|k: int|
                        i <= k < front.len() ==> application_before()(next@, #[trigger] front[k]),
                decreases i,
            {
                assert(front[i - 1] == out@[i - 1]@);
                i -= 1;
            }
            proof {
                if i > 0 {
                    assert(front[i - 1] == out@[i - 1]@);
                }
                lemma_insert_sorted_at(front, next@, application_before(), i as int);
            }
            out.insert(i, next);
            assert(views(out@) =~= front.insert(i as int, next@));
        }
        n += 1;
    }
    assert(list.take(list.len() as int) =~= list);
    out
}

/// The first of some IDs that is not registered.
pub open spec fn first_unknown(apps: Seq<RegisteredView>, ids: Seq<Seq<char>>) -> Option<Seq<char>>
    decreases ids.len(),
{
    if ids.len() == 0 {
        None
    } else if !id_taken(apps, ids[0]) {
        Some(ids[0])
    } else {
        first_unknown(apps, ids.drop_first())
    }
}

fn ensure_registered_ids(registry: &AppRegistry, ids: &Vec<String>) -> (out: Result<
    (),
    RegistryError,
>)
    ensures
        match out {
            Ok(_) => first_unknown(registry@.apps, views(ids@)) is None,
            Err(e) => first_unknown(registry@.apps, views(ids@)) is Some && e@
                == (RegistryErrorView::UnknownRegisteredApplication {
                desktop_id: first_unknown(registry@.apps, views(ids@))->0,
            }),
        },
{
    let ghost all = views(ids@);
    let mut i: usize = 0;
    assert(all.skip(0) =~= all);
    while i < ids.len()
        invariant
            i <= ids@.len(),
            all == views(ids@),
            first_unknown(registry@.apps, all) == first_unknown(
                registry@.apps,
                all.skip(i as int),
            ),
        decreases ids.len() - i,
    {
        assert(all.skip(i as int)[0] == ids@[i as int]@);
        assert(all.skip(i as int).drop_first() =~= all.skip(i + 1));
        assert(registry@.apps.take(registry@.apps.len() as int) =~= registry@.apps);
        if !is_id_taken(&registry.apps, registry.apps.len(), ids[i].as_str()) {
            return Err(
                RegistryError::UnknownRegisteredApplication { desktop_id: ids[i].clone() },
            );
        }
        i += 1;
    }
    Ok(())
}

pub open spec fn is_kept(ids: Seq<Seq<char>>) -> spec_fn(RegisteredView) -> bool {
    |a: RegisteredView| !ids.contains(a.desktop_id)
}

/// A registry without the applications of some IDs.
pub open spec fn with_removed(registry: RegistryView, ids: Seq<Seq<char>>) -> RegistryView {
    RegistryView { apps: sorted_apps(registry.apps.filter(is_kept(ids))), ..registry }
}

/// An application with its flag set where it is selected.
pub open spec fn flagged(ids: Seq<Seq<char>>, enabled: bool) -> spec_fn(
    RegisteredView,
) -> RegisteredView {
    |a: RegisteredView|
        if ids.contains(a.desktop_id) {
            RegisteredView { enabled, ..a }
        } else {
            a
        }
}

pub open spec fn flag_differs(ids: Seq<Seq<char>>, enabled: bool) -> spec_fn(
    RegisteredView,
) -> bool {
    |a: RegisteredView| ids.contains(a.desktop_id) && a.enabled != enabled
}

pub open spec fn flag_agrees(ids: Seq<Seq<char>>, enabled: bool) -> spec_fn(RegisteredView) -> bool {
    |a: RegisteredView| ids.contains(a.desktop_id) && a.enabled == enabled
}

/// A registry with the flag of some applications set.
pub open spec fn with_enabled(
    registry: RegistryView,
    ids: Seq<Seq<char>>,
    enabled: bool,
) -> RegistryView {
    RegistryView {
        apps: sorted_apps(registry.apps.map_values(flagged(ids, enabled))),
        ..registry
    }
}

/// An update that asks for a reset and for something else.
pub open spec fn conflicting(update: ApplicationSettingsUpdate) -> bool {
    update.reset_to_defaults && (update.delay_seconds is Some || update.nice is Some
        || update.io_class is Some || update.io_priority is Some || update.enforce_process_tree
        is Some)
}

pub open spec fn either<T>(update: Option<T>, current: T) -> T {
    match update {
        Some(value) => value,
        None => current,
    }
}

/// A policy after an update.
pub open spec fn updated_policy(
    policy: PolicyView,
    update: ApplicationSettingsUpdate,
    defaults: PolicyView,
) -> PolicyView {
    if update.reset_to_defaults {
        defaults
    } else {
        let io_class = either(update.io_class, policy.io_class);
        PolicyView {
            delay_seconds: either(update.delay_seconds, policy.delay_seconds),
            nice: either(update.nice, policy.nice),
            io_class,
            io_priority: fitting_priority(
                either(update.io_priority, policy.io_priority),
                io_class,
            ),
            enforce_process_tree: either(update.enforce_process_tree, policy.enforce_process_tree),
        }
    }
}

/// Where the first application with an ID stands.
pub open spec fn find_app(apps: Seq<RegisteredView>, id: Seq<char>) -> Option<int>
    decreases apps.len(),
{
    if apps.len() == 0 {
        None
    } else {
        match find_app(apps.drop_last(), id) {
            Some(k) => Some(k),
            None => if apps.last().desktop_id == id {
                Some(apps.len() - 1)
            } else {
                None
            },
        }
    }
}

/// A registry with the policy of one application replaced.
pub open spec fn with_policy(registry: RegistryView, at: int, policy: PolicyView) -> RegistryView {
    RegistryView {
        apps: sorted_apps(
            registry.apps.update(at, RegisteredView { policy, ..registry.apps[at] }),
        ),
        ..registry
    }
}

/// A registry with one application updated.
pub open spec fn configured(
    registry: RegistryView,
    id: Seq<char>,
    update: ApplicationSettingsUpdate,
) -> RegistryView {
    let at = find_app(registry.apps, id)->0;
    with_policy(
        registry,
        at,
        updated_policy(registry.apps[at].policy, update, registry.launcher.policy),
    )
}

proof fn lemma_find_app(apps: Seq<RegisteredView>, id: Seq<char>, k: int)
    requires
        0 <= k <= apps.len(),
        find_app(apps.take(k), id) is Some,
    ensures
        find_app(apps, id) == find_app(apps.take(k), id),
    decreases apps.len() - k,
{
    if k == apps.len() {
        assert(apps.take(k) =~= apps);
    } else {
        assert(apps.take(k + 1).drop_last() =~= apps.take(k));
        lemma_find_app(apps, id, k + 1);
    }
}

fn locate(apps: &Vec<RegisteredApplication>, id: &str) -> (out: Option<usize>)
    ensures
        match out {
            Some(k) => k < apps@.len() && find_app(views(apps@), id@) == Some(k as int),
            None => find_app(views(apps@), id@) is None,
        },
{
    let ghost all = views(apps@);
    let mut i: usize = 0;
    assert(all.take(0) =~= Seq::empty());
    while i < apps.len()
        invariant
            i <= apps@.len(),
            all == views(apps@),
            find_app(all.take(i as int), id@) is None,
        decreases apps.len() - i,
    {
        assert(all.take(i + 1).drop_last() =~= all.take(i as int));
        assert(all.take(i + 1).last() == apps@[i as int]@);
        if same_text(apps[i].desktop_id.as_str(), id) {
            proof {
                lemma_find_app(all, id@, i + 1);
            }
            return Some(i);
        }
        i += 1;
    }
    assert(all.take(all.len() as int) =~= all);
    None
}

/// The name under which an ID is currently discovered.
pub open spec fn current_name(all: Seq<ApplicationView>, id: Seq<char>) -> Option<Seq<char>>
    decreases all.len(),
{
    if all.len() == 0 {
        None
    } else if all.last().desktop_id == id {
        Some(all.last().name)
    } else {
        current_name(all.drop_last(), id)
    }
}

/// Whether a registered application is installed, as far as that was looked
/// at.
pub open spec fn availability(discovery: Option<ReportView>, id: Seq<char>) -> AvailabilityView {
    match discovery {
        None => AvailabilityView::Unknown,
        Some(report) => match current_name(report.applications, id) {
            Some(name) => AvailabilityView::Available { current_name: name },
            None => AvailabilityView::Unavailable,
        },
    }
}

pub open spec fn status_of(discovery: Option<ReportView>) -> spec_fn(RegisteredView) -> (
    RegisteredView,
    AvailabilityView,
) {
    |a: RegisteredView| (a, availability(discovery, a.desktop_id))
}

pub open spec fn report_view(discovery: Option<&DiscoveryReport>) -> Option<ReportView> {
    match discovery {
        Some(report) => Some(report@),
        None => None,
    }
}

fn find_current_name(all: &Vec<DiscoveredApplication>, id: &str) -> (out: Option<String>)
    ensures
        match out {
            Some(name) => current_name(views(all@), id@) == Some(name@),
            None => current_name(views(all@), id@) is None,
        },
{
    let ghost list = views(all@);
    let mut i: usize = all.len();
    assert(list.take(list.len() as int) =~= list);
    while i > 0
        invariant
            i <= all@.len(),
            list == views(all@),
            current_name(list, id@) == current_name(list.take(i as int), id@),
        decreases i,
    {
        assert(list.take(i as int).drop_last() =~= list.take(i - 1));
        assert(list.take(i as int).last() == all@[i - 1]@);
        if same_text(all[i - 1].desktop_id.as_str(), id) {
            return Some(all[i - 1].name.clone());
        }
        i -= 1;
    }
    None
}

/// Keep the candidate where it is valid.
fn accept(registry: &mut AppRegistry, candidate: AppRegistry) -> (out: Result<(), RegistryError>)
    ensures
        match out {
            Ok(_) => valid(candidate@) && *final(registry) == candidate,
            Err(e) => {
                &&& registry_problem(candidate@) is Some
                &&& e@ == RegistryErrorView::Validation(registry_problem(candidate@)->0)
                &&& *final(registry) == *old(registry)
            },
        },
{
    match validate_registry(&candidate) {
        Ok(_) => {
            *registry = candidate;
            Ok(())
        },
        Err(e) => Err(RegistryError::Validation(e)),
    }
}

impl AppRegistry {
    /// Add explicitly selected discovery results using a snapshot of current defaults.
    ///
    /// Existing IDs are retained unchanged. The resulting registry is sorted
    /// and fully validated before this method succeeds; where it is not valid,
    /// nothing changes.
    pub fn add_discovered(&mut self, applications: &Vec<DiscoveredApplication>) -> (out: Result<
        AddApplicationsResult,
        RegistryError,
    >)
        ensures
            ({
                let all = selected(views(applications@));
                let candidate = with_added(old(self)@, views(applications@));
                match out {
                    Ok(result) => {
                        &&& valid(candidate)
                        &&& final(self)@ == candidate
                        &&& views(result.added@) == application_ids(
                            all.filter(is_new(old(self)@.apps)),
                        )
                        &&& views(result.already_registered@) == application_ids(
                            all.filter(is_known(old(self)@.apps)),
                        )
                    },
                    Err(e) => {
                        &&& registry_problem(candidate) is Some
                        &&& e@ == RegistryErrorView::Validation(registry_problem(candidate)->0)
                        &&& *final(self) == *old(self)
                    },
                }
            }),
    {
        broadcast use group_views;

        let chosen = select(applications);
        let ghost all = views(chosen@);
        let ghost before = self@;
        let ghost fresh = is_new(before.apps);
        let ghost known = is_known(before.apps);
        let ghost store = snapshot(before.launcher.policy);
        let ghost id = |a: ApplicationView| a.desktop_id;
        let mut added: Vec<String> = Vec::new();
        let mut already_registered: Vec<String> = Vec::new();
        let mut candidate = self.clone();
        let mut i: usize = 0;
        proof {
            reveal(Seq::filter);
            assert(all.take(0).filter(fresh) =~= Seq::empty());
            assert(all.take(0).filter(known) =~= Seq::empty());
            assert(views(candidate.apps@) =~= before.apps + all.take(0).filter(fresh).map_values(
                store,
            ));
            assert(views(added@) =~= all.take(0).filter(fresh).map_values(id));
            assert(views(already_registered@) =~= all.take(0).filter(known).map_values(id));
        }
        while i < chosen.len()
            invariant
                i <= chosen@.len(),
                all == views(chosen@),
                before == self@,
                fresh == is_new(before.apps),
                known == is_known(before.apps),
                store == snapshot(before.launcher.policy),
                id == (|a: ApplicationView| a.desktop_id),
                candidate@.schema_version == before.schema_version,
                candidate@.launcher == before.launcher,
                candidate@.extra == before.extra,
                views(candidate.apps@) == before.apps + all.take(i as int).filter(
                    fresh,
                ).map_values(store),
                views(added@) == all.take(i as int).filter(fresh).map_values(id),
                views(already_registered@) == all.take(i as int).filter(known).map_values(id),
            decreases chosen.len() - i,
        {
            let application = chosen[i];
            let ghost done = all.take(i as int);
            proof {
                assert(all[i as int] == application@);
                assert(all.take(i + 1) =~= done.push(application@));
                done.lemma_filter_push(application@, fresh);
                done.lemma_filter_push(application@, known);
                done.filter(fresh).lemma_push_map_commute(store, application@);
                done.filter(fresh).lemma_push_map_commute(id, application@);
                done.filter(known).lemma_push_map_commute(id, application@);
                assert(before.apps.take(before.apps.len() as int) =~= before.apps);
            }
            if is_id_taken(&self.apps, self.apps.len(), application.desktop_id.as_str()) {
                already_registered.push(application.desktop_id.clone());
            } else {
                let entry = RegisteredApplication {
                    desktop_id: application.desktop_id.clone(),
                    name: application.name.clone(),
                    enabled: true,
                    delay_seconds: self.launcher.default_delay_seconds,
                    nice: self.launcher.default_nice,
                    io_class: self.launcher.default_io_class,
                    io_priority: self.launcher.default_io_priority,
                    enforce_process_tree: self.launcher.default_enforce_process_tree,
                    desktop_file: Some(application.desktop_file.clone()),
                    extra: Vec::new(),
                };
                assert(entry@.extra =~= Seq::empty());
                assert(entry@ == store(application@));
                let ghost apps = views(candidate.apps@);
                candidate.apps.push(entry);
                assert(views(candidate.apps@) == apps.push(store(application@)));
                assert(apps.push(store(application@)) =~= before.apps + done.filter(
                    fresh,
                ).map_values(store).push(store(application@)));
                added.push(application.desktop_id.clone());
            }
            i += 1;
        }
        assert(all.take(all.len() as int) =~= all);
        match accept(self, candidate.normalize()) {
            Ok(_) => Ok(AddApplicationsResult { added, already_registered }),
            Err(e) => Err(e),
        }
    }

    /// Remove explicitly named registered IDs as one validated operation.
    pub fn remove(&mut self, desktop_ids: &Vec<String>) -> (out: Result<
        RegistryMutationResult,
        RegistryError,
    >)
        ensures
            ({
                let ids = views(desktop_ids@);
                let unknown = first_unknown(old(self)@.apps, ids);
                let candidate = with_removed(old(self)@, ids);
                match out {
                    Ok(result) => {
                        &&& unknown is None
                        &&& valid(candidate)
                        &&& final(self)@ == candidate
                        &&& views(result.changed@) == text_set(ids)
                        &&& result.unchanged@.len() == 0
                    },
                    Err(e) => {
                        &&& *final(self) == *old(self)
                        &&& if unknown is Some {
                            e@ == (RegistryErrorView::UnknownRegisteredApplication {
                                desktop_id: unknown->0,
                            })
                        } else {
                            registry_problem(candidate) is Some && e@
                                == RegistryErrorView::Validation(registry_problem(candidate)->0)
                        }
                    },
                }
            }),
    {
        broadcast use group_views;

        match ensure_registered_ids(self, desktop_ids) {
            Ok(_) => {},
            Err(e) => {
                return Err(e);
            },
        }
        let ghost before = self@;
        let ghost ids = views(desktop_ids@);
        let ghost keep = is_kept(ids);
        let ghost all = before.apps;
        let mut kept: Vec<RegisteredApplication> = Vec::new();
        let mut i: usize = 0;
        proof {
            reveal(Seq::filter);
            assert(all.take(0).filter(keep) =~= Seq::empty());
        }
        while i < self.apps.len()
            invariant
                i <= self.apps@.len(),
                all == views(self.apps@),
                ids == views(desktop_ids@),
                keep == is_kept(ids),
                views(kept@) == all.take(i as int).filter(keep),
            decreases self.apps.len() - i,
        {
            proof {
                assert(all[i as int] == self.apps@[i as int]@);
                assert(all.take(i + 1) =~= all.take(i as int).push(all[i as int]));
                all.take(i as int).lemma_filter_push(all[i as int], keep);
            }
            if !contains_text(desktop_ids, self.apps[i].desktop_id.as_str()) {
                kept.push(self.apps[i].clone());
            }
            i += 1;
        }
        assert(all.take(all.len() as int) =~= all);
        let mut candidate = self.clone();
        candidate.apps = kept;
        match accept(self, candidate.normalize()) {
            Ok(_) => Ok(
                RegistryMutationResult {
                    changed: distinct_texts(desktop_ids),
                    unchanged: Vec::new(),
                },
            ),
            Err(e) => Err(e),
        }
    }

    /// Set the enabled flag for explicitly named applications atomically.
    pub fn set_enabled(&mut self, desktop_ids: &Vec<String>, enabled: bool) -> (out: Result<
        RegistryMutationResult,
        RegistryError,
    >)
        ensures
            ({
                let ids = views(desktop_ids@);
                let unknown = first_unknown(old(self)@.apps, ids);
                let candidate = with_enabled(old(self)@, ids, enabled);
                match out {
                    Ok(result) => {
                        &&& unknown is None
                        &&& valid(candidate)
                        &&& final(self)@ == candidate
                        &&& views(result.changed@) == registered_ids(
                            old(self)@.apps.filter(flag_differs(ids, enabled)),
                        )
                        &&& views(result.unchanged@) == registered_ids(
                            old(self)@.apps.filter(flag_agrees(ids, enabled)),
                        )
                    },
                    Err(e) => {
                        &&& *final(self) == *old(self)
                        &&& if unknown is Some {
                            e@ == (RegistryErrorView::UnknownRegisteredApplication {
                                desktop_id: unknown->0,
                            })
                        } else {
                            registry_problem(candidate) is Some && e@
                                == RegistryErrorView::Validation(registry_problem(candidate)->0)
                        }
                    },
                }
            }),
    {
        broadcast use group_views;

        match ensure_registered_ids(self, desktop_ids) {
            Ok(_) => {},
            Err(e) => {
                return Err(e);
            },
        }
        let ghost ids = views(desktop_ids@);
        let ghost all = self@.apps;
        let ghost flag = flagged(ids, enabled);
        let ghost differs = flag_differs(ids, enabled);
        let ghost agrees = flag_agrees(ids, enabled);
        let ghost id = |a: RegisteredView| a.desktop_id;
        let mut changed: Vec<String> = Vec::new();
        let mut unchanged: Vec<String> = Vec::new();
        let mut apps: Vec<RegisteredApplication> = Vec::new();
        let mut i: usize = 0;
        proof {
            reveal(Seq::filter);
            assert(all.take(0).filter(differs) =~= Seq::empty());
            assert(all.take(0).filter(agrees) =~= Seq::empty());
            assert(views(apps@) =~= all.take(0).map_values(flag));
            assert(views(changed@) =~= all.take(0).filter(differs).map_values(id));
            assert(views(unchanged@) =~= all.take(0).filter(agrees).map_values(id));
        }
        while i < self.apps.len()
            invariant
                i <= self.apps@.len(),
                all == views(self.apps@),
                ids == views(desktop_ids@),
                flag == flagged(ids, enabled),
                differs == flag_differs(ids, enabled),
                agrees == flag_agrees(ids, enabled),
                id == (|a: RegisteredView| a.desktop_id),
                views(apps@) == all.take(i as int).map_values(flag),
                views(changed@) == all.take(i as int).filter(differs).map_values(id),
                views(unchanged@) == all.take(i as int).filter(agrees).map_values(id),
            decreases self.apps.len() - i,
        {
            let ghost done = all.take(i as int);
            let ghost next = all[i as int];
            proof {
                assert(next == self.apps@[i as int]@);
                assert(all.take(i + 1) =~= done.push(next));
                done.lemma_filter_push(next, differs);
                done.lemma_filter_push(next, agrees);
                done.filter(differs).lemma_push_map_commute(id, next);
                done.filter(agrees).lemma_push_map_commute(id, next);
                done.lemma_push_map_commute(flag, next);
            }
            let mut entry = self.apps[i].clone();
            if contains_text(desktop_ids, entry.desktop_id.as_str()) {
                if entry.enabled == enabled {
                    unchanged.push(entry.desktop_id.clone());
                } else {
                    entry.enabled = enabled;
                    changed.push(entry.desktop_id.clone());
                }
            }
            assert(entry@ == flag(next));
            apps.push(entry);
            i += 1;
        }
        assert(all.take(all.len() as int) =~= all);
        let mut candidate = self.clone();
        candidate.apps = apps;
        match accept(self, candidate.normalize()) {
            Ok(_) => Ok(RegistryMutationResult { changed, unchanged }),
            Err(e) => Err(e),
        }
    }

    /// Update supplied settings for one application, or restore its snapshot
    /// settings from current launcher defaults when `reset_to_defaults` is set.
    pub fn configure(&mut self, desktop_id: &str, update: &ApplicationSettingsUpdate) -> (out:
        Result<bool, RegistryError>)
        ensures
            ({
                let before = old(self)@;
                let at = find_app(before.apps, desktop_id@);
                let old_policy = before.apps[at->0].policy;
                let new_policy = updated_policy(old_policy, *update, before.launcher.policy);
                let candidate = configured(before, desktop_id@, *update);
                match out {
                    Ok(changed) => {
                        &&& !conflicting(*update)
                        &&& at is Some
                        &&& valid(candidate)
                        &&& final(self)@ == candidate
                        &&& changed == (new_policy != old_policy)
                    },
                    Err(e) => {
                        &&& *final(self) == *old(self)
                        &&& if conflicting(*update) {
                            e@ == RegistryErrorView::Validation(
                                ProblemView {
                                    field: "configure"@,
                                    message: "--reset cannot be combined with individual settings"@,
                                },
                            )
                        } else if at is None {
                            e@ == (RegistryErrorView::UnknownRegisteredApplication {
                                desktop_id: desktop_id@,
                            })
                        } else {
                            registry_problem(candidate) is Some && e@
                                == RegistryErrorView::Validation(registry_problem(candidate)->0)
                        }
                    },
                }
            }),
    {
        broadcast use group_views;

        if update.reset_to_defaults && (update.delay_seconds.is_some() || update.nice.is_some()
            || update.io_class.is_some() || update.io_priority.is_some()
            || update.enforce_process_tree.is_some()) {
            return Err(
                RegistryError::Validation(
                    ValidationError {
                        field: "configure".to_owned(),
                        message: "--reset cannot be combined with individual settings".to_owned(),
                    },
                ),
            );
        }
        let at: usize = match locate(&self.apps, desktop_id) {
            Some(at) => at,
            None => {
                return Err(
                    RegistryError::UnknownRegisteredApplication {
                        desktop_id: desktop_id.to_owned(),
                    },
                );
            },
        };
        let ghost before = self@;
        let mut entry = self.apps[at].clone();
        let ghost old_view = entry@;
        assert(before.apps[at as int] == old_view);
        if update.reset_to_defaults {
            entry.delay_seconds = self.launcher.default_delay_seconds;
            entry.nice = self.launcher.default_nice;
            entry.io_class = self.launcher.default_io_class;
            entry.io_priority = self.launcher.default_io_priority;
            entry.enforce_process_tree = self.launcher.default_enforce_process_tree;
        } else {
            match update.delay_seconds {
                Some(value) => {
                    entry.delay_seconds = value;
                },
                None => {},
            }
            match update.nice {
                Some(value) => {
                    entry.nice = value;
                },
                None => {},
            }
            match update.io_class {
                Some(value) => {
                    entry.io_class = value;
                },
                None => {},
            }
            match update.io_priority {
                Some(value) => {
                    entry.io_priority = value;
                },
                None => {},
            }
            match update.enforce_process_tree {
                Some(value) => {
                    entry.enforce_process_tree = value;
                },
                None => {},
            }
            entry.io_priority = normalize_priority(entry.io_priority, entry.io_class);
        }
        let changed = !same_policy(&self.apps[at], &entry);
        let ghost new_view = entry@;
        let mut candidate = self.clone();
        let ghost copied = views(candidate.apps@);
        assert(candidate.apps@.len() == copied.len());
        candidate.apps.set(at, entry);
        assert(views(candidate.apps@) =~= copied.update(at as int, new_view));
        match accept(self, candidate.normalize()) {
            Ok(_) => Ok(changed),
            Err(e) => Err(e),
        }
    }

    /// Pair all explicit registry entries with a current discovery report.
    ///
    /// Entries absent from discovery are returned as unavailable and are never
    /// removed or changed.
    pub fn resolve_against(&self, discovery: Option<&DiscoveryReport>) -> (out: Vec<
        RegisteredApplicationStatus,
    >)
        ensures
            views(out@) == self@.apps.map_values(status_of(report_view(discovery))),
    {
        broadcast use group_views;

        let ghost all = self@.apps;
        let ghost status = status_of(report_view(discovery));
        let mut out: Vec<RegisteredApplicationStatus> = Vec::new();
        let mut i: usize = 0;
        while i < self.apps.len()
            invariant
                i <= self.apps@.len(),
                all == views(self.apps@),
                status == status_of(report_view(discovery)),
                views(out@) == all.take(i as int).map_values(status),
            decreases self.apps.len() - i,
        {
            proof {
                assert(all[i as int] == self.apps@[i as int]@);
                all.lemma_map_take_succ(status, i as int);
            }
            let availability = match discovery {
                None => RegisteredApplicationAvailability::Unknown,
                Some(report) => match find_current_name(
                    &report.applications,
                    self.apps[i].desktop_id.as_str(),
                ) {
                    Some(name) => RegisteredApplicationAvailability::Available {
                        current_name: name,
                    },
                    None => RegisteredApplicationAvailability::Unavailable,
                },
            };
            out.push(
                RegisteredApplicationStatus { application: self.apps[i].clone(), availability },
            );
            i += 1;
        }
        assert(all.take(all.len() as int) =~= all);
        out
    }
}

fn same_policy(a: &RegisteredApplication, b: &RegisteredApplication) -> (same: bool)
    ensures
        same == (a@.policy == b@.policy),
{
    let same_priority = match (a.io_priority, b.io_priority) {
        (Some(x), Some(y)) => x == y,
        (None, None) => true,
        _ => false,
    };
    a.delay_seconds == b.delay_seconds && a.nice == b.nice && a.io_class == b.io_class
        && same_priority && a.enforce_process_tree == b.enforce_process_tree
}

} // verus!
