//! Desktop autostart: what would start an application a second time, and the
//! overrides that suppress it.
use vstd::prelude::*;
use vstd::string::StrSliceExecFns;

use super::error::{IntegrationError, IntegrationErrorView};
use super::files::{
    owned_autostart_contents, owned_override, read_optional_regular, regular_text, FileState,
    FileStateView,
};
use super::paths::{failure, IntegrationPaths, PathsView};
use crate::order::{stable_sort, stable_sorted};
use crate::path::{child, UnixPath};
use crate::registry::model::{AppRegistry, RegisteredApplication, RegisteredView};
use crate::text::{
    contains_char, contains_control, group_views, has_control, is_before, same_text, text_before,
    views,
};

verus! {

/// A desktop ID that can be one file name.
pub open spec fn usable_id(desktop_id: Seq<char>) -> bool {
    &&& desktop_id.len() > 0
    &&& desktop_id != "."@
    &&& desktop_id != ".."@
    &&& !desktop_id.contains('/')
    &&& !desktop_id.contains('\\')
    &&& !desktop_id.contains('\0')
    &&& !has_control(desktop_id)
}

/// Require a desktop ID that can be one file name.
pub fn validate_desktop_id(desktop_id: &str) -> (out: Result<(), IntegrationError>)
    ensures
        failure(out) == if usable_id(desktop_id@) {
            None::<IntegrationErrorView>
        } else {
            Some(IntegrationErrorView::InvalidDesktopId { desktop_id: desktop_id@ })
        },
{
    if desktop_id.unicode_len() == 0 || same_text(desktop_id, ".") || same_text(desktop_id, "..")
        || contains_char(desktop_id, '/') || contains_char(desktop_id, '\\') || contains_char(
        desktop_id,
        '\0',
    ) || contains_control(desktop_id) {
        Err(IntegrationError::InvalidDesktopId { desktop_id: desktop_id.to_owned() })
    } else {
        Ok(())
    }
}

/// Classification of an enabled app's current desktop-autostart state.
#[derive(Clone, Copy, Debug, PartialEq, Eq, Structural)]
pub enum AutostartState {
    /// No system autostart entry was detected.
    NotPresent,
    /// A system entry exists and no user override suppresses it.
    DuplicateRisk,
    /// The exact launcher-owned `Hidden=true` override is present.
    SuppressedByLauncher,
    /// A user-owned file occupies the override path and is never overwritten.
    UserOverride,
}

/// Read-only autostart assessment for one registered application.
#[derive(Debug, PartialEq, Eq)]
pub struct AutostartAssessment {
    /// Stable registry identity.
    pub desktop_id: String,
    /// Current state.
    pub state: AutostartState,
    /// System entry paths which establish duplicate risk.
    pub system_entries: Vec<UnixPath>,
    /// User override path.
    pub user_override: UnixPath,
}

/// An assessment by its contents.
pub struct AssessmentView {
    pub desktop_id: Seq<char>,
    pub state: AutostartState,
    pub system_entries: Seq<Seq<u8>>,
    pub user_override: Seq<u8>,
}

impl View for AutostartAssessment {
    type V = AssessmentView;

    open spec fn view(&self) -> AssessmentView {
        AssessmentView {
            desktop_id: self.desktop_id@,
            state: self.state,
            system_entries: views(self.system_entries@),
            user_override: self.user_override@,
        }
    }
}

/// What was seen at one path.
#[derive(Debug, PartialEq, Eq)]
pub struct ObservedFile {
    pub path: UnixPath,
    pub state: FileState,
}

impl View for ObservedFile {
    type V = (Seq<u8>, FileStateView);

    open spec fn view(&self) -> (Seq<u8>, FileStateView) {
        (self.path@, self.state@)
    }
}

/// What was last seen at a path; what was not looked at is missing.
pub open spec fn state_at(files: Seq<(Seq<u8>, FileStateView)>, path: Seq<u8>) -> FileStateView
    decreases files.len(),
{
    if files.len() == 0 {
        FileStateView::Missing
    } else if files.last().0 == path {
        files.last().1
    } else {
        state_at(files.drop_last(), path)
    }
}

/// What was last seen at a path.
pub fn state_of(files: &Vec<ObservedFile>, path: &UnixPath) -> (out: FileState)
    ensures
        out@ == state_at(views(files@), path@),
{
    let ghost all = views(files@);
    let mut i: usize = files.len();
    assert(all.take(all.len() as int) =~= all);
    while i > 0
        invariant
            i <= files@.len(),
            all == views(files@),
            state_at(all, path@) == state_at(all.take(i as int), path@),
        decreases i,
    {
        assert(all.take(i as int).last() == files@[i - 1]@);
        assert(all.take(i as int).drop_last() =~= all.take(i - 1));
        i -= 1;
        if files[i].path.same(path) {
            return files[i].state.clone();
        }
    }
    FileState::Missing
}

/// The path of the autostart entry of an application below a root.
pub open spec fn entry_below(root: Seq<u8>, desktop_id: Seq<char>) -> Seq<u8> {
    child(child(root, "autostart"@), desktop_id)
}

/// The system's autostart entries of an application.
pub open spec fn present_entries(
    roots: Seq<Seq<u8>>,
    desktop_id: Seq<char>,
    files: Seq<(Seq<u8>, FileStateView)>,
) -> Result<Seq<Seq<u8>>, IntegrationErrorView>
    decreases roots.len(),
{
    if roots.len() == 0 {
        Ok(Seq::empty())
    } else {
        match present_entries(roots.drop_last(), desktop_id, files) {
            Err(e) => Err(e),
            Ok(front) => {
                let path = entry_below(roots.last(), desktop_id);
                match state_at(files, path) {
                    FileStateView::Missing => Ok(front),
                    FileStateView::Failed(source) => Err(
                        IntegrationErrorView::FileSystem { path, source },
                    ),
                    _ => Ok(front.push(path)),
                }
            },
        }
    }
}

/// The path of the user's override of an application's autostart entry.
pub open spec fn override_path(paths: PathsView, desktop_id: Seq<char>) -> Seq<u8> {
    child(paths.autostart_dir(), desktop_id)
}

/// How an application stands with what the user and the system have.
pub open spec fn state_with(
    desktop_id: Seq<char>,
    entries: Seq<Seq<u8>>,
    user: Option<Seq<char>>,
) -> AutostartState {
    match user {
        Some(contents) => if contents == owned_override(desktop_id) {
            AutostartState::SuppressedByLauncher
        } else {
            AutostartState::UserOverride
        },
        None => if entries.len() == 0 {
            AutostartState::NotPresent
        } else {
            AutostartState::DuplicateRisk
        },
    }
}

/// The assessment of one application.
pub open spec fn assessment(
    paths: PathsView,
    desktop_id: Seq<char>,
    files: Seq<(Seq<u8>, FileStateView)>,
) -> Result<AssessmentView, IntegrationErrorView> {
    if !usable_id(desktop_id) {
        Err(IntegrationErrorView::InvalidDesktopId { desktop_id })
    } else {
        match present_entries(paths.config_dirs, desktop_id, files) {
            Err(e) => Err(e),
            Ok(system_entries) => {
                let user_override = override_path(paths, desktop_id);
                match regular_text(user_override, state_at(files, user_override)) {
                    Err(e) => Err(e),
                    Ok(user) => Ok(
                        AssessmentView {
                            desktop_id,
                            state: state_with(desktop_id, system_entries, user),
                            system_entries,
                            user_override,
                        },
                    ),
                }
            },
        }
    }
}

/// The assessments of the enabled applications, in the registry's order.
pub open spec fn assessed(
    paths: PathsView,
    apps: Seq<RegisteredView>,
    files: Seq<(Seq<u8>, FileStateView)>,
) -> Result<Seq<AssessmentView>, IntegrationErrorView>
    decreases apps.len(),
{
    if apps.len() == 0 {
        Ok(Seq::empty())
    } else {
        match assessed(paths, apps.drop_last(), files) {
            Err(e) => Err(e),
            Ok(front) => if !apps.last().enabled {
                Ok(front)
            } else {
                match assessment(paths, apps.last().desktop_id, files) {
                    Err(e) => Err(e),
                    Ok(last) => Ok(front.push(last)),
                }
            },
        }
    }
}

pub open spec fn assessment_before() -> spec_fn(AssessmentView, AssessmentView) -> bool {
    |a: AssessmentView, b: AssessmentView| text_before(a.desktop_id, b.desktop_id)
}

/// The assessments of the enabled applications, in the order of their IDs.
pub open spec fn assessments(
    paths: PathsView,
    apps: Seq<RegisteredView>,
    files: Seq<(Seq<u8>, FileStateView)>,
) -> Result<Seq<AssessmentView>, IntegrationErrorView> {
    match assessed(paths, apps, files) {
        Err(e) => Err(e),
        Ok(all) => Ok(stable_sorted(all, assessment_before())),
    }
}

/// Assessments or an error, by contents.
pub open spec fn assessments_outcome(
    out: Result<Vec<AutostartAssessment>, IntegrationError>,
) -> Result<Seq<AssessmentView>, IntegrationErrorView> {
    match out {
        Ok(all) => Ok(views(all@)),
        Err(e) => Err(e@),
    }
}

proof fn lemma_entries_error(
    roots: Seq<Seq<u8>>,
    desktop_id: Seq<char>,
    files: Seq<(Seq<u8>, FileStateView)>,
    k: int,
)
    requires
        0 <= k <= roots.len(),
        present_entries(roots.take(k), desktop_id, files) is Err,
    ensures
        present_entries(roots, desktop_id, files) == present_entries(
            roots.take(k),
            desktop_id,
            files,
        ),
    decreases roots.len(),
{
    if k < roots.len() {
        assert(roots.drop_last().take(k) =~= roots.take(k));
        lemma_entries_error(roots.drop_last(), desktop_id, files, k);
    } else {
        assert(roots.take(k) =~= roots);
    }
}

proof fn lemma_assessed_error(
    paths: PathsView,
    apps: Seq<RegisteredView>,
    files: Seq<(Seq<u8>, FileStateView)>,
    k: int,
)
    requires
        0 <= k <= apps.len(),
        assessed(paths, apps.take(k), files) is Err,
    ensures
        assessed(paths, apps, files) == assessed(paths, apps.take(k), files),
    decreases apps.len(),
{
    if k < apps.len() {
        assert(apps.drop_last().take(k) =~= apps.take(k));
        lemma_assessed_error(paths, apps.drop_last(), files, k);
    } else {
        assert(apps.take(k) =~= apps);
    }
}

fn find_entries(roots: &Vec<UnixPath>, desktop_id: &str, files: &Vec<ObservedFile>) -> (out: Result<
    Vec<UnixPath>,
    IntegrationError,
>)
    ensures
        match out {
            Ok(entries) => present_entries(views(roots@), desktop_id@, views(files@)) == Ok::<
                Seq<Seq<u8>>,
                IntegrationErrorView,
            >(views(entries@)),
            Err(e) => present_entries(views(roots@), desktop_id@, views(files@)) == Err::<
                Seq<Seq<u8>>,
                IntegrationErrorView,
            >(e@),
        },
{
    broadcast use group_views;

    let ghost all = views(roots@);
    let ghost seen = views(files@);
    let mut entries: Vec<UnixPath> = Vec::new();
    let mut i: usize = 0;
    assert(all.take(0) =~= Seq::empty());
    while i < roots.len()
        invariant
            i <= roots@.len(),
            all == views(roots@),
            seen == views(files@),
            present_entries(all.take(i as int), desktop_id@, seen) == Ok::<
                Seq<Seq<u8>>,
                IntegrationErrorView,
            >(views(entries@)),
        decreases roots.len() - i,
    {
        proof {
            assert(all.take(i + 1).drop_last() =~= all.take(i as int));
            assert(all.take(i + 1).last() == roots@[i as int]@);
        }
        let path = roots[i].join("autostart").join(desktop_id);
        match state_of(files, &path) {
            FileState::Missing => {},
            FileState::Failed(source) => {
                proof {
                    lemma_entries_error(all, desktop_id@, seen, i + 1);
                }
                return Err(IntegrationError::FileSystem { path, source });
            },
            _ => {
                let ghost before = views(entries@);
                entries.push(path);
                assert(views(entries@) == before.push(path@));
            },
        }
        i += 1;
    }
    assert(all.take(all.len() as int) =~= all);
    Ok(entries)
}

fn assess_application(
    paths: &IntegrationPaths,
    application: &RegisteredApplication,
    files: &Vec<ObservedFile>,
) -> (out: Result<AutostartAssessment, IntegrationError>)
    ensures
        match out {
            Ok(one) => assessment(paths@, application@.desktop_id, views(files@)) == Ok::<
                AssessmentView,
                IntegrationErrorView,
            >(one@),
            Err(e) => assessment(paths@, application@.desktop_id, views(files@)) == Err::<
                AssessmentView,
                IntegrationErrorView,
            >(e@),
        },
{
    match validate_desktop_id(application.desktop_id.as_str()) {
        Ok(_) => {},
        Err(e) => {
            return Err(e);
        },
    }
    let system_entries = match find_entries(
        &paths.config_dirs,
        application.desktop_id.as_str(),
        files,
    ) {
        Ok(entries) => entries,
        Err(e) => {
            return Err(e);
        },
    };
    let user_override = paths.autostart_dir().join(application.desktop_id.as_str());
    assert(views(system_entries@).len() == system_entries@.len());
    let state = match read_optional_regular(&user_override, &state_of(files, &user_override)) {
        Err(e) => {
            return Err(e);
        },
        Ok(Some(contents)) => if same_text(
            contents.as_str(),
            owned_autostart_contents(application.desktop_id.as_str()).as_str(),
        ) {
            AutostartState::SuppressedByLauncher
        } else {
            AutostartState::UserOverride
        },
        Ok(None) => if system_entries.len() == 0 {
            AutostartState::NotPresent
        } else {
            AutostartState::DuplicateRisk
        },
    };
    Ok(
        AutostartAssessment {
            desktop_id: application.desktop_id.clone(),
            state,
            system_entries,
            user_override,
        },
    )
}

fn is_assessment_before(a: &AutostartAssessment, b: &AutostartAssessment) -> (before: bool)
    ensures
        before == assessment_before()(a@, b@),
{
    is_before(a.desktop_id.as_str(), b.desktop_id.as_str())
}

/// Assess only enabled, explicitly registered IDs against XDG autostart state.
pub fn assess_autostart(
    paths: &IntegrationPaths,
    registry: &AppRegistry,
    files: &Vec<ObservedFile>,
) -> (out: Result<Vec<AutostartAssessment>, IntegrationError>)
    ensures
        assessments_outcome(out) == assessments(paths@, registry@.apps, views(files@)),
{
    broadcast use group_views;

    let ghost all = views(registry.apps@);
    let ghost seen = views(files@);
    let mut found: Vec<AutostartAssessment> = Vec::new();
    let mut i: usize = 0;
    assert(all.take(0) =~= Seq::empty());
    while i < registry.apps.len()
        invariant
            i <= registry.apps@.len(),
            all == views(registry.apps@),
            all == registry@.apps,
            seen == views(files@),
            assessed(paths@, all.take(i as int), seen) == Ok::<
                Seq<AssessmentView>,
                IntegrationErrorView,
            >(views(found@)),
        decreases registry.apps.len() - i,
    {
        proof {
            assert(all.take(i + 1).drop_last() =~= all.take(i as int));
            assert(all.take(i + 1).last() == registry.apps@[i as int]@);
        }
        if registry.apps[i].enabled {
            match assess_application(paths, &registry.apps[i], files) {
                Ok(one) => {
                    let ghost before = views(found@);
                    found.push(one);
                    assert(views(found@) == before.push(one@));
                },
                Err(e) => {
                    proof {
                        lemma_assessed_error(paths@, all, seen, i + 1);
                    }
                    return Err(e);
                },
            }
        }
        i += 1;
    }
    assert(all.take(all.len() as int) =~= all);
    let ghost before = |a: AutostartAssessment, b: AutostartAssessment|
        assessment_before()(a@, b@);
    proof {
        crate::order::lemma_stable_sorted_map(
            found@,
            |a: AutostartAssessment| a@,
            before,
            assessment_before(),
        );
    }
    Ok(stable_sort(found, is_assessment_before, Ghost(before)))
}

/// The paths that an assessment looks at.
pub open spec fn inspected(paths: PathsView, apps: Seq<RegisteredView>, path: Seq<u8>) -> bool {
    exists|k: int|
        0 <= k < apps.len() && (#[trigger] apps[k]).enabled && inspected_for(
            paths,
            apps[k].desktop_id,
            path,
        )
}

pub open spec fn inspected_for(paths: PathsView, desktop_id: Seq<char>, path: Seq<u8>) -> bool {
    path == override_path(paths, desktop_id) || exists|i: int|
        0 <= i < paths.config_dirs.len() && path == entry_below(
            #[trigger] paths.config_dirs[i],
            desktop_id,
        )
}

/// The paths to look at before an assessment, so that it knows of everything
/// that it asks for.
pub fn autostart_paths(paths: &IntegrationPaths, registry: &AppRegistry) -> (out: Vec<UnixPath>)
    ensures
        forall|path: Seq<u8>|
            views(out@).contains(path) <==> #[trigger] inspected(paths@, registry@.apps, path),
{
    broadcast use group_views;

    let mut out: Vec<UnixPath> = Vec::new();
    let ghost all = registry@.apps;
    let mut i: usize = 0;
    while i < registry.apps.len()
        invariant
            i <= registry.apps@.len(),
            all == views(registry.apps@),
            all == registry@.apps,
            forall|path: Seq<u8>|
                views(out@).contains(path) <==> #[trigger] inspected(
                    paths@,
                    all.take(i as int),
                    path,
                ),
        decreases registry.apps.len() - i,
    {
        let ghost start = views(out@);
        let ghost id = all[i as int].desktop_id;
        let ghost roots = paths@.config_dirs;
        assert(all[i as int] == registry.apps@[i as int]@);
        if registry.apps[i].enabled {
            let desktop_id = registry.apps[i].desktop_id.as_str();
            let mut k: usize = 0;
            while k < paths.config_dirs.len()
                invariant
                    k <= paths.config_dirs@.len(),
                    roots == views(paths.config_dirs@),
                    roots == paths@.config_dirs,
                    id == desktop_id@,
                    forall|path: Seq<u8>| #[trigger]
                        views(out@).contains(path) <==> start.contains(path) || exists|j: int|
                            0 <= j < k && path == entry_below(#[trigger] roots[j], id),
                decreases paths.config_dirs.len() - k,
            {
                let ghost front = views(out@);
                let ghost added = entry_below(roots[k as int], id);
                assert(roots[k as int] == paths.config_dirs@[k as int]@);
                out.push(paths.config_dirs[k].join("autostart").join(desktop_id));
                proof {
                    assert(views(out@) == front.push(added));
                    assert forall|path: Seq<u8>| #[trigger]
                        views(out@).contains(path) <==> start.contains(path) || exists|j: int|
                            0 <= j < k + 1 && path == entry_below(#[trigger] roots[j], id) by {
                        lemma_push_contains(front, added, path);
                        if exists|j: int|
                            0 <= j < k + 1 && path == entry_below(#[trigger] roots[j], id) {
                            let j = choose|j: int|
                                0 <= j < k + 1 && path == entry_below(#[trigger] roots[j], id);
                            if j < k {
                                assert(front.contains(path));
                            }
                        }
                    }
                }
                k += 1;
            }
            let ghost front = views(out@);
            let ghost added = override_path(paths@, id);
            out.push(paths.autostart_dir().join(desktop_id));
            proof {
                assert(views(out@) == front.push(added));
                assert forall|path: Seq<u8>| #[trigger]
                    views(out@).contains(path) <==> start.contains(path) || inspected_for(
                        paths@,
                        id,
                        path,
                    ) by {
                    lemma_push_contains(front, added, path);
                    assert(front.contains(path) <==> start.contains(path) || exists|j: int|
                        0 <= j < roots.len() && path == entry_below(#[trigger] roots[j], id));
                }
            }
        }
        proof {
            assert forall|path: Seq<u8>|
                views(out@).contains(path) <==> #[trigger] inspected(
                    paths@,
                    all.take(i + 1),
                    path,
                ) by {
                lemma_inspected_step(paths@, all, i as int, path);
            }
        }
        i += 1;
    }
    assert(all.take(all.len() as int) =~= all);
    out
}

pub(crate) proof fn lemma_push_contains(s: Seq<Seq<u8>>, x: Seq<u8>, y: Seq<u8>)
    ensures
        s.push(x).contains(y) <==> s.contains(y) || y == x,
{
    if s.contains(y) {
        let i = choose|i: int| 0 <= i < s.len() && s[i] == y;
        assert(s.push(x)[i] == y);
    }
    assert(s.push(x)[s.len() as int] == x);
}

proof fn lemma_inspected_step(
    paths: PathsView,
    apps: Seq<RegisteredView>,
    i: int,
    path: Seq<u8>,
)
    requires
        0 <= i < apps.len(),
    ensures
        inspected(paths, apps.take(i + 1), path) <==> inspected(paths, apps.take(i), path) || (
        apps[i].enabled && inspected_for(paths, apps[i].desktop_id, path)),
{
    let more = apps.take(i + 1);
    let less = apps.take(i);
    if inspected(paths, more, path) {
        let k = choose|k: int|
            0 <= k < more.len() && (#[trigger] more[k]).enabled && inspected_for(
                paths,
                more[k].desktop_id,
                path,
            );
        if k < i {
            assert(less[k] == more[k]);
        }
    }
    if inspected(paths, less, path) {
        let k = choose|k: int|
            0 <= k < less.len() && (#[trigger] less[k]).enabled && inspected_for(
                paths,
                less[k].desktop_id,
                path,
            );
        assert(more[k] == less[k]);
    }
    assert(more[i] == apps[i]);
}

pub(crate) proof fn lemma_entries_depend(
    paths: PathsView,
    count: nat,
    desktop_id: Seq<char>,
    one: Seq<(Seq<u8>, FileStateView)>,
    other: Seq<(Seq<u8>, FileStateView)>,
)
    requires
        count <= paths.config_dirs.len(),
        forall|path: Seq<u8>|
            inspected_for(paths, desktop_id, path) ==> #[trigger] state_at(one, path) == state_at(
                other,
                path,
            ),
    ensures
        present_entries(paths.config_dirs.take(count as int), desktop_id, one) == present_entries(
            paths.config_dirs.take(count as int),
            desktop_id,
            other,
        ),
    decreases count,
{
    if count > 0 {
        let roots = paths.config_dirs.take(count as int);
        lemma_entries_depend(paths, (count - 1) as nat, desktop_id, one, other);
        assert(roots.drop_last() =~= paths.config_dirs.take(count - 1));
        assert(roots.last() == paths.config_dirs[count - 1]);
        assert(inspected_for(paths, desktop_id, entry_below(roots.last(), desktop_id)));
        assert(state_at(one, entry_below(roots.last(), desktop_id)) == state_at(
            other,
            entry_below(roots.last(), desktop_id),
        ));
    }
}

/// An assessment depends on nothing but the paths that it looks at.
pub proof fn assessment_depends_on_inspected(
    paths: PathsView,
    apps: Seq<RegisteredView>,
    one: Seq<(Seq<u8>, FileStateView)>,
    other: Seq<(Seq<u8>, FileStateView)>,
)
    requires
        forall|path: Seq<u8>|
            inspected(paths, apps, path) ==> #[trigger] state_at(one, path) == state_at(
                other,
                path,
            ),
    ensures
        assessments(paths, apps, one) == assessments(paths, apps, other),
{
    lemma_assessed_depends(paths, apps, one, other);
}

proof fn lemma_assessed_depends(
    paths: PathsView,
    apps: Seq<RegisteredView>,
    one: Seq<(Seq<u8>, FileStateView)>,
    other: Seq<(Seq<u8>, FileStateView)>,
)
    requires
        forall|path: Seq<u8>|
            inspected(paths, apps, path) ==> #[trigger] state_at(one, path) == state_at(
                other,
                path,
            ),
    ensures
        assessed(paths, apps, one) == assessed(paths, apps, other),
    decreases apps.len(),
{
    if apps.len() > 0 {
        let n = apps.len() - 1;
        assert(apps.take(n + 1) =~= apps);
        assert(apps.take(n) =~= apps.drop_last());
        assert forall|path: Seq<u8>| inspected(paths, apps.drop_last(), path) implies
            #[trigger] state_at(one, path) == state_at(other, path) by {
            lemma_inspected_step(paths, apps, n, path);
        }
        lemma_assessed_depends(paths, apps.drop_last(), one, other);
        if apps.last().enabled {
            let id = apps.last().desktop_id;
            assert forall|path: Seq<u8>| inspected_for(paths, id, path) implies
                #[trigger] state_at(one, path) == state_at(other, path) by {
                lemma_inspected_step(paths, apps, n, path);
            }
            lemma_entries_depend(paths, paths.config_dirs.len(), id, one, other);
            assert(paths.config_dirs.take(paths.config_dirs.len() as int) =~= paths.config_dirs);
            assert(inspected_for(paths, id, override_path(paths, id)));
            assert(state_at(one, override_path(paths, id)) == state_at(
                other,
                override_path(paths, id),
            ));
        }
    }
}

/// A user file in the place of an override that is needed.
pub open spec fn is_conflict(one: AssessmentView) -> bool {
    one.state == AutostartState::UserOverride && one.system_entries.len() > 0
}

/// Why the suppression of duplicates cannot begin.
pub open spec fn suppression_failure(all: Seq<AssessmentView>) -> Option<IntegrationErrorView>
    decreases all.len(),
{
    if all.len() == 0 {
        None
    } else if is_conflict(all[0]) {
        Some(IntegrationErrorView::UnownedFile { path: all[0].user_override })
    } else {
        suppression_failure(all.drop_first())
    }
}

/// Reject suppression where a user file is in the place of an override that
/// is needed.
pub fn preflight_suppression(all: &Vec<AutostartAssessment>) -> (out: Result<(), IntegrationError>)
    ensures
        failure(out) == suppression_failure(views(all@)),
{
    let ghost whole = views(all@);
    let mut i: usize = 0;
    assert(whole.skip(0) =~= whole);
    while i < all.len()
        invariant
            i <= all@.len(),
            whole == views(all@),
            suppression_failure(whole) == suppression_failure(whole.skip(i as int)),
        decreases all.len() - i,
    {
        proof {
            assert(whole.skip(i as int)[0] == all@[i as int]@);
            assert(whole.skip(i as int).drop_first() =~= whole.skip(i + 1));
            assert(views(all@[i as int].system_entries@).len() == all@[i as int].system_entries@.len());
        }
        if all[i].state == AutostartState::UserOverride && all[i].system_entries.len() > 0 {
            return Err(IntegrationError::UnownedFile { path: all[i].user_override.clone() });
        }
        i += 1;
    }
    Ok(())
}

} // verus!
