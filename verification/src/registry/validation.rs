//! What makes a registry valid.
use vstd::prelude::*;
use vstd::string::StringExecFns;
use vstd::utf8::encode_utf8;

use super::error::{ProblemView, ValidationError};
use super::model::{
    has_priority, AppRegistry, IoPriorityClass, PolicyView, RegisteredApplication, RegisteredView,
    RegistryView, CURRENT_SCHEMA_VERSION, MAX_REGISTERED_APPLICATIONS,
};
use crate::text::{chars_of, decimal, decimal_text, same_text, trim, trim_text, views};

verus! {

/// The longest delay before an application starts.
pub const MAX_DELAY_SECONDS: u64 = 3_600;

/// The most bytes that a display name may have.
pub const MAX_NAME_LENGTH: usize = 4_096;

pub open spec fn problem(field: Seq<char>, message: Seq<char>) -> Option<ProblemView> {
    Some(ProblemView { field, message })
}

pub open spec fn is_path_char(c: char) -> bool {
    c == '/' || c == '\\' || c == '\0'
}

/// A stable desktop ID, and no path.
pub open spec fn desktop_id_problem(field: Seq<char>, id: Seq<char>) -> Option<ProblemView> {
    if id.len() == 0 || trim(id) != id {
        problem(field, "must be non-empty and contain no surrounding whitespace"@)
    } else if id == "."@ || id == ".."@ || exists|i: int|
        0 <= i < id.len() && is_path_char(#[trigger] id[i]) {
        problem(field, "must be a stable desktop ID, not a filesystem path or traversal string"@)
    } else {
        None
    }
}

/// A launch policy within the ranges of Linux and of this launcher.
pub open spec fn policy_problem(prefix: Seq<char>, policy: PolicyView) -> Option<ProblemView> {
    if policy.delay_seconds > MAX_DELAY_SECONDS {
        problem(
            prefix + ".delay_seconds"@,
            "must be in 0..="@ + decimal(MAX_DELAY_SECONDS as nat),
        )
    } else if !(-20 <= policy.nice <= 19) {
        problem(
            prefix + ".nice"@,
            "must be in Linux range -20..=19; negative values may require privileges at launch"@,
        )
    } else if has_priority(policy.io_class) {
        match policy.io_priority {
            Some(level) => if level <= 7 {
                None
            } else {
                problem(
                    prefix + ".io_priority"@,
                    "must be in 0..=7 for best-effort or realtime I/O class"@,
                )
            },
            None => problem(
                prefix + ".io_priority"@,
                "is required for best-effort or realtime I/O class"@,
            ),
        }
    } else if policy.io_priority is Some {
        problem(prefix + ".io_priority"@, "must be omitted for none or idle I/O class"@)
    } else {
        None
    }
}

pub open spec fn app_prefix(index: int) -> Seq<char> {
    "apps["@ + decimal(index as nat) + "]"@
}

/// What is wrong with one application.
pub open spec fn app_problem(index: int, app: RegisteredView) -> Option<ProblemView> {
    let id = desktop_id_problem(app_prefix(index) + ".desktop_id"@, app.desktop_id);
    if id is Some {
        id
    } else if trim(app.name).len() == 0 {
        problem(app_prefix(index) + ".name"@, "must not be empty"@)
    } else if encode_utf8(app.name).len() > MAX_NAME_LENGTH {
        problem(
            app_prefix(index) + ".name"@,
            "must not exceed "@ + decimal(MAX_NAME_LENGTH as nat) + " bytes"@,
        )
    } else {
        policy_problem(app_prefix(index), app.policy)
    }
}

pub open spec fn id_taken(apps: Seq<RegisteredView>, id: Seq<char>) -> bool {
    exists|i: int| 0 <= i < apps.len() && (#[trigger] apps[i]).desktop_id == id
}

/// The first thing wrong with a list of applications.
pub open spec fn apps_problem(apps: Seq<RegisteredView>) -> Option<ProblemView>
    decreases apps.len(),
{
    if apps.len() == 0 {
        None
    } else {
        let front = apps.drop_last();
        let index = front.len() as int;
        let app = apps.last();
        if apps_problem(front) is Some {
            apps_problem(front)
        } else if app_problem(index, app) is Some {
            app_problem(index, app)
        } else if id_taken(front, app.desktop_id) {
            problem(
                app_prefix(index) + ".desktop_id"@,
                "duplicates desktop ID `"@ + app.desktop_id + "`"@,
            )
        } else {
            None
        }
    }
}

/// The first thing wrong with a registry.
pub open spec fn registry_problem(registry: RegistryView) -> Option<ProblemView> {
    if registry.schema_version != CURRENT_SCHEMA_VERSION {
        problem(
            "schema_version"@,
            "must be supported version "@ + decimal(CURRENT_SCHEMA_VERSION as nat) + ", found "@
                + decimal(registry.schema_version as nat),
        )
    } else if registry.apps.len() > MAX_REGISTERED_APPLICATIONS {
        problem(
            "apps"@,
            "contains more than "@ + decimal(MAX_REGISTERED_APPLICATIONS as nat) + " entries"@,
        )
    } else if policy_problem("launcher"@, registry.launcher.policy) is Some {
        policy_problem("launcher"@, registry.launcher.policy)
    } else {
        apps_problem(registry.apps)
    }
}

/// A registry with nothing wrong.
pub open spec fn valid(registry: RegistryView) -> bool {
    registry_problem(registry) is None
}

/// A validation outcome by its contents.
pub open spec fn outcome(r: Result<(), ValidationError>) -> Option<ProblemView> {
    match r {
        Ok(_) => None,
        Err(e) => Some(e@),
    }
}

fn fail(field: String, message: String) -> (out: Result<(), ValidationError>)
    ensures
        outcome(out) == problem(field@, message@),
{
    Err(ValidationError { field, message })
}

fn validate_desktop_id(field: String, id: &str) -> (out: Result<(), ValidationError>)
    ensures
        outcome(out) == desktop_id_problem(field@, id@),
{
    if id.is_empty() || !same_text(trim_text(id), id) {
        return fail(
            field,
            "must be non-empty and contain no surrounding whitespace".to_owned(),
        );
    }
    let chars = chars_of(id);
    let mut path_like = same_text(id, ".") || same_text(id, "..");
    let ghost dots = path_like;
    let mut i: usize = 0;
    while i < chars.len()
        invariant
            i <= chars@.len(),
            chars@ == id@,
            path_like <==> dots || exists|k: int| 0 <= k < i && is_path_char(#[trigger] id@[k]),
        decreases chars.len() - i,
    {
        assert(id@[i as int] == chars@[i as int]);
        if chars[i] == '/' || chars[i] == '\\' || chars[i] == '\0' {
            assert(is_path_char(id@[i as int]));
            path_like = true;
        }
        i += 1;
    }
    if path_like {
        return fail(
            field,
            "must be a stable desktop ID, not a filesystem path or traversal string".to_owned(),
        );
    }
    Ok(())
}

fn validate_policy(
    prefix: &str,
    delay_seconds: u64,
    nice: i8,
    io_class: IoPriorityClass,
    io_priority: Option<u8>,
    enforce_process_tree: bool,
) -> (out: Result<(), ValidationError>)
    ensures
        outcome(out) == policy_problem(
            prefix@,
            PolicyView { delay_seconds, nice, io_class, io_priority, enforce_process_tree },
        ),
{
    if delay_seconds > MAX_DELAY_SECONDS {
        return fail(
            prefix.to_owned().concat(".delay_seconds"),
            "must be in 0..=".to_owned().concat(decimal_text(MAX_DELAY_SECONDS).as_str()),
        );
    }
    if !(-20 <= nice && nice <= 19) {
        return fail(
            prefix.to_owned().concat(".nice"),
            "must be in Linux range -20..=19; negative values may require privileges at launch".to_owned(),
        );
    }
    let field = prefix.to_owned().concat(".io_priority");
    match io_class {
        IoPriorityClass::BestEffort | IoPriorityClass::Realtime => match io_priority {
            Some(level) => if level <= 7 {
                Ok(())
            } else {
                fail(field, "must be in 0..=7 for best-effort or realtime I/O class".to_owned())
            },
            None => fail(field, "is required for best-effort or realtime I/O class".to_owned()),
        },
        IoPriorityClass::Unset | IoPriorityClass::Idle => match io_priority {
            Some(_) => fail(field, "must be omitted for none or idle I/O class".to_owned()),
            None => Ok(()),
        },
    }
}

fn validate_application(index: usize, app: &RegisteredApplication) -> (out: Result<
    (),
    ValidationError,
>)
    ensures
        outcome(out) == app_problem(index as int, app@),
{
    let prefix = "apps[".to_owned().concat(decimal_text(index as u64).as_str()).concat("]");
    match validate_desktop_id(
        prefix.clone().concat(".desktop_id"),
        app.desktop_id.as_str(),
    ) {
        Ok(_) => {},
        Err(e) => {
            return Err(e);
        },
    }
    if trim_text(app.name.as_str()).is_empty() {
        return fail(prefix.concat(".name"), "must not be empty".to_owned());
    }
    if app.name.as_str().as_bytes().len() > MAX_NAME_LENGTH {
        return fail(
            prefix.concat(".name"),
            "must not exceed ".to_owned().concat(
                decimal_text(MAX_NAME_LENGTH as u64).as_str(),
            ).concat(" bytes"),
        );
    }
    validate_policy(
        prefix.as_str(),
        app.delay_seconds,
        app.nice,
        app.io_class,
        app.io_priority,
        app.enforce_process_tree,
    )
}

pub(crate) fn is_id_taken(apps: &Vec<RegisteredApplication>, count: usize, id: &str) -> (out: bool)
    requires
        count <= apps@.len(),
    ensures
        out == id_taken(views(apps@).take(count as int), id@),
{
    let ghost all = views(apps@).take(count as int);
    let mut i: usize = 0;
    while i < count
        invariant
            i <= count <= apps@.len(),
            all == views(apps@).take(count as int),
            forall|k: int| 0 <= k < i ==> (#[trigger] all[k]).desktop_id != id@,
        decreases count - i,
    {
        assert(all[i as int] == apps@[i as int]@);
        if same_text(apps[i].desktop_id.as_str(), id) {
            assert(all[i as int].desktop_id == id@);
            return true;
        }
        i += 1;
    }
    false
}

proof fn lemma_apps_problem(apps: Seq<RegisteredView>, k: int)
    requires
        0 <= k <= apps.len(),
        apps_problem(apps.take(k)) is Some,
    ensures
        apps_problem(apps) == apps_problem(apps.take(k)),
    decreases apps.len() - k,
{
    if k == apps.len() {
        assert(apps.take(k) =~= apps);
    } else {
        assert(apps.take(k + 1).drop_last() =~= apps.take(k));
        lemma_apps_problem(apps, k + 1);
    }
}

/// Validate a fully decoded registry independently from TOML decoding.
///
/// The first stable, field-specific validation error is returned. The store
/// normalizes order before validation, so accepted registries always have
/// deterministic application ordering.
pub fn validate_registry(registry: &AppRegistry) -> (out: Result<(), ValidationError>)
    ensures
        outcome(out) == registry_problem(registry@),
{
    if registry.schema_version != CURRENT_SCHEMA_VERSION {
        return fail(
            "schema_version".to_owned(),
            "must be supported version ".to_owned().concat(
                decimal_text(CURRENT_SCHEMA_VERSION as u64).as_str(),
            ).concat(", found ").concat(decimal_text(registry.schema_version as u64).as_str()),
        );
    }
    let ghost all = views(registry.apps@);
    assert(all.len() == registry.apps@.len());
    if registry.apps.len() > MAX_REGISTERED_APPLICATIONS {
        return fail(
            "apps".to_owned(),
            "contains more than ".to_owned().concat(
                decimal_text(MAX_REGISTERED_APPLICATIONS as u64).as_str(),
            ).concat(" entries"),
        );
    }
    match validate_policy(
        "launcher",
        registry.launcher.default_delay_seconds,
        registry.launcher.default_nice,
        registry.launcher.default_io_class,
        registry.launcher.default_io_priority,
        registry.launcher.default_enforce_process_tree,
    ) {
        Ok(_) => {},
        Err(e) => {
            return Err(e);
        },
    }
    let mut index: usize = 0;
    assert(all.take(0) =~= Seq::empty());
    while index < registry.apps.len()
        invariant
            index <= registry.apps@.len(),
            all == views(registry.apps@),
            registry_problem(registry@) == apps_problem(all),
            apps_problem(all.take(index as int)) is None,
        decreases registry.apps.len() - index,
    {
        let app = &registry.apps[index];
        let ghost upto = all.take(index + 1);
        assert(upto.drop_last() =~= all.take(index as int));
        assert(upto.last() == app@);
        match validate_application(index, app) {
            Ok(_) => {},
            Err(e) => {
                proof {
                    lemma_apps_problem(all, index + 1);
                }
                return Err(e);
            },
        }
        if is_id_taken(&registry.apps, index, app.desktop_id.as_str()) {
            proof {
                lemma_apps_problem(all, index + 1);
            }
            return fail(
                "apps[".to_owned().concat(decimal_text(index as u64).as_str()).concat("]").concat(
                    ".desktop_id",
                ),
                "duplicates desktop ID `".to_owned().concat(app.desktop_id.as_str()).concat("`"),
            );
        }
        index += 1;
    }
    assert(all.take(all.len() as int) =~= all);
    Ok(())
}

/// In a valid registry every application is in order by itself and no two
/// have the same ID.
pub proof fn valid_apps_are_sound(apps: Seq<RegisteredView>)
    requires
        apps_problem(apps) is None,
    ensures
        forall|i: int| 0 <= i < apps.len() ==> app_problem(i, #[trigger] apps[i]) is None,
        forall|i: int, j: int|
            0 <= i < j < apps.len() ==> (#[trigger] apps[i]).desktop_id != (
            #[trigger] apps[j]).desktop_id,
    decreases apps.len(),
{
    if apps.len() > 0 {
        let front = apps.drop_last();
        valid_apps_are_sound(front);
        assert forall|i: int| 0 <= i < apps.len() implies app_problem(i, #[trigger] apps[i])
            is None by {
            if i < front.len() {
                assert(app_problem(i, front[i]) is None);
            }
        }
        assert forall|i: int, j: int| 0 <= i < j < apps.len() implies (
        #[trigger] apps[i]).desktop_id != (#[trigger] apps[j]).desktop_id by {
            if j < front.len() {
                assert(front[i].desktop_id != front[j].desktop_id);
            } else {
                assert(front[i] == apps[i]);
            }
        }
    }
}

/// Applications that are in order by themselves and have distinct IDs are
/// valid together, in any order.
pub proof fn sound_apps_are_valid(apps: Seq<RegisteredView>)
    requires
        forall|i: int| 0 <= i < apps.len() ==> app_problem(0, #[trigger] apps[i]) is None,
        forall|i: int, j: int|
            0 <= i < j < apps.len() ==> (#[trigger] apps[i]).desktop_id != (
            #[trigger] apps[j]).desktop_id,
    ensures
        apps_problem(apps) is None,
    decreases apps.len(),
{
    if apps.len() > 0 {
        let front = apps.drop_last();
        assert forall|i: int| 0 <= i < front.len() implies app_problem(0, #[trigger] front[i])
            is None by {
            assert(app_problem(0, apps[i]) is None);
        }
        assert forall|i: int, j: int| 0 <= i < j < front.len() implies (
        #[trigger] front[i]).desktop_id != (#[trigger] front[j]).desktop_id by {
            assert(apps[i].desktop_id != apps[j].desktop_id);
        }
        sound_apps_are_valid(front);
        let last = apps.last();
        assert(app_problem(0, apps[apps.len() - 1]) is None);
        assert(app_problem(front.len() as int, last) is None);
        if id_taken(front, last.desktop_id) {
            let i = choose|i: int|
                0 <= i < front.len() && (#[trigger] front[i]).desktop_id == last.desktop_id;
            assert(apps[i].desktop_id != apps[apps.len() - 1].desktop_id);
        }
    }
}

} // verus!
