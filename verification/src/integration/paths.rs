//! The places that integration reads and writes, and what makes them safe.
use vstd::prelude::*;
use vstd::string::StringExecFns;
use vstd::utf8::encode_utf8;

use super::error::{IntegrationError, IntegrationErrorView};
use crate::path::{
    absolute, child, components, copy_paths, lossy_text, optional_path, same_bytes, same_path,
    Component, ComponentView, UnixPath,
};
use crate::text::{decimal, decimal_text, group_views, views};

verus! {

/// Name reserved for the launcher-owned user service.
pub const USER_UNIT_NAME: &'static str = "ecore-launcher.service";

/// XDG locations used by startup and autostart integration.
#[derive(Debug, PartialEq, Eq)]
pub struct IntegrationPaths {
    /// User configuration root, never a system directory.
    pub config_home: UnixPath,
    /// Ordered system configuration roots inspected read-only for autostart.
    pub config_dirs: Vec<UnixPath>,
    /// User state root containing only launcher ownership metadata.
    pub state_home: UnixPath,
}

/// Integration locations by their contents.
pub struct PathsView {
    pub config_home: Seq<u8>,
    pub config_dirs: Seq<Seq<u8>>,
    pub state_home: Seq<u8>,
}

impl View for IntegrationPaths {
    type V = PathsView;

    open spec fn view(&self) -> PathsView {
        PathsView {
            config_home: self.config_home@,
            config_dirs: views(self.config_dirs@),
            state_home: self.state_home@,
        }
    }
}

impl PathsView {
    /// Launcher-owned user unit path.
    pub open spec fn unit_path(self) -> Seq<u8> {
        child(child(self.config_home, "systemd/user"@), USER_UNIT_NAME@)
    }

    /// XDG user autostart directory.
    pub open spec fn autostart_dir(self) -> Seq<u8> {
        child(self.config_home, "autostart"@)
    }

    /// Marker used to prove ownership if the unit itself was manually removed.
    pub open spec fn ownership_path(self) -> Seq<u8> {
        child(self.state_home, "ecore-launcher/startup-owned"@)
    }
}

impl IntegrationPaths {
    /// Launcher-owned user unit path.
    pub fn unit_path(&self) -> (out: UnixPath)
        ensures
            out@ == self@.unit_path(),
    {
        self.config_home.join("systemd/user").join(USER_UNIT_NAME)
    }

    /// XDG user autostart directory.
    pub fn autostart_dir(&self) -> (out: UnixPath)
        ensures
            out@ == self@.autostart_dir(),
    {
        self.config_home.join("autostart")
    }

    /// Marker used to prove ownership if the unit itself was manually removed.
    pub fn ownership_path(&self) -> (out: UnixPath)
        ensures
            out@ == self@.ownership_path(),
    {
        self.state_home.join("ecore-launcher/startup-owned")
    }
}

/// A check by its outcome.
pub open spec fn failure(r: Result<(), IntegrationError>) -> Option<IntegrationErrorView> {
    match r {
        Ok(_) => None,
        Err(e) => Some(e@),
    }
}

pub open spec fn invalid_path(field: Seq<char>, path: Seq<u8>, reason: Seq<char>) -> Option<
    IntegrationErrorView,
> {
    Some(IntegrationErrorView::InvalidPath { field, path, reason })
}

pub open spec fn is_control_byte(b: u8) -> bool {
    b < 0x20 || b == 0x7F
}

pub open spec fn has_control_byte(path: Seq<u8>) -> bool {
    exists|i: int| 0 <= i < path.len() && is_control_byte(#[trigger] path[i])
}

/// A path that is not empty and holds no control characters.
pub open spec fn path_bytes_failure(path: Seq<u8>, field: Seq<char>) -> Option<
    IntegrationErrorView,
> {
    if path.len() == 0 {
        invalid_path(field, path, "the path is empty"@)
    } else if has_control_byte(path) {
        invalid_path(field, path, "control characters are not permitted"@)
    } else {
        None
    }
}

/// An absolute path without control characters.
pub open spec fn absolute_path_failure(path: Seq<u8>, field: Seq<char>) -> Option<
    IntegrationErrorView,
> {
    if path_bytes_failure(path, field) is Some {
        path_bytes_failure(path, field)
    } else if !absolute(path) {
        invalid_path(field, path, "an absolute path is required"@)
    } else {
        None
    }
}

fn reject_path(field: &str, path: &UnixPath, reason: &str) -> (out: Result<(), IntegrationError>)
    ensures
        failure(out) == invalid_path(field@, path@, reason@),
{
    Err(
        IntegrationError::InvalidPath {
            field: field.to_owned(),
            path: path.clone(),
            reason: reason.to_owned(),
        },
    )
}

/// Reject an empty path and one with control characters.
pub fn validate_path_bytes(path: &UnixPath, field: &str) -> (out: Result<(), IntegrationError>)
    ensures
        failure(out) == path_bytes_failure(path@, field@),
{
    if path.bytes.len() == 0 {
        return reject_path(field, path, "the path is empty");
    }
    let mut i: usize = 0;
    while i < path.bytes.len()
        invariant
            i <= path.bytes@.len(),
            0 < path.bytes@.len(),
            forall|k: int| 0 <= k < i ==> !is_control_byte(#[trigger] path.bytes@[k]),
        decreases path.bytes.len() - i,
    {
        let b: u8 = path.bytes[i];
        if b < 0x20 || b == 0x7F {
            assert(is_control_byte(path@[i as int]));
            return reject_path(field, path, "control characters are not permitted");
        }
        i += 1;
    }
    assert(!has_control_byte(path@)) by {
        if has_control_byte(path@) {
            let k = choose|k: int| 0 <= k < path@.len() && is_control_byte(#[trigger] path@[k]);
            assert(!is_control_byte(path.bytes@[k]));
        }
    }
    Ok(())
}

/// Require an absolute path without control characters.
pub fn validate_absolute_path(path: &UnixPath, field: &str) -> (out: Result<(), IntegrationError>)
    ensures
        failure(out) == absolute_path_failure(path@, field@),
{
    match validate_path_bytes(path, field) {
        Ok(_) => {},
        Err(e) => {
            return Err(e);
        },
    }
    if !path.is_absolute() {
        return reject_path(field, path, "an absolute path is required");
    }
    Ok(())
}

/// Components without `.` and with each `..` taken away together with what is
/// before it, read from the root.
pub open spec fn normal_components(parts: Seq<ComponentView>) -> Seq<ComponentView>
    decreases parts.len(),
{
    if parts.len() == 0 {
        seq![ComponentView::Root]
    } else {
        let front = normal_components(parts.drop_last());
        match parts.last() {
            ComponentView::Root | ComponentView::Current => front,
            ComponentView::Parent => if front.len() > 1 {
                front.drop_last()
            } else {
                front
            },
            ComponentView::Normal(name) => front.push(ComponentView::Normal(name)),
        }
    }
}

fn normalize_components(parts: Vec<Component>) -> (out: Vec<Component>)
    ensures
        views(out@) == normal_components(views(parts@)),
{
    broadcast use group_views;

    let ghost all = views(parts@);
    let mut rest = parts;
    let mut out: Vec<Component> = Vec::new();
    let ghost mut done: int = 0;
    out.push(Component::Root);
    assert(all.take(0) =~= Seq::empty());
    assert(views(out@) =~= seq![ComponentView::Root]);
    assert(parts@.skip(0) =~= parts@);
    while rest.len() > 0
        invariant
            0 <= done <= parts@.len(),
            all == views(parts@),
            rest@ == parts@.skip(done),
            views(out@) == normal_components(all.take(done)),
        decreases rest.len(),
    {
        let next = rest.remove(0);
        let ghost before = views(out@);
        proof {
            assert(next == parts@[done]);
            assert(all.take(done + 1).drop_last() =~= all.take(done));
            assert(all.take(done + 1).last() == next@);
            assert(parts@.skip(done).remove(0) =~= parts@.skip(done + 1));
            assert(before.len() == out@.len());
        }
        match next {
            Component::Root | Component::Current => {},
            Component::Parent => {
                if out.len() > 1 {
                    out.pop();
                    assert(views(out@) =~= before.drop_last());
                }
            },
            Component::Normal(name) => {
                out.push(Component::Normal(name));
                assert(views(out@) == before.push(ComponentView::Normal(name@)));
            },
        }
        proof {
            done = done + 1;
        }
    }
    assert(all.take(all.len() as int) =~= all);
    out
}

/// The first component below the root is the given one.
pub open spec fn is_below(parts: Seq<ComponentView>, name: Seq<char>) -> bool {
    parts.len() > 1 && parts[1] == ComponentView::Normal(encode_utf8(name))
}

/// The first two components below the root are the given ones.
pub open spec fn is_below_both(parts: Seq<ComponentView>, first: Seq<char>, second: Seq<char>) -> bool {
    is_below(parts, first) && parts.len() > 2 && parts[2] == ComponentView::Normal(
        encode_utf8(second),
    )
}

/// The root itself, and what is below a directory that belongs to the system.
pub open spec fn is_system(parts: Seq<ComponentView>) -> bool {
    &&& parts.len() > 0
    &&& parts[0] == ComponentView::Root
    &&& {
        ||| parts.len() == 1
        ||| is_below(parts, "etc"@)
        ||| is_below(parts, "usr"@)
        ||| is_below(parts, "lib"@)
        ||| is_below(parts, "lib64"@)
        ||| is_below(parts, "boot"@)
        ||| is_below(parts, "proc"@)
        ||| is_below(parts, "sys"@)
        ||| is_below(parts, "dev"@)
        ||| is_below_both(parts, "run"@, "systemd"@)
        ||| is_below_both(parts, "var"@, "lib"@)
        ||| is_below_both(parts, "var"@, "run"@)
    }
}

fn is_named(parts: &Vec<Component>, at: usize, name: &str) -> (out: bool)
    ensures
        out == (at < parts@.len() && parts@[at as int]@ == ComponentView::Normal(
            encode_utf8(name@),
        )),
{
    if at >= parts.len() {
        return false;
    }
    match &parts[at] {
        Component::Normal(bytes) => same_bytes(bytes.as_slice(), name.as_bytes()),
        _ => false,
    }
}

fn is_system_location(parts: &Vec<Component>) -> (out: bool)
    ensures
        out == is_system(views(parts@)),
{
    let ghost all = views(parts@);
    assert(all.len() == parts@.len());
    if parts.len() == 0 {
        return false;
    }
    assert(all[0] == parts@[0]@);
    match &parts[0] {
        Component::Root => {},
        _ => {
            return false;
        },
    }
    if parts.len() == 1 {
        return true;
    }
    assert(all[1] == parts@[1]@);
    assert(parts@.len() > 2 ==> all[2] == parts@[2]@);
    is_named(parts, 1, "etc") || is_named(parts, 1, "usr") || is_named(parts, 1, "lib") || is_named(
        parts,
        1,
        "lib64",
    ) || is_named(parts, 1, "boot") || is_named(parts, 1, "proc") || is_named(parts, 1, "sys")
        || is_named(parts, 1, "dev") || (is_named(parts, 1, "run") && is_named(
        parts,
        2,
        "systemd",
    )) || (is_named(parts, 1, "var") && (is_named(parts, 2, "lib") || is_named(parts, 2, "run")))
}

/// What stands at a directory or at one of those above it.
#[derive(Debug, PartialEq, Eq)]
pub enum AncestorState {
    Missing,
    Exists {
        path: UnixPath,
        /// The path with its symbolic links followed, where that succeeded.
        resolved: Option<UnixPath>,
        owner: u32,
    },
    /// The path could not be inspected; the system's message.
    Failed { path: UnixPath, source: String },
}

/// What a directory tells about the root below it.
pub open spec fn ancestor_failure(
    root: Seq<u8>,
    field: Seq<char>,
    state: AncestorState,
    user: u32,
) -> Option<IntegrationErrorView> {
    match state {
        AncestorState::Missing => None,
        AncestorState::Failed { path, source } => Some(
            IntegrationErrorView::FileSystem { path: path@, source: source@ },
        ),
        AncestorState::Exists { path, resolved, owner } => if resolved is Some && is_system(
            components(resolved->0@),
        ) {
            Some(
                IntegrationErrorView::UnsafeUserRoot {
                    field,
                    path: root,
                    reason: "nearest existing ancestor "@ + lossy_text(path@)
                        + " resolves into a system-owned location"@,
                },
            )
        } else if owner != user {
            Some(
                IntegrationErrorView::UnsafeUserRoot {
                    field,
                    path: root,
                    reason: "nearest existing ancestor "@ + lossy_text(path@)
                        + " is owned by UID "@ + decimal(owner as nat) + ", not UID "@ + decimal(
                        user as nat,
                    ),
                },
            )
        } else {
            None
        },
    }
}

/// The nearest directory that exists decides; the states are those of the
/// root and of the directories above it, in this order.
pub open spec fn nearest_failure(
    root: Seq<u8>,
    field: Seq<char>,
    states: Seq<AncestorState>,
    user: u32,
) -> Option<IntegrationErrorView>
    decreases states.len(),
{
    if states.len() == 0 {
        Some(
            IntegrationErrorView::UnsafeUserRoot {
                field,
                path: root,
                reason: "no existing user-owned ancestor was found"@,
            },
        )
    } else if states[0] is Missing {
        nearest_failure(root, field, states.drop_first(), user)
    } else {
        ancestor_failure(root, field, states[0], user)
    }
}

/// A root that is absolute, outside of the system's directories, and below
/// what the user owns.
pub open spec fn user_root_failure(
    root: Seq<u8>,
    field: Seq<char>,
    states: Seq<AncestorState>,
    user: u32,
) -> Option<IntegrationErrorView> {
    if absolute_path_failure(root, field) is Some {
        absolute_path_failure(root, field)
    } else if is_system(normal_components(components(root))) {
        Some(
            IntegrationErrorView::UnsafeUserRoot {
                field,
                path: root,
                reason: "system-owned locations are never integration destinations"@,
            },
        )
    } else {
        nearest_failure(root, field, states, user)
    }
}

fn check_ancestor(root: &UnixPath, field: &str, state: &AncestorState, user: u32) -> (out: Result<
    (),
    IntegrationError,
>)
    ensures
        failure(out) == ancestor_failure(root@, field@, *state, user),
{
    match state {
        AncestorState::Missing => Ok(()),
        AncestorState::Failed { path, source } => Err(
            IntegrationError::FileSystem { path: path.clone(), source: source.clone() },
        ),
        AncestorState::Exists { path, resolved, owner } => {
            let in_system = match resolved {
                Some(target) => is_system_location(&target.components()),
                None => false,
            };
            if in_system {
                return Err(
                    IntegrationError::UnsafeUserRoot {
                        field: field.to_owned(),
                        path: root.clone(),
                        reason: "nearest existing ancestor ".to_owned().concat(
                            path.display().as_str(),
                        ).concat(" resolves into a system-owned location"),
                    },
                );
            }
            if *owner != user {
                return Err(
                    IntegrationError::UnsafeUserRoot {
                        field: field.to_owned(),
                        path: root.clone(),
                        reason: "nearest existing ancestor ".to_owned().concat(
                            path.display().as_str(),
                        ).concat(" is owned by UID ").concat(
                            decimal_text(*owner as u64).as_str(),
                        ).concat(", not UID ").concat(decimal_text(user as u64).as_str()),
                    },
                );
            }
            Ok(())
        },
    }
}

/// Require a root that the user owns and that is no system location. The
/// states are those of the root and of the directories above it.
pub fn validate_user_root(
    root: &UnixPath,
    field: &str,
    states: &Vec<AncestorState>,
    user: u32,
) -> (out: Result<(), IntegrationError>)
    ensures
        failure(out) == user_root_failure(root@, field@, states@, user),
{
    match validate_absolute_path(root, field) {
        Ok(_) => {},
        Err(e) => {
            return Err(e);
        },
    }
    if is_system_location(&normalize_components(root.components())) {
        return Err(
            IntegrationError::UnsafeUserRoot {
                field: field.to_owned(),
                path: root.clone(),
                reason: "system-owned locations are never integration destinations".to_owned(),
            },
        );
    }
    let mut i: usize = 0;
    assert(states@.skip(0) =~= states@);
    while i < states.len()
        invariant
            i <= states@.len(),
            user_root_failure(root@, field@, states@, user) == nearest_failure(
                root@,
                field@,
                states@.skip(i as int),
                user,
            ),
        decreases states.len() - i,
    {
        assert(states@.skip(i as int)[0] == states@[i as int]);
        assert(states@.skip(i as int).drop_first() =~= states@.skip(i + 1));
        match &states[i] {
            AncestorState::Missing => {},
            _ => {
                return check_ancestor(root, field, &states[i], user);
            },
        }
        i += 1;
    }
    Err(
        IntegrationError::UnsafeUserRoot {
            field: field.to_owned(),
            path: root.clone(),
            reason: "no existing user-owned ancestor was found".to_owned(),
        },
    )
}

/// No accepted root is a system location, whatever the directories above it
/// are.
pub proof fn system_locations_are_rejected(
    root: Seq<u8>,
    field: Seq<char>,
    states: Seq<AncestorState>,
    user: u32,
)
    requires
        is_system(normal_components(components(root))),
    ensures
        user_root_failure(root, field, states, user) is Some,
{
}

/// The environment that names the integration roots.
#[derive(Debug, PartialEq, Eq)]
pub struct IntegrationEnvironment {
    /// `XDG_CONFIG_HOME`.
    pub xdg_config_home: Option<UnixPath>,
    /// The directories of `XDG_CONFIG_DIRS`.
    pub xdg_config_dirs: Vec<UnixPath>,
    /// `XDG_STATE_HOME`.
    pub xdg_state_home: Option<UnixPath>,
    /// `HOME`.
    pub home: Option<UnixPath>,
}

/// A root: the explicit one, else that of the environment, else one below the
/// home directory.
pub open spec fn chosen_root(
    explicit: Option<Seq<u8>>,
    variable: Option<Seq<u8>>,
    home: Option<Seq<u8>>,
    below: Seq<char>,
) -> Option<Seq<u8>> {
    if explicit is Some {
        explicit
    } else if variable is Some && variable->0.len() > 0 {
        variable
    } else if home is Some && home->0.len() > 0 {
        Some(child(home->0, below))
    } else {
        None
    }
}

fn choose_root(
    explicit: &Option<UnixPath>,
    variable: &Option<UnixPath>,
    home: &Option<UnixPath>,
    below: &str,
) -> (out: Option<UnixPath>)
    ensures
        optional_path(out) == chosen_root(
            optional_path(*explicit),
            optional_path(*variable),
            optional_path(*home),
            below@,
        ),
{
    match explicit {
        Some(path) => {
            return Some(path.clone());
        },
        None => {},
    }
    match variable {
        Some(path) => {
            if path.bytes.len() > 0 {
                return Some(path.clone());
            }
        },
        None => {},
    }
    match home {
        Some(path) => if path.bytes.len() > 0 {
            Some(path.join(below))
        } else {
            None
        },
        None => None,
    }
}

pub open spec fn names_usr_share(paths: Seq<Seq<u8>>) -> bool {
    exists|i: int|
        0 <= i < paths.len() && same_path(#[trigger] paths[i], encode_utf8("/usr/share"@))
}

/// The system roots: the explicit ones, else those of the environment with
/// the one that some distributions use besides.
pub open spec fn chosen_config_dirs(explicit: Seq<Seq<u8>>, variable: Seq<Seq<u8>>) -> Seq<Seq<u8>> {
    if explicit.len() > 0 {
        explicit
    } else {
        let listed = if variable.len() == 0 {
            seq![encode_utf8("/etc/xdg"@)]
        } else {
            variable
        };
        if names_usr_share(listed) {
            listed
        } else {
            listed.push(encode_utf8("/usr/share"@))
        }
    }
}

fn choose_config_dirs(explicit: &Vec<UnixPath>, variable: &Vec<UnixPath>) -> (out: Vec<UnixPath>)
    ensures
        views(out@) == chosen_config_dirs(views(explicit@), views(variable@)),
{
    broadcast use group_views;

    assert(views(explicit@).len() == explicit@.len());
    assert(views(variable@).len() == variable@.len());
    if explicit.len() > 0 {
        return copy_paths(explicit);
    }
    let mut out: Vec<UnixPath> = Vec::new();
    if variable.len() == 0 {
        out.push(UnixPath::from_text("/etc/xdg"));
        assert(views(out@) =~= seq![encode_utf8("/etc/xdg"@)]);
    } else {
        out = copy_paths(variable);
    }
    let ghost listed = views(out@);
    let share = UnixPath::from_text("/usr/share");
    let mut i: usize = 0;
    while i < out.len()
        invariant
            i <= out@.len(),
            listed == views(out@),
            listed == if variable@.len() == 0 {
                seq![encode_utf8("/etc/xdg"@)]
            } else {
                views(variable@)
            },
            views(explicit@).len() == 0,
            views(variable@).len() == variable@.len(),
            share@ == encode_utf8("/usr/share"@),
            forall|k: int| 0 <= k < i ==> !same_path(#[trigger] listed[k], share@),
        decreases out.len() - i,
    {
        assert(listed[i as int] == out@[i as int]@);
        if out[i].is_same_path(&share) {
            assert(same_path(listed[i as int], encode_utf8("/usr/share"@)));
            assert(names_usr_share(listed));
            return out;
        }
        i += 1;
    }
    out.push(share);
    out
}

/// The first invalid root among some.
pub open spec fn roots_failure(roots: Seq<Seq<u8>>, field: Seq<char>) -> Option<IntegrationErrorView>
    decreases roots.len(),
{
    if roots.len() == 0 {
        None
    } else if absolute_path_failure(roots[0], field) is Some {
        absolute_path_failure(roots[0], field)
    } else {
        roots_failure(roots.drop_first(), field)
    }
}

fn validate_roots(roots: &Vec<UnixPath>, field: &str) -> (out: Result<(), IntegrationError>)
    ensures
        failure(out) == roots_failure(views(roots@), field@),
{
    let ghost all = views(roots@);
    let mut i: usize = 0;
    assert(all.skip(0) =~= all);
    while i < roots.len()
        invariant
            i <= roots@.len(),
            all == views(roots@),
            roots_failure(all, field@) == roots_failure(all.skip(i as int), field@),
        decreases roots.len() - i,
    {
        assert(all.skip(i as int)[0] == roots@[i as int]@);
        assert(all.skip(i as int).drop_first() =~= all.skip(i + 1));
        match validate_absolute_path(&roots[i], field) {
            Ok(_) => {},
            Err(e) => {
                return Err(e);
            },
        }
        i += 1;
    }
    Ok(())
}

/// What stands at the user's roots and above them.
#[derive(Debug, PartialEq, Eq)]
pub struct RootStates {
    /// The states of the configuration home and of the directories above it.
    pub config_home: Vec<AncestorState>,
    /// The states of the state home and of the directories above it.
    pub state_home: Vec<AncestorState>,
    /// The effective user.
    pub user: u32,
}

/// The integration roots.
pub open spec fn chosen_paths(
    explicit_config_home: Option<Seq<u8>>,
    explicit_config_dirs: Seq<Seq<u8>>,
    explicit_state_home: Option<Seq<u8>>,
    environment: IntegrationEnvironment,
    states: RootStates,
) -> Result<PathsView, IntegrationErrorView> {
    let config_home = chosen_config_home(explicit_config_home, environment);
    let config_dirs = chosen_config_dirs(
        explicit_config_dirs,
        views(environment.xdg_config_dirs@),
    );
    let state_home = chosen_state_home(explicit_state_home, environment);
    if config_home is None {
        Err(IntegrationErrorView::ConfigHomeUnavailable)
    } else if user_root_failure(
        config_home->0,
        "XDG configuration home"@,
        states.config_home@,
        states.user,
    ) is Some {
        Err(
            user_root_failure(
                config_home->0,
                "XDG configuration home"@,
                states.config_home@,
                states.user,
            )->0,
        )
    } else if roots_failure(config_dirs, "XDG system configuration root"@) is Some {
        Err(roots_failure(config_dirs, "XDG system configuration root"@)->0)
    } else if state_home is None {
        Err(IntegrationErrorView::StateHomeUnavailable)
    } else if user_root_failure(
        state_home->0,
        "XDG state home"@,
        states.state_home@,
        states.user,
    ) is Some {
        Err(
            user_root_failure(
                state_home->0,
                "XDG state home"@,
                states.state_home@,
                states.user,
            )->0,
        )
    } else {
        Ok(PathsView { config_home: config_home->0, config_dirs, state_home: state_home->0 })
    }
}

/// The configuration home that is asked for.
pub open spec fn chosen_config_home(
    explicit: Option<Seq<u8>>,
    environment: IntegrationEnvironment,
) -> Option<Seq<u8>> {
    chosen_root(
        explicit,
        optional_path(environment.xdg_config_home),
        optional_path(environment.home),
        ".config"@,
    )
}

/// The state home that is asked for.
pub open spec fn chosen_state_home(
    explicit: Option<Seq<u8>>,
    environment: IntegrationEnvironment,
) -> Option<Seq<u8>> {
    chosen_root(
        explicit,
        optional_path(environment.xdg_state_home),
        optional_path(environment.home),
        ".local/state"@,
    )
}

impl IntegrationEnvironment {
    /// The configuration home that is asked for.
    pub fn config_home(&self, explicit: &Option<UnixPath>) -> (out: Option<UnixPath>)
        ensures
            optional_path(out) == chosen_config_home(optional_path(*explicit), *self),
    {
        choose_root(explicit, &self.xdg_config_home, &self.home, ".config")
    }

    /// The state home that is asked for.
    pub fn state_home(&self, explicit: &Option<UnixPath>) -> (out: Option<UnixPath>)
        ensures
            optional_path(out) == chosen_state_home(optional_path(*explicit), *self),
    {
        choose_root(explicit, &self.xdg_state_home, &self.home, ".local/state")
    }
}

impl IntegrationPaths {
    /// Resolve XDG roots without creating anything. The states are those of
    /// the homes that the environment gives.
    pub fn from_environment(
        explicit_config_home: &Option<UnixPath>,
        explicit_config_dirs: &Vec<UnixPath>,
        explicit_state_home: &Option<UnixPath>,
        environment: &IntegrationEnvironment,
        states: &RootStates,
    ) -> (out: Result<Self, IntegrationError>)
        ensures
            paths_outcome(out) == chosen_paths(
                optional_path(*explicit_config_home),
                views(explicit_config_dirs@),
                optional_path(*explicit_state_home),
                *environment,
                *states,
            ),
    {
        let config_home = match environment.config_home(explicit_config_home) {
            Some(path) => path,
            None => {
                return Err(IntegrationError::ConfigHomeUnavailable);
            },
        };
        match validate_user_root(
            &config_home,
            "XDG configuration home",
            &states.config_home,
            states.user,
        ) {
            Ok(_) => {},
            Err(e) => {
                return Err(e);
            },
        }
        let config_dirs = choose_config_dirs(explicit_config_dirs, &environment.xdg_config_dirs);
        match validate_roots(&config_dirs, "XDG system configuration root") {
            Ok(_) => {},
            Err(e) => {
                return Err(e);
            },
        }
        let state_home = match environment.state_home(explicit_state_home) {
            Some(path) => path,
            None => {
                return Err(IntegrationError::StateHomeUnavailable);
            },
        };
        match validate_user_root(&state_home, "XDG state home", &states.state_home, states.user) {
            Ok(_) => {},
            Err(e) => {
                return Err(e);
            },
        }
        Ok(IntegrationPaths { config_home, config_dirs, state_home })
    }
}

/// Paths or an error, by contents.
pub open spec fn paths_outcome(out: Result<IntegrationPaths, IntegrationError>) -> Result<
    PathsView,
    IntegrationErrorView,
> {
    match out {
        Ok(paths) => Ok(paths@),
        Err(e) => Err(e@),
    }
}

} // verus!
