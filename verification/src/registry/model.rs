//! Stored applications and their launch policy.
use vstd::prelude::*;

use crate::order::{stable_sort, stable_sorted};
use crate::path::{optional_path, UnixPath};
use crate::text::{is_before, text_before, views};

verus! {

/// `toml::Value`: any TOML value. The registry carries it and never looks
/// inside.
#[verifier::external_type_specification]
#[verifier::external_body]
pub struct ExTomlValue(toml::Value);

/// `<toml::Value as Clone>::clone`. Claimed: the copy equals the value.
#[verifier::external_body]
fn copy_value(value: &toml::Value) -> (out: toml::Value)
    ensures
        out == *value,
{
    value.clone()
}

/// The only TOML schema version supported by this release.
pub const CURRENT_SCHEMA_VERSION: u32 = 1;

/// Maximum number of explicitly managed applications in one registry.
pub const MAX_REGISTERED_APPLICATIONS: usize = 10_000;

/// Default delay in seconds before the launcher starts an application.
pub const DEFAULT_DELAY_SECONDS: u64 = 0;

/// Default nice value applied by the runtime helper.
pub const DEFAULT_NICE: i8 = 5;

/// Default I/O priority within the `best-effort` class.
pub const DEFAULT_IO_PRIORITY: u8 = 4;

/// I/O scheduling class applied by the runtime helper.
#[derive(Clone, Copy, Debug, PartialEq, Eq, Structural)]
pub enum IoPriorityClass {
    /// Do not request an I/O priority change.
    Unset,
    /// Real-time I/O policy.
    Realtime,
    /// Best-effort I/O policy.
    BestEffort,
    /// Idle I/O policy.
    Idle,
}

pub open spec fn io_class_text(class: IoPriorityClass) -> Seq<char> {
    match class {
        IoPriorityClass::Unset => "none"@,
        IoPriorityClass::Realtime => "realtime"@,
        IoPriorityClass::BestEffort => "best-effort"@,
        IoPriorityClass::Idle => "idle"@,
    }
}

impl IoPriorityClass {
    /// The name of the class in configuration files and messages.
    pub fn name(self) -> (out: String)
        ensures
            out@ == io_class_text(self),
    {
        match self {
            IoPriorityClass::Unset => "none".to_owned(),
            IoPriorityClass::Realtime => "realtime".to_owned(),
            IoPriorityClass::BestEffort => "best-effort".to_owned(),
            IoPriorityClass::Idle => "idle".to_owned(),
        }
    }
}

/// A class whose requests carry a priority.
pub open spec fn has_priority(class: IoPriorityClass) -> bool {
    class == IoPriorityClass::BestEffort || class == IoPriorityClass::Realtime
}

/// Unknown keys with their values.
pub type ExtraView = Seq<(Seq<char>, toml::Value)>;

pub open spec fn extra_view(extra: Seq<(String, toml::Value)>) -> ExtraView {
    extra.map_values(|entry: (String, toml::Value)| (entry.0@, entry.1))
}

fn copy_extra(extra: &Vec<(String, toml::Value)>) -> (out: Vec<(String, toml::Value)>)
    ensures
        out@ == extra@,
{
    let mut out: Vec<(String, toml::Value)> = Vec::new();
    let mut i: usize = 0;
    while i < extra.len()
        invariant
            i <= extra@.len(),
            out@ == extra@.take(i as int),
        decreases extra.len() - i,
    {
        assert(extra@.take(i + 1) =~= extra@.take(i as int).push(extra@[i as int]));
        out.push((extra[i].0.clone(), copy_value(&extra[i].1)));
        i += 1;
    }
    assert(extra@.take(extra@.len() as int) =~= extra@);
    out
}

/// Default stored preferences copied into an application when it is added.
///
/// This registry intentionally uses a snapshot model: later changes to these
/// defaults do not alter applications which have already been registered.
#[derive(Debug, PartialEq)]
pub struct LauncherDefaults {
    /// Default startup delay in seconds, bounded by validation.
    pub default_delay_seconds: u64,
    /// Default Linux nice value.
    pub default_nice: i8,
    /// Default I/O class.
    pub default_io_class: IoPriorityClass,
    /// Default I/O priority when the selected class accepts one.
    pub default_io_priority: Option<u8>,
    /// Default process-tree enforcement preference for supervised launches.
    pub default_enforce_process_tree: bool,
    /// Unknown launcher keys retained across canonical rewrites.
    pub extra: Vec<(String, toml::Value)>,
}

/// How an application is to be launched.
pub struct PolicyView {
    pub delay_seconds: u64,
    pub nice: i8,
    pub io_class: IoPriorityClass,
    pub io_priority: Option<u8>,
    pub enforce_process_tree: bool,
}

/// Launcher defaults by their contents.
pub struct DefaultsView {
    pub policy: PolicyView,
    pub extra: ExtraView,
}

impl View for LauncherDefaults {
    type V = DefaultsView;

    open spec fn view(&self) -> DefaultsView {
        DefaultsView {
            policy: PolicyView {
                delay_seconds: self.default_delay_seconds,
                nice: self.default_nice,
                io_class: self.default_io_class,
                io_priority: self.default_io_priority,
                enforce_process_tree: self.default_enforce_process_tree,
            },
            extra: extra_view(self.extra@),
        }
    }
}

pub open spec fn default_policy() -> PolicyView {
    PolicyView {
        delay_seconds: DEFAULT_DELAY_SECONDS,
        nice: DEFAULT_NICE,
        io_class: IoPriorityClass::BestEffort,
        io_priority: Some(DEFAULT_IO_PRIORITY),
        enforce_process_tree: false,
    }
}

impl Default for LauncherDefaults {
    fn default() -> (out: Self)
        ensures
            out@ == (DefaultsView { policy: default_policy(), extra: Seq::empty() }),
    {
        let out = LauncherDefaults {
            default_delay_seconds: DEFAULT_DELAY_SECONDS,
            default_nice: DEFAULT_NICE,
            default_io_class: IoPriorityClass::BestEffort,
            default_io_priority: Some(DEFAULT_IO_PRIORITY),
            default_enforce_process_tree: false,
            extra: Vec::new(),
        };
        assert(out@.extra =~= Seq::empty());
        out
    }
}

impl Clone for LauncherDefaults {
    fn clone(&self) -> (out: Self)
        ensures
            out@ == self@,
    {
        LauncherDefaults {
            default_delay_seconds: self.default_delay_seconds,
            default_nice: self.default_nice,
            default_io_class: self.default_io_class,
            default_io_priority: self.default_io_priority,
            default_enforce_process_tree: self.default_enforce_process_tree,
            extra: copy_extra(&self.extra),
        }
    }
}

/// One application that the user explicitly elected to manage later.
#[derive(Debug, PartialEq)]
pub struct RegisteredApplication {
    /// Stable desktop-file ID. It is an identity, not a filesystem path.
    pub desktop_id: String,
    /// Display name captured when the user selected the application.
    pub name: String,
    /// Whether the launcher may act on this selected application.
    pub enabled: bool,
    /// Snapshot startup delay in seconds.
    pub delay_seconds: u64,
    /// Snapshot Linux nice value.
    pub nice: i8,
    /// Snapshot I/O class.
    pub io_class: IoPriorityClass,
    /// Snapshot I/O priority when the selected class accepts one.
    pub io_priority: Option<u8>,
    /// Snapshot process-tree enforcement preference for supervised launches.
    pub enforce_process_tree: bool,
    /// Desktop-entry path captured for diagnostics only; it is never launch authority.
    pub desktop_file: Option<UnixPath>,
    /// Unknown application keys retained across canonical rewrites.
    pub extra: Vec<(String, toml::Value)>,
}

/// A registered application by its contents.
pub struct RegisteredView {
    pub desktop_id: Seq<char>,
    pub name: Seq<char>,
    pub enabled: bool,
    pub policy: PolicyView,
    pub desktop_file: Option<Seq<u8>>,
    pub extra: ExtraView,
}

impl View for RegisteredApplication {
    type V = RegisteredView;

    open spec fn view(&self) -> RegisteredView {
        RegisteredView {
            desktop_id: self.desktop_id@,
            name: self.name@,
            enabled: self.enabled,
            policy: PolicyView {
                delay_seconds: self.delay_seconds,
                nice: self.nice,
                io_class: self.io_class,
                io_priority: self.io_priority,
                enforce_process_tree: self.enforce_process_tree,
            },
            desktop_file: optional_path(self.desktop_file),
            extra: extra_view(self.extra@),
        }
    }
}

impl Default for RegisteredApplication {
    fn default() -> (out: Self)
        ensures
            out@ == (RegisteredView {
                desktop_id: Seq::empty(),
                name: Seq::empty(),
                enabled: true,
                policy: default_policy(),
                desktop_file: None,
                extra: Seq::empty(),
            }),
    {
        let out = RegisteredApplication {
            desktop_id: String::new(),
            name: String::new(),
            enabled: true,
            delay_seconds: DEFAULT_DELAY_SECONDS,
            nice: DEFAULT_NICE,
            io_class: IoPriorityClass::BestEffort,
            io_priority: Some(DEFAULT_IO_PRIORITY),
            enforce_process_tree: false,
            desktop_file: None,
            extra: Vec::new(),
        };
        assert(out@.extra =~= Seq::empty());
        out
    }
}

pub(crate) fn copy_path(path: &Option<UnixPath>) -> (out: Option<UnixPath>)
    ensures
        optional_path(out) == optional_path(*path),
{
    match path {
        Some(path) => Some(path.clone()),
        None => None,
    }
}

impl Clone for RegisteredApplication {
    fn clone(&self) -> (out: Self)
        ensures
            out@ == self@,
    {
        RegisteredApplication {
            desktop_id: self.desktop_id.clone(),
            name: self.name.clone(),
            enabled: self.enabled,
            delay_seconds: self.delay_seconds,
            nice: self.nice,
            io_class: self.io_class,
            io_priority: self.io_priority,
            enforce_process_tree: self.enforce_process_tree,
            desktop_file: copy_path(&self.desktop_file),
            extra: copy_extra(&self.extra),
        }
    }
}

/// Versioned, user-controlled application registry.
#[derive(Debug, PartialEq)]
pub struct AppRegistry {
    /// Version required to interpret this TOML file.
    pub schema_version: u32,
    /// Defaults copied when a new application is added.
    pub launcher: LauncherDefaults,
    /// Explicitly managed applications, kept sorted by desktop ID.
    pub apps: Vec<RegisteredApplication>,
    /// Unknown top-level keys retained across canonical rewrites.
    pub extra: Vec<(String, toml::Value)>,
}

/// A registry by its contents.
pub struct RegistryView {
    pub schema_version: u32,
    pub launcher: DefaultsView,
    pub apps: Seq<RegisteredView>,
    pub extra: ExtraView,
}

impl View for AppRegistry {
    type V = RegistryView;

    open spec fn view(&self) -> RegistryView {
        RegistryView {
            schema_version: self.schema_version,
            launcher: self.launcher@,
            apps: views(self.apps@),
            extra: extra_view(self.extra@),
        }
    }
}

pub open spec fn default_registry() -> RegistryView {
    RegistryView {
        schema_version: CURRENT_SCHEMA_VERSION,
        launcher: DefaultsView { policy: default_policy(), extra: Seq::empty() },
        apps: Seq::empty(),
        extra: Seq::empty(),
    }
}

impl Default for AppRegistry {
    fn default() -> (out: Self)
        ensures
            out@ == default_registry(),
    {
        let out = AppRegistry {
            schema_version: CURRENT_SCHEMA_VERSION,
            launcher: LauncherDefaults::default(),
            apps: Vec::new(),
            extra: Vec::new(),
        };
        assert(out@.extra =~= Seq::empty());
        assert(out@.apps =~= Seq::empty());
        out
    }
}

impl Clone for AppRegistry {
    fn clone(&self) -> (out: Self)
        ensures
            out@ == self@,
    {
        AppRegistry {
            schema_version: self.schema_version,
            launcher: self.launcher.clone(),
            apps: copy_apps(&self.apps),
            extra: copy_extra(&self.extra),
        }
    }
}

pub(crate) fn copy_apps(apps: &Vec<RegisteredApplication>) -> (out: Vec<RegisteredApplication>)
    ensures
        views(out@) == views(apps@),
{
    broadcast use crate::text::group_views;

    let mut out: Vec<RegisteredApplication> = Vec::new();
    let mut i: usize = 0;
    assert(views(out@) =~= views(apps@).take(0));
    while i < apps.len()
        invariant
            i <= apps@.len(),
            views(out@) == views(apps@).take(i as int),
        decreases apps.len() - i,
    {
        assert(views(apps@).take(i + 1) =~= views(apps@).take(i as int).push(apps@[i as int]@));
        out.push(apps[i].clone());
        i += 1;
    }
    assert(views(apps@).take(apps@.len() as int) =~= views(apps@));
    out
}

pub open spec fn registered_before() -> spec_fn(RegisteredView, RegisteredView) -> bool {
    |a: RegisteredView, b: RegisteredView| text_before(a.desktop_id, b.desktop_id)
}

fn is_registered_before(a: &RegisteredApplication, b: &RegisteredApplication) -> (out: bool)
    ensures
        out == registered_before()(a@, b@),
{
    is_before(a.desktop_id.as_str(), b.desktop_id.as_str())
}

/// Applications in the order of their IDs.
pub open spec fn sorted_apps(apps: Seq<RegisteredView>) -> Seq<RegisteredView> {
    stable_sorted(apps, registered_before())
}

pub(crate) fn sort_apps(apps: Vec<RegisteredApplication>) -> (out: Vec<RegisteredApplication>)
    ensures
        views(out@) == sorted_apps(views(apps@)),
{
    let ghost before = |a: RegisteredApplication, b: RegisteredApplication|
        registered_before()(a@, b@);
    proof {
        crate::order::lemma_stable_sorted_map(
            apps@,
            |a: RegisteredApplication| a@,
            before,
            registered_before(),
        );
    }
    stable_sort(apps, is_registered_before, Ghost(before))
}

/// A registry with its applications in order.
pub open spec fn normalized(registry: RegistryView) -> RegistryView {
    RegistryView { apps: sorted_apps(registry.apps), ..registry }
}

impl AppRegistry {
    /// The registry with its applications in the order of their IDs.
    pub fn normalize(self) -> (out: AppRegistry)
        ensures
            out@ == normalized(self@),
    {
        AppRegistry {
            schema_version: self.schema_version,
            launcher: self.launcher,
            apps: sort_apps(self.apps),
            extra: self.extra,
        }
    }
}

/// Changes to one registered application's stored policy.
#[derive(Clone, Copy, Debug, PartialEq, Eq)]
pub struct ApplicationSettingsUpdate {
    /// Replacement delay, when supplied.
    pub delay_seconds: Option<u64>,
    /// Replacement nice value, when supplied.
    pub nice: Option<i8>,
    /// Replacement I/O class, when supplied.
    pub io_class: Option<IoPriorityClass>,
    /// Replacement I/O priority. `Some(None)` clears it.
    pub io_priority: Option<Option<u8>>,
    /// Replacement process-tree preference, when supplied.
    pub enforce_process_tree: Option<bool>,
    /// Restore all policy fields from current launcher defaults.
    pub reset_to_defaults: bool,
}

impl Default for ApplicationSettingsUpdate {
    fn default() -> (out: Self)
        ensures
            out == (ApplicationSettingsUpdate {
                delay_seconds: None,
                nice: None,
                io_class: None,
                io_priority: None,
                enforce_process_tree: None,
                reset_to_defaults: false,
            }),
    {
        ApplicationSettingsUpdate {
            delay_seconds: None,
            nice: None,
            io_class: None,
            io_priority: None,
            enforce_process_tree: None,
            reset_to_defaults: false,
        }
    }
}

/// The priority that goes with a class: none where the class takes none, and
/// the usual one where it is missing.
pub open spec fn fitting_priority(priority: Option<u8>, class: IoPriorityClass) -> Option<u8> {
    if !has_priority(class) {
        None
    } else if priority is None {
        Some(DEFAULT_IO_PRIORITY)
    } else {
        priority
    }
}

/// The priority that fits a class.
pub fn normalize_priority(priority: Option<u8>, class: IoPriorityClass) -> (out: Option<u8>)
    ensures
        out == fitting_priority(priority, class),
{
    match class {
        IoPriorityClass::Unset | IoPriorityClass::Idle => None,
        IoPriorityClass::BestEffort | IoPriorityClass::Realtime => match priority {
            Some(value) => Some(value),
            None => Some(DEFAULT_IO_PRIORITY),
        },
    }
}

/// The priority that a configuration file stands for: the one it states, else
/// the usual one where the class takes a priority.
pub open spec fn stored_priority(priority: Option<u8>, class: IoPriorityClass) -> Option<u8> {
    if priority is None && has_priority(class) {
        Some(DEFAULT_IO_PRIORITY)
    } else {
        priority
    }
}

/// The priority that a stored one stands for.
pub fn read_stored_priority(priority: Option<u8>, class: IoPriorityClass) -> (out: Option<u8>)
    ensures
        out == stored_priority(priority, class),
{
    match priority {
        Some(value) => Some(value),
        None => match class {
            IoPriorityClass::BestEffort | IoPriorityClass::Realtime => Some(DEFAULT_IO_PRIORITY),
            IoPriorityClass::Unset | IoPriorityClass::Idle => None,
        },
    }
}

} // verus!
