//! Reading and replacing the configuration file.
use vstd::prelude::*;

use vstd::utf8::encode_utf8;

use super::error::{RegistryError, RegistryErrorView};
use super::model::{default_registry, normalized, AppRegistry, RegistryView, CURRENT_SCHEMA_VERSION};
use super::validation::{registry_problem, valid, validate_registry};
use crate::path::{append_bytes, copy_bytes, parent, UnixPath};
use crate::replace::{
    replace_directory, replace_name, Destination, DirectoryState, PhaseView, ReplaceStyle,
    Replacement, ReplacementView,
};

verus! {

/// Loaded registry data and whether an on-disk configuration file existed.
#[derive(Debug, PartialEq)]
pub struct RegistryLoad {
    /// Valid, normalized registry data.
    pub registry: AppRegistry,
    /// Whether a file was read.
    pub exists: bool,
}

/// Versioned TOML registry store rooted at one configuration file.
#[derive(Debug, PartialEq, Eq)]
pub struct RegistryStore {
    pub path: UnixPath,
}

/// What stands at the configuration path.
#[derive(Debug, PartialEq)]
pub enum ConfigState {
    Symlink,
    Directory,
    /// The path could not be inspected; the system's message.
    InspectionFailed(String),
    Missing,
    /// The file could not be read; the system's message.
    ReadFailed(String),
    /// The file is not valid TOML; the decoder's message.
    Malformed(String),
    Decoded(AppRegistry),
}

/// What loading gives: the registry and whether a file exists.
pub open spec fn loaded(path: Seq<u8>, state: ConfigState) -> Result<
    (RegistryView, bool),
    RegistryErrorView,
> {
    match state {
        ConfigState::Symlink => Err(RegistryErrorView::SymlinkRejected { path }),
        ConfigState::Directory => Err(RegistryErrorView::ConfigPathIsDirectory { path }),
        ConfigState::InspectionFailed(source) => Err(
            RegistryErrorView::ReadConfig { path, source: source@ },
        ),
        ConfigState::Missing => Ok((default_registry(), false)),
        ConfigState::ReadFailed(source) => Err(
            RegistryErrorView::ReadConfig { path, source: source@ },
        ),
        ConfigState::Malformed(source) => Err(
            RegistryErrorView::TomlSyntax { path, source: source@ },
        ),
        ConfigState::Decoded(registry) => if registry@.schema_version != CURRENT_SCHEMA_VERSION {
            Err(RegistryErrorView::UnsupportedSchemaVersion { found: registry@.schema_version })
        } else {
            match registry_problem(normalized(registry@)) {
                Some(problem) => Err(RegistryErrorView::Validation(problem)),
                None => Ok((normalized(registry@), true)),
            }
        },
    }
}

/// A change may take a registry to an outcome.
pub open spec fn changes_to<T, F: FnOnce(AppRegistry) -> Result<(AppRegistry, T), RegistryError>>(
    mutation: F,
    before: RegistryView,
    outcome: Result<(AppRegistry, T), RegistryError>,
) -> bool {
    exists|registry: AppRegistry|
        registry@ == before && #[trigger] mutation.ensures((registry,), outcome)
}

/// What has to be done before the configuration file can be written.
#[derive(Clone, Copy, Debug, PartialEq, Eq, Structural)]
pub enum ParentAction {
    Nothing,
    /// Create the directory and those above it, for the user alone.
    CreatePrivate,
}

/// What stands at the path of the mutation lock or of the configuration.
#[derive(Debug, PartialEq, Eq)]
pub enum EntryState {
    Symlink,
    Other,
    Missing,
    /// The path could not be inspected; the system's message.
    Failed(String),
}

impl RegistryStore {
    /// Construct a store for an already-resolved configuration file path.
    pub fn new(path: UnixPath) -> (out: Self)
        ensures
            out.path == path,
    {
        RegistryStore { path }
    }

    /// Return the exact configuration file path without creating it.
    pub fn path(&self) -> (out: &UnixPath)
        ensures
            *out == self.path,
    {
        &self.path
    }

    /// Load a valid registry, treating a missing file as an empty default.
    pub fn load(&self, state: ConfigState) -> (out: Result<AppRegistry, RegistryError>)
        ensures
            match out {
                Ok(registry) => loaded(self.path@, state) is Ok && registry@ == loaded(
                    self.path@,
                    state,
                )->Ok_0.0 && valid(registry@),
                Err(e) => loaded(self.path@, state) == Err::<
                    (RegistryView, bool),
                    RegistryErrorView,
                >(e@),
            },
    {
        match self.load_with_status(state) {
            Ok(load) => Ok(load.registry),
            Err(e) => Err(e),
        }
    }

    /// Load a valid registry and distinguish a missing file from a stored one.
    pub fn load_with_status(&self, state: ConfigState) -> (out: Result<
        RegistryLoad,
        RegistryError,
    >)
        ensures
            match out {
                Ok(load) => loaded(self.path@, state) == Ok::<
                    (RegistryView, bool),
                    RegistryErrorView,
                >((load.registry@, load.exists)) && valid(load.registry@),
                Err(e) => loaded(self.path@, state) == Err::<
                    (RegistryView, bool),
                    RegistryErrorView,
                >(e@),
            },
    {
        match state {
            ConfigState::Symlink => Err(RegistryError::SymlinkRejected { path: self.path.clone() }),
            ConfigState::Directory => Err(
                RegistryError::ConfigPathIsDirectory { path: self.path.clone() },
            ),
            ConfigState::InspectionFailed(source) => Err(
                RegistryError::ReadConfig { path: self.path.clone(), source },
            ),
            ConfigState::Missing => {
                let registry = AppRegistry::default();
                Ok(RegistryLoad { registry, exists: false })
            },
            ConfigState::ReadFailed(source) => Err(
                RegistryError::ReadConfig { path: self.path.clone(), source },
            ),
            ConfigState::Malformed(source) => Err(
                RegistryError::TomlSyntax { path: self.path.clone(), source },
            ),
            ConfigState::Decoded(decoded) => {
                if decoded.schema_version != CURRENT_SCHEMA_VERSION {
                    return Err(
                        RegistryError::UnsupportedSchemaVersion { found: decoded.schema_version },
                    );
                }
                let registry = decoded.normalize();
                match validate_registry(&registry) {
                    Ok(_) => Ok(RegistryLoad { registry, exists: true }),
                    Err(e) => Err(RegistryError::Validation(e)),
                }
            },
        }
    }

    /// The canonical form of a registry that may replace the stored one.
    ///
    /// Malformed or unsupported user data is never replaced: where loading
    /// what is stored fails, so does this.
    pub fn save(&self, registry: &AppRegistry, state: ConfigState) -> (out: Result<
        AppRegistry,
        RegistryError,
    >)
        ensures
            match out {
                Ok(canonical) => {
                    &&& loaded(self.path@, state) is Ok
                    &&& canonical@ == normalized(registry@)
                    &&& valid(canonical@)
                },
                Err(e) => if loaded(self.path@, state) is Err {
                    e@ == loaded(self.path@, state)->Err_0
                } else {
                    registry_problem(normalized(registry@)) is Some && e@
                        == RegistryErrorView::Validation(
                        registry_problem(normalized(registry@))->0,
                    )
                },
            },
    {
        match self.load(state) {
            Ok(_) => {},
            Err(e) => {
                return Err(e);
            },
        }
        canonical(registry)
    }

    /// Change the stored registry: the change gets the latest stored state,
    /// and what comes back, in canonical form, may replace it. Where loading,
    /// the change or validation fails, nothing may be written.
    pub fn mutate<T, F: FnOnce(AppRegistry) -> Result<(AppRegistry, T), RegistryError>>(
        &self,
        state: ConfigState,
        mutation: F,
    ) -> (out: Result<(AppRegistry, T), RegistryError>)
        requires
            forall|registry: AppRegistry| valid(registry@) ==> #[trigger] mutation.requires(
                (registry,),
            ),
        ensures
            loaded(self.path@, state) is Err ==> (out matches Err(e) && e@ == loaded(
                self.path@,
                state,
            )->Err_0),
            out is Ok ==> loaded(self.path@, state) is Ok,
            out is Ok ==> valid(out->Ok_0.0@),
            out is Ok ==> exists|after: AppRegistry|
                #[trigger] changes_to(
                    mutation,
                    loaded(self.path@, state)->Ok_0.0,
                    Ok::<(AppRegistry, T), RegistryError>((after, out->Ok_0.1)),
                ) && out->Ok_0.0@ == normalized(after@),
            loaded(self.path@, state) is Ok && out is Err ==> {
                ||| changes_to(
                    mutation,
                    loaded(self.path@, state)->Ok_0.0,
                    Err::<(AppRegistry, T), RegistryError>(out->Err_0),
                )
                ||| exists|after: AppRegistry, result: T|
                    #[trigger] changes_to(
                        mutation,
                        loaded(self.path@, state)->Ok_0.0,
                        Ok::<(AppRegistry, T), RegistryError>((after, result)),
                    ) && registry_problem(normalized(after@)) is Some && out->Err_0@
                        == RegistryErrorView::Validation(registry_problem(normalized(after@))->0)
            },
    {
        let registry = match self.load(state) {
            Ok(registry) => registry,
            Err(e) => {
                return Err(e);
            },
        };
        let ghost before = registry;
        let outcome = mutation(registry);
        assert(changes_to(mutation, before@, outcome));
        match outcome {
            Ok((changed, result)) => {
                let ghost after = changed;
                let ghost given = result;
                assert(changes_to(
                    mutation,
                    before@,
                    Ok::<(AppRegistry, T), RegistryError>((after, given)),
                ));
                match canonical(&changed) {
                    Ok(canonical) => {
                        assert(canonical@ == normalized(after@));
                        let out = Ok((canonical, result));
                        assert(changes_to(
                            mutation,
                            loaded(self.path@, state)->Ok_0.0,
                            Ok::<(AppRegistry, T), RegistryError>((after, out->Ok_0.1)),
                        ));
                        assert(out->Ok_0.0@ == normalized(after@));
                        out
                    },
                    Err(e) => {
                        assert(registry_problem(normalized(after@)) is Some);
                        Err(e)
                    },
                }
            },
            Err(e) => Err(e),
        }
    }

    /// What has to be done about the directory of the configuration file,
    /// in the given state, where it has one.
    pub fn prepare_parent(&self, state: DirectoryState) -> (out: Result<
        ParentAction,
        RegistryError,
    >)
        ensures
            match parent_outcome(self.path@, state) {
                Ok(action) => out == Ok::<ParentAction, RegistryError>(action),
                Err(e) => out matches Err(error) && error@ == e,
            },
    {
        let parent = match self.path.parent() {
            None => {
                return Err(RegistryError::EmptyConfigPath);
            },
            Some(parent) => parent,
        };
        if parent.bytes.len() == 0 {
            return Ok(ParentAction::Nothing);
        }
        match state {
            DirectoryState::Directory => Ok(ParentAction::Nothing),
            DirectoryState::Missing => Ok(ParentAction::CreatePrivate),
            DirectoryState::NotDirectory => Err(
                RegistryError::CreateConfigDirectory {
                    path: parent,
                    source: "path is not a directory".to_owned(),
                },
            ),
            DirectoryState::Failed(source) => Err(
                RegistryError::CreateConfigDirectory { path: parent, source },
            ),
        }
    }

    /// The path of the mutation lock.
    pub fn lock_path(&self) -> (out: UnixPath)
        ensures
            out@ == lock_of(self.path@),
    {
        let mut bytes = copy_bytes(&self.path.bytes);
        append_bytes(&mut bytes, ".lock".as_bytes());
        UnixPath { bytes }
    }

    /// Whether the mutation lock may be opened.
    pub fn check_lock(&self, state: EntryState) -> (out: Result<(), RegistryError>)
        ensures
            ({
                let path = lock_of(self.path@);
                match state {
                    EntryState::Other | EntryState::Missing => out is Ok,
                    EntryState::Symlink => out matches Err(e) && e@
                        == (RegistryErrorView::SymlinkRejected { path }),
                    EntryState::Failed(source) => out matches Err(e) && e@
                        == (RegistryErrorView::LockAcquire { path, source: source@ }),
                }
            }),
    {
        match state {
            EntryState::Other | EntryState::Missing => Ok(()),
            EntryState::Symlink => Err(RegistryError::SymlinkRejected { path: self.lock_path() }),
            EntryState::Failed(source) => Err(
                RegistryError::LockAcquire { path: self.lock_path(), source },
            ),
        }
    }
}

/// Why the configuration file, in the given state, cannot be replaced.
pub open spec fn replacement_obstacle(path: Seq<u8>, state: ConfigState) -> Option<
    RegistryErrorView,
> {
    match state {
        ConfigState::Symlink => Some(RegistryErrorView::SymlinkRejected { path }),
        ConfigState::Directory => Some(RegistryErrorView::ConfigPathIsDirectory { path }),
        ConfigState::InspectionFailed(source) => Some(
            RegistryErrorView::ReadConfig { path, source: source@ },
        ),
        _ => None,
    }
}

impl RegistryStore {
    /// Whether the configuration file, in the given state, can be replaced.
    pub fn inspect(&self, state: &ConfigState) -> (out: Result<(), RegistryError>)
        ensures
            match replacement_obstacle(self.path@, *state) {
                Some(obstacle) => out matches Err(e) && e@ == obstacle,
                None => out is Ok,
            },
    {
        match state {
            ConfigState::Symlink => Err(RegistryError::SymlinkRejected { path: self.path.clone() }),
            ConfigState::Directory => Err(
                RegistryError::ConfigPathIsDirectory { path: self.path.clone() },
            ),
            ConfigState::InspectionFailed(source) => Err(
                RegistryError::ReadConfig { path: self.path.clone(), source: source.clone() },
            ),
            _ => Ok(()),
        }
    }

    /// Begin to replace the configuration file.
    pub fn begin_write(&self, process: u32, sequence: u64) -> (out: Result<
        Replacement,
        RegistryError,
    >)
        ensures
            match replace_name(self.path@) {
                None => out matches Err(e) && e@ == RegistryErrorView::EmptyConfigPath,
                Some(name) => out matches Ok(replacement) && replacement@ == (ReplacementView {
                    style: ReplaceStyle::Configuration,
                    directory: replace_directory(self.path@),
                    name,
                    process,
                    sequence,
                    phase: PhaseView::Create { attempt: 0 },
                }),
            },
    {
        match Replacement::begin(&self.path, ReplaceStyle::Configuration, process, sequence) {
            Some(replacement) => Ok(replacement),
            None => Err(RegistryError::EmptyConfigPath),
        }
    }

    /// What the configuration file, in the given state, is to its
    /// replacement: only a symbolic link is in its way.
    pub fn destination(state: EntryState) -> (out: Destination)
        ensures
            match state {
                EntryState::Symlink => out is Symlink,
                EntryState::Other => out is Replaceable,
                EntryState::Missing => out is Missing,
                EntryState::Failed(source) => out == Destination::Failed(source),
            },
    {
        match state {
            EntryState::Symlink => Destination::Symlink,
            EntryState::Other => Destination::Replaceable,
            EntryState::Missing => Destination::Missing,
            EntryState::Failed(source) => Destination::Failed(source),
        }
    }

    /// The error for a replacement that failed.
    pub fn write_failure(&self, source: String) -> (out: RegistryError)
        ensures
            out@ == (RegistryErrorView::AtomicWrite { path: self.path@, source: source@ }),
    {
        RegistryError::AtomicWrite { path: self.path.clone(), source }
    }
}

/// The canonical form of a registry: in order, and valid.
pub fn canonical(registry: &AppRegistry) -> (out: Result<AppRegistry, RegistryError>)
    ensures
        match out {
            Ok(canonical) => canonical@ == normalized(registry@) && valid(canonical@),
            Err(e) => registry_problem(normalized(registry@)) is Some && e@
                == RegistryErrorView::Validation(registry_problem(normalized(registry@))->0),
        },
{
    let canonical = registry.clone().normalize();
    match validate_registry(&canonical) {
        Ok(_) => Ok(canonical),
        Err(e) => Err(RegistryError::Validation(e)),
    }
}

/// What has to be done next to change the stored registry.
#[derive(Debug, PartialEq)]
pub enum ChangePhase {
    /// Look at the directory of the configuration file.
    InspectParent,
    /// Look at the mutation lock.
    InspectLock,
    /// Read the registry and apply the change to it, without the lock.
    Rehearse,
    /// Create the directory and those above it, for the user alone.
    CreateParent,
    /// Open the mutation lock and take it; where that is said, create it.
    TakeLock { create: bool },
    /// Read the registry and apply the change to it, under the lock.
    Apply,
    /// Look at the configuration file again.
    InspectConfig,
    /// Write the accepted registry.
    Write,
    Finished,
    Failed(RegistryError),
}

/// A phase by its contents.
pub enum ChangePhaseView {
    InspectParent,
    InspectLock,
    Rehearse,
    CreateParent,
    TakeLock { create: bool },
    Apply,
    InspectConfig,
    Write,
    Finished,
    Failed(RegistryErrorView),
}

impl View for ChangePhase {
    type V = ChangePhaseView;

    open spec fn view(&self) -> ChangePhaseView {
        match self {
            ChangePhase::InspectParent => ChangePhaseView::InspectParent,
            ChangePhase::InspectLock => ChangePhaseView::InspectLock,
            ChangePhase::Rehearse => ChangePhaseView::Rehearse,
            ChangePhase::CreateParent => ChangePhaseView::CreateParent,
            ChangePhase::TakeLock { create } => ChangePhaseView::TakeLock { create: *create },
            ChangePhase::Apply => ChangePhaseView::Apply,
            ChangePhase::InspectConfig => ChangePhaseView::InspectConfig,
            ChangePhase::Write => ChangePhaseView::Write,
            ChangePhase::Finished => ChangePhaseView::Finished,
            ChangePhase::Failed(e) => ChangePhaseView::Failed(e@),
        }
    }
}

impl ChangePhaseView {
    /// The action makes something that was not there.
    pub open spec fn creates(self) -> bool {
        self is CreateParent || self == (ChangePhaseView::TakeLock { create: true }) || self is Write
    }
}

/// What came of the last action. A failure of the system comes with its
/// message.
#[derive(Debug, PartialEq)]
pub enum ChangeEvent {
    Parent(DirectoryState),
    ParentCreated,
    ParentFailed(String),
    Lock(EntryState),
    Locked,
    /// There is no lock any more.
    LockMissing(String),
    LockFailed(String),
    /// What the change made of the registry, or why it made nothing of it.
    Changed(Result<AppRegistry, RegistryError>),
    Config(ConfigState),
    Written,
    WriteFailed(RegistryError),
}

/// The change of a stored registry. Nothing is created before the change has
/// given a valid registry: where there is no lock to take, it is tried without
/// one first.
#[derive(Debug, PartialEq)]
pub struct Change {
    pub store: RegistryStore,
    /// The latest valid registry that the change gave, in canonical form.
    pub accepted: Option<AppRegistry>,
    pub phase: ChangePhase,
}

/// A change by its contents.
pub struct ChangeView {
    pub path: Seq<u8>,
    pub accepted: Option<RegistryView>,
    pub phase: ChangePhaseView,
}

impl View for Change {
    type V = ChangeView;

    open spec fn view(&self) -> ChangeView {
        ChangeView {
            path: self.store.path@,
            accepted: match self.accepted {
                Some(registry) => Some(registry@),
                None => None,
            },
            phase: self.phase@,
        }
    }
}

/// What the directory of a configuration file asks for.
pub open spec fn parent_outcome(path: Seq<u8>, state: DirectoryState) -> Result<
    ParentAction,
    RegistryErrorView,
> {
    match parent(path) {
        None => Err(RegistryErrorView::EmptyConfigPath),
        Some(parent) => if parent.len() == 0 {
            Ok(ParentAction::Nothing)
        } else {
            match state {
                DirectoryState::Directory => Ok(ParentAction::Nothing),
                DirectoryState::Missing => Ok(ParentAction::CreatePrivate),
                DirectoryState::NotDirectory => Err(
                    RegistryErrorView::CreateConfigDirectory {
                        path: parent,
                        source: "path is not a directory"@,
                    },
                ),
                DirectoryState::Failed(source) => Err(
                    RegistryErrorView::CreateConfigDirectory { path: parent, source: source@ },
                ),
            }
        },
    }
}

/// The path of the mutation lock of a configuration file.
pub open spec fn lock_of(path: Seq<u8>) -> Seq<u8> {
    path + encode_utf8(".lock"@)
}

impl ChangeView {
    /// The beginning of a change.
    pub open spec fn start(path: Seq<u8>) -> ChangeView {
        ChangeView { path, accepted: None, phase: ChangePhaseView::InspectParent }
    }

    pub open spec fn in_phase(self, phase: ChangePhaseView) -> ChangeView {
        ChangeView { phase, ..self }
    }

    pub open spec fn failed(self, e: RegistryErrorView) -> ChangeView {
        self.in_phase(ChangePhaseView::Failed(e))
    }

    /// What is next where something has to be created: the action itself, once
    /// the change has given a valid registry, and until then the change.
    pub open spec fn creating(self, phase: ChangePhaseView) -> ChangeView {
        self.in_phase(
            if self.accepted is Some {
                phase
            } else {
                ChangePhaseView::Rehearse
            },
        )
    }

    /// The change when the state of the directory is known.
    pub open spec fn with_parent(self, state: DirectoryState) -> ChangeView {
        match parent_outcome(self.path, state) {
            Err(e) => self.failed(e),
            Ok(ParentAction::Nothing) => self.in_phase(ChangePhaseView::InspectLock),
            Ok(ParentAction::CreatePrivate) => self.creating(ChangePhaseView::CreateParent),
        }
    }

    /// The change when the state of the lock is known.
    pub open spec fn with_lock(self, state: EntryState) -> ChangeView {
        match state {
            EntryState::Symlink => self.failed(
                RegistryErrorView::SymlinkRejected { path: lock_of(self.path) },
            ),
            EntryState::Failed(source) => self.failed(
                RegistryErrorView::LockAcquire { path: lock_of(self.path), source: source@ },
            ),
            EntryState::Other => self.in_phase(ChangePhaseView::TakeLock { create: false }),
            EntryState::Missing => self.creating(ChangePhaseView::TakeLock { create: true }),
        }
    }

    /// The change when it has been applied; what follows a valid registry.
    pub open spec fn with_outcome(
        self,
        outcome: Result<AppRegistry, RegistryError>,
        phase: ChangePhaseView,
    ) -> ChangeView {
        match outcome {
            Err(e) => self.failed(e@),
            Ok(registry) => match registry_problem(normalized(registry@)) {
                Some(problem) => self.failed(RegistryErrorView::Validation(problem)),
                None => ChangeView { accepted: Some(normalized(registry@)), phase, ..self },
            },
        }
    }

    /// The change after an outcome. One that does not answer the phase changes
    /// nothing.
    pub open spec fn next(self, event: ChangeEvent) -> ChangeView {
        match (self.phase, event) {
            (ChangePhaseView::InspectParent, ChangeEvent::Parent(state)) => self.with_parent(state),
            (ChangePhaseView::InspectLock, ChangeEvent::Lock(state)) => self.with_lock(state),
            (ChangePhaseView::Rehearse, ChangeEvent::Changed(outcome)) => self.with_outcome(
                outcome,
                ChangePhaseView::InspectParent,
            ),
            (ChangePhaseView::CreateParent, ChangeEvent::ParentCreated) => self.in_phase(
                ChangePhaseView::InspectLock,
            ),
            (ChangePhaseView::CreateParent, ChangeEvent::ParentFailed(source)) => match parent(
                self.path,
            ) {
                Some(parent) => self.failed(
                    RegistryErrorView::CreateConfigDirectory { path: parent, source: source@ },
                ),
                None => self.failed(RegistryErrorView::EmptyConfigPath),
            },
            (ChangePhaseView::TakeLock { .. }, ChangeEvent::Locked) => self.in_phase(
                ChangePhaseView::Apply,
            ),
            (ChangePhaseView::TakeLock { create }, ChangeEvent::LockMissing(source)) => if create {
                self.failed(
                    RegistryErrorView::LockAcquire { path: lock_of(self.path), source: source@ },
                )
            } else {
                self.in_phase(ChangePhaseView::InspectParent)
            },
            (ChangePhaseView::TakeLock { .. }, ChangeEvent::LockFailed(source)) => self.failed(
                RegistryErrorView::LockAcquire { path: lock_of(self.path), source: source@ },
            ),
            (ChangePhaseView::Apply, ChangeEvent::Changed(outcome)) => self.with_outcome(
                outcome,
                ChangePhaseView::InspectConfig,
            ),
            (ChangePhaseView::InspectConfig, ChangeEvent::Config(state)) => {
                match replacement_obstacle(self.path, state) {
                    Some(obstacle) => self.failed(obstacle),
                    None => self.in_phase(ChangePhaseView::Write),
                }
            },
            (ChangePhaseView::Write, ChangeEvent::Written) => self.in_phase(
                ChangePhaseView::Finished,
            ),
            (ChangePhaseView::Write, ChangeEvent::WriteFailed(e)) => self.failed(e@),
            _ => self,
        }
    }

    /// The change after some outcomes.
    pub open spec fn after(self, events: Seq<ChangeEvent>) -> ChangeView
        decreases events.len(),
    {
        if events.len() == 0 {
            self
        } else {
            self.after(events.drop_last()).next(events.last())
        }
    }

    /// What was accepted is valid, and where something is created or written,
    /// something was accepted.
    pub open spec fn well_formed(self) -> bool {
        &&& self.accepted matches Some(registry) ==> valid(registry)
        &&& self.phase.creates() || self.phase is InspectConfig ==> self.accepted is Some
    }
}

/// A mutation has given a valid registry.
pub open spec fn gives_valid(event: ChangeEvent) -> bool {
    event matches ChangeEvent::Changed(Ok(registry)) && valid(normalized(registry@))
}

impl Change {
    /// Begin to change the registry of a store.
    pub fn begin(store: RegistryStore) -> (out: Change)
        ensures
            out.store == store,
            out@ == ChangeView::start(store.path@),
            out@.well_formed(),
    {
        Change { store, accepted: None, phase: ChangePhase::InspectParent }
    }

    fn create_phase(&self, phase: ChangePhase) -> (out: ChangePhase)
        ensures
            out@ == self@.creating(phase@).phase,
    {
        if self.accepted.is_some() {
            phase
        } else {
            ChangePhase::Rehearse
        }
    }

    fn take_parent(&mut self, state: DirectoryState)
        ensures
            final(self).store == old(self).store,
            final(self)@ == old(self)@.with_parent(state),
    {
        self.phase = match self.store.prepare_parent(state) {
            Err(e) => ChangePhase::Failed(e),
            Ok(ParentAction::Nothing) => ChangePhase::InspectLock,
            Ok(ParentAction::CreatePrivate) => self.create_phase(ChangePhase::CreateParent),
        };
    }

    fn take_lock_state(&mut self, state: EntryState)
        ensures
            final(self).store == old(self).store,
            final(self)@ == old(self)@.with_lock(state),
    {
        let missing = match &state {
            EntryState::Missing => true,
            _ => false,
        };
        self.phase = match self.store.check_lock(state) {
            Err(e) => ChangePhase::Failed(e),
            Ok(_) => if missing {
                self.create_phase(ChangePhase::TakeLock { create: true })
            } else {
                ChangePhase::TakeLock { create: false }
            },
        };
    }

    fn take_outcome(&mut self, outcome: Result<AppRegistry, RegistryError>, phase: ChangePhase)
        ensures
            final(self).store == old(self).store,
            final(self)@ == old(self)@.with_outcome(outcome, phase@),
    {
        match outcome {
            Err(e) => {
                self.phase = ChangePhase::Failed(e);
            },
            Ok(registry) => match canonical(&registry) {
                Err(e) => {
                    self.phase = ChangePhase::Failed(e);
                },
                Ok(accepted) => {
                    self.accepted = Some(accepted);
                    self.phase = phase;
                },
            },
        }
    }

    fn lock_failure(&self, source: String) -> (out: ChangePhase)
        ensures
            out@ == ChangePhaseView::Failed(
                RegistryErrorView::LockAcquire { path: lock_of(self@.path), source: source@ },
            ),
    {
        ChangePhase::Failed(RegistryError::LockAcquire { path: self.store.lock_path(), source })
    }

    /// Take in an outcome.
    ///
    /// To create the directory or the lock, or to write the file, is never the
    /// next action before the change has given a valid registry.
    pub fn step(&mut self, event: ChangeEvent)
        requires
            old(self)@.well_formed(),
        ensures
            final(self).store == old(self).store,
            final(self)@ == old(self)@.next(event),
            final(self)@.well_formed(),
            final(self)@.phase.creates() ==> old(self)@.accepted is Some || gives_valid(event),
            old(self)@.accepted is None && final(self)@.accepted is Some ==> gives_valid(event),
    {
        match (&self.phase, event) {
            (ChangePhase::InspectParent, ChangeEvent::Parent(state)) => {
                self.take_parent(state);
            },
            (ChangePhase::InspectLock, ChangeEvent::Lock(state)) => {
                self.take_lock_state(state);
            },
            (ChangePhase::Rehearse, ChangeEvent::Changed(outcome)) => {
                self.take_outcome(outcome, ChangePhase::InspectParent);
            },
            (ChangePhase::CreateParent, ChangeEvent::ParentCreated) => {
                self.phase = ChangePhase::InspectLock;
            },
            (ChangePhase::CreateParent, ChangeEvent::ParentFailed(source)) => {
                self.phase = ChangePhase::Failed(
                    match self.store.path.parent() {
                        Some(path) => RegistryError::CreateConfigDirectory { path, source },
                        None => RegistryError::EmptyConfigPath,
                    },
                );
            },
            (ChangePhase::TakeLock { .. }, ChangeEvent::Locked) => {
                self.phase = ChangePhase::Apply;
            },
            (ChangePhase::TakeLock { create }, ChangeEvent::LockMissing(source)) => {
                if *create {
                    self.phase = self.lock_failure(source);
                } else {
                    self.phase = ChangePhase::InspectParent;
                }
            },
            (ChangePhase::TakeLock { .. }, ChangeEvent::LockFailed(source)) => {
                self.phase = self.lock_failure(source);
            },
            (ChangePhase::Apply, ChangeEvent::Changed(outcome)) => {
                self.take_outcome(outcome, ChangePhase::InspectConfig);
            },
            (ChangePhase::InspectConfig, ChangeEvent::Config(state)) => {
                self.phase = match self.store.inspect(&state) {
                    Ok(_) => ChangePhase::Write,
                    Err(e) => ChangePhase::Failed(e),
                };
            },
            (ChangePhase::Write, ChangeEvent::Written) => {
                self.phase = ChangePhase::Finished;
            },
            (ChangePhase::Write, ChangeEvent::WriteFailed(e)) => {
                self.phase = ChangePhase::Failed(e);
            },
            _ => {},
        }
    }
}

} // verus!
