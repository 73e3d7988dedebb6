//! Writing and removing the files that the launcher owns, never those of the
//! user.
//!
//! An [`AtomicWrite`] decides and its caller acts, as with the
//! [`Replacement`] that it ends in.
use vstd::prelude::*;

use super::error::{IntegrationError, IntegrationErrorView};
use super::files::{
    ownership_failure, regular_text, read_optional_regular, reject_unowned, FileState, OwnedFile,
    OwnedView,
};
use super::paths::{failure, user_root_failure, validate_user_root, AncestorState};
use crate::path::{parent, UnixPath};
use crate::replace::{
    obstacle, replace_directory, replace_name, Destination, DirectoryState, PhaseView, ReplaceEvent,
    ReplacePhase, ReplaceStyle, Replacement, ReplacementView,
};

verus! {

/// What the caller has to do next.
#[derive(Debug, PartialEq, Eq)]
pub enum WritePhase {
    /// Look at the directory and those above it.
    InspectRoot,
    /// Look whether the directory is there.
    InspectDirectory,
    /// Create the directory and those above it, for the user alone.
    CreateDirectory,
    /// Look at the destination.
    InspectDestination,
    /// Do what the replacement asks for.
    Replacing(Replacement),
    Done,
    Rejected(IntegrationError),
}

/// A phase by its contents.
pub enum WritePhaseView {
    InspectRoot,
    InspectDirectory,
    CreateDirectory,
    InspectDestination,
    Replacing(ReplacementView),
    Done,
    Rejected(IntegrationErrorView),
}

impl View for WritePhase {
    type V = WritePhaseView;

    open spec fn view(&self) -> WritePhaseView {
        match self {
            WritePhase::InspectRoot => WritePhaseView::InspectRoot,
            WritePhase::InspectDirectory => WritePhaseView::InspectDirectory,
            WritePhase::CreateDirectory => WritePhaseView::CreateDirectory,
            WritePhase::InspectDestination => WritePhaseView::InspectDestination,
            WritePhase::Replacing(replacement) => WritePhaseView::Replacing(replacement@),
            WritePhase::Done => WritePhaseView::Done,
            WritePhase::Rejected(e) => WritePhaseView::Rejected(e@),
        }
    }
}

/// What came of the last action.
#[derive(Debug, PartialEq, Eq)]
pub enum WriteEvent {
    /// The states of the directory and of those above it, and the effective
    /// user.
    Root { states: Vec<AncestorState>, user: u32 },
    Directory(DirectoryState),
    Destination(FileState),
    /// What came of creating the directory or of a step of the replacement.
    Outcome(ReplaceEvent),
}

/// The writing of one file.
#[derive(Debug, PartialEq, Eq)]
pub struct AtomicWrite {
    pub path: UnixPath,
    /// The directory of the file.
    pub directory: UnixPath,
    /// Which files at the path may be replaced.
    pub owned: OwnedFile,
    /// The identifier of the process, which is part of temporary names.
    pub process: u32,
    /// The first number for temporary names.
    pub sequence: u64,
    pub phase: WritePhase,
}

/// A write by its contents.
pub struct WriteView {
    pub path: Seq<u8>,
    pub directory: Seq<u8>,
    pub owned: OwnedView,
    pub process: u32,
    pub sequence: u64,
    pub phase: WritePhaseView,
}

impl View for AtomicWrite {
    type V = WriteView;

    open spec fn view(&self) -> WriteView {
        WriteView {
            path: self.path@,
            directory: self.directory@,
            owned: self.owned@,
            process: self.process,
            sequence: self.sequence,
            phase: self.phase@,
        }
    }
}

/// What a file at the destination is to its replacement.
pub open spec fn destination_of(owned: OwnedView, state: FileState) -> Destination {
    match state {
        FileState::Missing => Destination::Missing,
        FileState::Symlink => Destination::Symlink,
        FileState::NotFile => Destination::NotFile,
        FileState::Text(text) => if owned.owns(text@) {
            Destination::Replaceable
        } else {
            Destination::Unowned
        },
        FileState::Unreadable(source) => Destination::Failed(source),
        FileState::Failed(source) => Destination::Failed(source),
    }
}

fn see_destination(owned: &OwnedFile, state: FileState) -> (out: Destination)
    ensures
        out == destination_of(owned@, state),
{
    match state {
        FileState::Missing => Destination::Missing,
        FileState::Symlink => Destination::Symlink,
        FileState::NotFile => Destination::NotFile,
        FileState::Text(text) => if owned.owns(text.as_str()) {
            Destination::Replaceable
        } else {
            Destination::Unowned
        },
        FileState::Unreadable(source) => Destination::Failed(source),
        FileState::Failed(source) => Destination::Failed(source),
    }
}

impl WriteView {
    pub open spec fn in_phase(self, phase: WritePhaseView) -> WriteView {
        WriteView { phase, ..self }
    }

    pub open spec fn rejected(self, e: IntegrationErrorView) -> WriteView {
        self.in_phase(WritePhaseView::Rejected(e))
    }

    /// The write with its replacement in the given state.
    pub open spec fn with_replacement(self, replacement: ReplacementView) -> WriteView {
        match replacement.phase {
            PhaseView::Done => self.in_phase(WritePhaseView::Done),
            PhaseView::Failed { source } => self.rejected(
                IntegrationErrorView::FileSystem { path: self.path, source },
            ),
            _ => self.in_phase(WritePhaseView::Replacing(replacement)),
        }
    }

    /// The write when it is known what stands at the destination.
    pub open spec fn with_destination(self, state: FileState) -> WriteView {
        match ownership_failure(self.path, self.owned, state@) {
            Some(e) => self.rejected(e),
            None => match replace_name(self.path) {
                None => self.rejected(
                    IntegrationErrorView::InvalidPath {
                        field: "integration destination"@,
                        path: self.path,
                        reason: "the filename is not valid UTF-8"@,
                    },
                ),
                Some(name) => self.in_phase(
                    WritePhaseView::Replacing(
                        ReplacementView {
                            style: ReplaceStyle::Integration,
                            directory: replace_directory(self.path),
                            name,
                            process: self.process,
                            sequence: self.sequence,
                            phase: PhaseView::Create { attempt: 0 },
                        },
                    ),
                ),
            },
        }
    }

    /// The write when it is known what stands at the directory.
    pub open spec fn with_directory(self, state: DirectoryState) -> WriteView {
        match state {
            DirectoryState::Directory => self.in_phase(WritePhaseView::InspectDestination),
            DirectoryState::Missing => self.in_phase(WritePhaseView::CreateDirectory),
            DirectoryState::NotDirectory => self.rejected(
                IntegrationErrorView::FileSystem {
                    path: self.directory,
                    source: "path is not a directory"@,
                },
            ),
            DirectoryState::Failed(source) => self.rejected(
                IntegrationErrorView::FileSystem { path: self.directory, source: source@ },
            ),
        }
    }

    /// The write after an outcome. One that does not answer the phase changes
    /// nothing.
    pub open spec fn next(self, event: WriteEvent) -> WriteView {
        match (self.phase, event) {
            (WritePhaseView::InspectRoot, WriteEvent::Root { states, user }) => {
                match user_root_failure(
                    self.directory,
                    "integration destination"@,
                    states@,
                    user,
                ) {
                    Some(e) => self.rejected(e),
                    None => self.in_phase(WritePhaseView::InspectDirectory),
                }
            },
            (WritePhaseView::InspectDirectory, WriteEvent::Directory(state)) => {
                self.with_directory(state)
            },
            (WritePhaseView::CreateDirectory, WriteEvent::Outcome(ReplaceEvent::Succeeded)) => {
                self.in_phase(WritePhaseView::InspectDestination)
            },
            (
                WritePhaseView::CreateDirectory,
                WriteEvent::Outcome(ReplaceEvent::Failed(source)),
            ) => self.rejected(
                IntegrationErrorView::FileSystem { path: self.directory, source: source@ },
            ),
            (WritePhaseView::InspectDestination, WriteEvent::Destination(state)) => {
                self.with_destination(state)
            },
            (WritePhaseView::Replacing(replacement), WriteEvent::Destination(state)) => {
                self.with_replacement(
                    replacement.next(ReplaceEvent::Seen(destination_of(self.owned, state))),
                )
            },
            (WritePhaseView::Replacing(replacement), WriteEvent::Outcome(outcome)) => {
                if outcome is Seen {
                    self
                } else {
                    self.with_replacement(replacement.next(outcome))
                }
            },
            _ => self,
        }
    }

    /// The write after some outcomes.
    pub open spec fn after(self, events: Seq<WriteEvent>) -> WriteView
        decreases events.len(),
    {
        if events.len() == 0 {
            self
        } else {
            self.after(events.drop_last()).next(events.last())
        }
    }
}

pub open spec fn no_parent(path: Seq<u8>) -> IntegrationErrorView {
    IntegrationErrorView::InvalidPath {
        field: "integration destination"@,
        path,
        reason: "the path has no parent directory"@,
    }
}

fn no_parent_error(path: &UnixPath) -> (out: IntegrationError)
    ensures
        out@ == no_parent(path@),
{
    IntegrationError::InvalidPath {
        field: "integration destination".to_owned(),
        path: path.clone(),
        reason: "the path has no parent directory".to_owned(),
    }
}

impl AtomicWrite {
    /// Begin to write a file in place of one that is missing or owned.
    pub fn begin(path: UnixPath, owned: OwnedFile, process: u32, sequence: u64) -> (out: Result<
        AtomicWrite,
        IntegrationError,
    >)
        ensures
            match parent(path@) {
                None => out matches Err(e) && e@ == no_parent(path@),
                Some(directory) => out matches Ok(write) && write@ == (WriteView {
                    path: path@,
                    directory,
                    owned: owned@,
                    process,
                    sequence,
                    phase: WritePhaseView::InspectRoot,
                }),
            },
    {
        match path.parent() {
            None => Err(no_parent_error(&path)),
            Some(directory) => Ok(
                AtomicWrite {
                    path,
                    directory,
                    owned,
                    process,
                    sequence,
                    phase: WritePhase::InspectRoot,
                },
            ),
        }
    }

    fn in_phase(self, phase: WritePhase) -> (out: AtomicWrite)
        ensures
            out@ == self@.in_phase(phase@),
    {
        AtomicWrite { phase, ..self }
    }

    fn rejected(self, e: IntegrationError) -> (out: AtomicWrite)
        ensures
            out@ == self@.rejected(e@),
    {
        self.in_phase(WritePhase::Rejected(e))
    }

    fn with_replacement(self, replacement: Replacement) -> (out: AtomicWrite)
        ensures
            out@ == self@.with_replacement(replacement@),
    {
        let Replacement { style, directory, name, process, sequence, phase } = replacement;
        match phase {
            ReplacePhase::Done => self.in_phase(WritePhase::Done),
            ReplacePhase::Failed { source } => {
                let path = self.path.clone();
                self.rejected(IntegrationError::FileSystem { path, source })
            },
            phase => self.in_phase(
                WritePhase::Replacing(
                    Replacement { style, directory, name, process, sequence, phase },
                ),
            ),
        }
    }

    fn with_destination(self, state: FileState) -> (out: AtomicWrite)
        ensures
            out@ == self@.with_destination(state),
    {
        match reject_unowned(&self.path, &self.owned, &state) {
            Ok(_) => {},
            Err(e) => {
                return self.rejected(e);
            },
        }
        match Replacement::begin(
            &self.path,
            ReplaceStyle::Integration,
            self.process,
            self.sequence,
        ) {
            Some(replacement) => self.in_phase(WritePhase::Replacing(replacement)),
            None => {
                let path = self.path.clone();
                self.rejected(
                    IntegrationError::InvalidPath {
                        field: "integration destination".to_owned(),
                        path,
                        reason: "the filename is not valid UTF-8".to_owned(),
                    },
                )
            },
        }
    }

    fn with_directory(self, state: DirectoryState) -> (out: AtomicWrite)
        ensures
            out@ == self@.with_directory(state),
    {
        match state {
            DirectoryState::Directory => self.in_phase(WritePhase::InspectDestination),
            DirectoryState::Missing => self.in_phase(WritePhase::CreateDirectory),
            DirectoryState::NotDirectory => {
                let path = self.directory.clone();
                self.rejected(
                    IntegrationError::FileSystem {
                        path,
                        source: "path is not a directory".to_owned(),
                    },
                )
            },
            DirectoryState::Failed(source) => {
                let path = self.directory.clone();
                self.rejected(IntegrationError::FileSystem { path, source })
            },
        }
    }

    /// The write after an outcome.
    pub fn step(self, event: WriteEvent) -> (out: AtomicWrite)
        ensures
            out@ == self@.next(event),
    {
        let AtomicWrite { path, directory, owned, process, sequence, phase } = self;
        let base = AtomicWrite {
            path,
            directory,
            owned,
            process,
            sequence,
            phase: WritePhase::Done,
        };
        match (phase, event) {
            (WritePhase::InspectRoot, WriteEvent::Root { states, user }) => {
                match validate_user_root(
                    &base.directory,
                    "integration destination",
                    &states,
                    user,
                ) {
                    Ok(_) => base.in_phase(WritePhase::InspectDirectory),
                    Err(e) => base.rejected(e),
                }
            },
            (WritePhase::InspectDirectory, WriteEvent::Directory(state)) => {
                base.with_directory(state)
            },
            (WritePhase::CreateDirectory, WriteEvent::Outcome(ReplaceEvent::Succeeded)) => {
                base.in_phase(WritePhase::InspectDestination)
            },
            (WritePhase::CreateDirectory, WriteEvent::Outcome(ReplaceEvent::Failed(source))) => {
                let path = base.directory.clone();
                base.rejected(IntegrationError::FileSystem { path, source })
            },
            (WritePhase::InspectDestination, WriteEvent::Destination(state)) => {
                base.with_destination(state)
            },
            (WritePhase::Replacing(replacement), WriteEvent::Destination(state)) => {
                let seen = see_destination(&base.owned, state);
                base.with_replacement(replacement.step(ReplaceEvent::Seen(seen)))
            },
            (
                WritePhase::Replacing(replacement),
                WriteEvent::Outcome(ReplaceEvent::Seen(_)),
            ) => base.in_phase(WritePhase::Replacing(replacement)),
            (WritePhase::Replacing(replacement), WriteEvent::Outcome(outcome)) => {
                base.with_replacement(replacement.step(outcome))
            },
            (phase, _) => base.in_phase(phase),
        }
    }
}

/// A file that may be replaced: there is none, or it is an owned one.
pub open spec fn may_replace(owned: OwnedView, state: FileState) -> bool {
    obstacle(destination_of(owned, state)) is None
}

/// The outcome at a position is that the destination, looked at once more
/// with the new contents ready, may be replaced.
pub open spec fn cleared(start: WriteView, events: Seq<WriteEvent>, i: int) -> bool {
    &&& start.after(events.take(i)).phase matches WritePhaseView::Replacing(replacement)
    &&& replacement.phase is Recheck
    &&& events[i] matches WriteEvent::Destination(state)
    &&& may_replace(start.owned, state)
}

spec fn past_recheck(phase: WritePhaseView) -> bool {
    ||| phase is Done
    ||| phase matches WritePhaseView::Replacing(replacement) && (replacement.phase is Rename
        || replacement.phase is Sync || replacement.phase is Done)
}

proof fn lemma_past_recheck(start: WriteView, events: Seq<WriteEvent>)
    requires
        start.phase is InspectRoot,
        past_recheck(start.after(events).phase),
    ensures
        start.after(events).owned == start.owned,
        exists|i: int| 0 <= i < events.len() && #[trigger] cleared(start, events, i),
    decreases events.len(),
{
    let front = events.drop_last();
    let before = start.after(front);
    lemma_owned_is_kept(start, front);
    lemma_owned_is_kept(start, events);
    if past_recheck(before.phase) {
        lemma_past_recheck(start, front);
        let i = choose|i: int| 0 <= i < front.len() && #[trigger] cleared(start, front, i);
        assert(front.take(i) =~= events.take(i));
        assert(cleared(start, events, i));
    } else {
        let last = events.len() - 1;
        assert(events.take(last) =~= front);
        assert(cleared(start, events, last));
    }
}

proof fn lemma_owned_is_kept(start: WriteView, events: Seq<WriteEvent>)
    ensures
        start.after(events).owned == start.owned,
        start.after(events).path == start.path,
    decreases events.len(),
{
    if events.len() > 0 {
        lemma_owned_is_kept(start, events.drop_last());
    }
}

/// A file of the user is never overwritten: a write is done, or has renamed,
/// only after it saw, with the new contents ready, that the destination was
/// missing or owned.
pub proof fn writes_only_over_owned(start: WriteView, events: Seq<WriteEvent>)
    requires
        start.phase is InspectRoot,
        ({
            let phase = start.after(events).phase;
            phase is Done || (phase matches WritePhaseView::Replacing(replacement) && (
            replacement.phase is Rename || replacement.phase is Sync))
        }),
    ensures
        exists|i: int| 0 <= i < events.len() && #[trigger] cleared(start, events, i),
{
    lemma_past_recheck(start, events);
}

/// Why a file may not be removed.
pub open spec fn removal_failure(
    path: Seq<u8>,
    owned: OwnedView,
    states: Seq<AncestorState>,
    user: u32,
    state: FileState,
) -> Option<IntegrationErrorView> {
    match parent(path) {
        None => Some(no_parent(path)),
        Some(directory) => match user_root_failure(
            directory,
            "integration destination"@,
            states,
            user,
        ) {
            Some(e) => Some(e),
            None => match regular_text(path, state@) {
                Err(e) => Some(e),
                Ok(None) => Some(
                    IntegrationErrorView::FileSystem { path, source: "owned file disappeared"@ },
                ),
                Ok(Some(text)) => if owned.owns(text) {
                    None
                } else {
                    Some(IntegrationErrorView::UnownedFile { path })
                },
            },
        },
    }
}

/// Whether a file may be removed. The states are those of its directory and
/// of the directories above.
pub fn check_removal(
    path: &UnixPath,
    owned: &OwnedFile,
    states: &Vec<AncestorState>,
    user: u32,
    state: &FileState,
) -> (out: Result<(), IntegrationError>)
    ensures
        failure(out) == removal_failure(path@, owned@, states@, user, *state),
{
    let directory = match path.parent() {
        None => {
            return Err(no_parent_error(path));
        },
        Some(directory) => directory,
    };
    match validate_user_root(&directory, "integration destination", states, user) {
        Ok(_) => {},
        Err(e) => {
            return Err(e);
        },
    }
    match read_optional_regular(path, state) {
        Err(e) => Err(e),
        Ok(None) => Err(
            IntegrationError::FileSystem {
                path: path.clone(),
                source: "owned file disappeared".to_owned(),
            },
        ),
        Ok(Some(text)) => if owned.owns(text.as_str()) {
            Ok(())
        } else {
            Err(IntegrationError::UnownedFile { path: path.clone() })
        },
    }
}

} // verus!
