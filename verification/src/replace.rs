//! Replacing a file in one step: the new contents are written to a temporary
//! file next to it, which then takes its name.
//!
//! A [`Replacement`] decides and its caller acts. In each phase the caller
//! does what the phase asks for and hands the outcome to
//! [`Replacement::step`], until the phase is `Done` or `Failed`.
use vstd::prelude::*;
use vstd::string::StringExecFns;

use crate::path::{child, file_name, parent, path_text, UnixPath};
use crate::text::{decimal, decimal_text, lemma_decimal};

verus! {

/// How many names are tried for the temporary file.
pub const MAX_ATTEMPTS: u32 = 32;

/// What the caller has to do next.
#[derive(Debug, PartialEq, Eq)]
pub enum ReplacePhase {
    /// Create the temporary file, which must not exist, for the user alone.
    Create { attempt: u32 },
    /// Write the contents to it, flush and synchronize it, and set its mode.
    Fill,
    /// Look at the destination once more.
    Recheck,
    /// Give the temporary file the name of the destination.
    Rename,
    /// Synchronize the directory.
    Sync,
    /// Remove the temporary file after a failure; its message.
    Cleanup { source: String },
    Done,
    Failed { source: String },
}

/// A phase by its contents.
pub enum PhaseView {
    Create { attempt: u32 },
    Fill,
    Recheck,
    Rename,
    Sync,
    Cleanup { source: Seq<char> },
    Done,
    Failed { source: Seq<char> },
}

impl View for ReplacePhase {
    type V = PhaseView;

    open spec fn view(&self) -> PhaseView {
        match self {
            ReplacePhase::Create { attempt } => PhaseView::Create { attempt: *attempt },
            ReplacePhase::Fill => PhaseView::Fill,
            ReplacePhase::Recheck => PhaseView::Recheck,
            ReplacePhase::Rename => PhaseView::Rename,
            ReplacePhase::Sync => PhaseView::Sync,
            ReplacePhase::Cleanup { source } => PhaseView::Cleanup { source: source@ },
            ReplacePhase::Done => PhaseView::Done,
            ReplacePhase::Failed { source } => PhaseView::Failed { source: source@ },
        }
    }
}

/// What stands at the destination.
#[derive(Debug, PartialEq, Eq)]
pub enum Destination {
    Missing,
    /// A file that may be replaced.
    Replaceable,
    Symlink,
    /// A file that belongs to someone else.
    Unowned,
    NotFile,
    /// It could not be inspected; the system's message.
    Failed(String),
}

/// What stands at the directory of the destination.
#[derive(Debug, PartialEq, Eq)]
pub enum DirectoryState {
    Directory,
    NotDirectory,
    Missing,
    /// The directory could not be inspected; the system's message.
    Failed(String),
}

/// What came of the last action. A failure comes with the system's message.
#[derive(Debug, PartialEq, Eq)]
pub enum ReplaceEvent {
    Succeeded,
    /// The temporary file could not be created because there is such a file.
    AlreadyExists,
    /// The temporary file could not be removed because there is none.
    Missing,
    Failed(String),
    Seen(Destination),
}

/// How a replacement reports.
#[derive(Clone, Copy, Debug, PartialEq, Eq, Structural)]
pub enum ReplaceStyle {
    /// A configuration file: a failure to clean up is reported too.
    Configuration,
    /// An integration file.
    Integration,
}

/// The replacement of one file.
#[derive(Debug, PartialEq, Eq)]
pub struct Replacement {
    pub style: ReplaceStyle,
    /// The directory of the destination.
    pub directory: UnixPath,
    /// The name of the destination.
    pub name: String,
    /// The identifier of the process, which is part of temporary names.
    pub process: u32,
    /// The number in the current temporary name.
    pub sequence: u64,
    pub phase: ReplacePhase,
}

/// A replacement by its contents.
pub struct ReplacementView {
    pub style: ReplaceStyle,
    pub directory: Seq<u8>,
    pub name: Seq<char>,
    pub process: u32,
    pub sequence: u64,
    pub phase: PhaseView,
}

impl View for Replacement {
    type V = ReplacementView;

    open spec fn view(&self) -> ReplacementView {
        ReplacementView {
            style: self.style,
            directory: self.directory@,
            name: self.name@,
            process: self.process,
            sequence: self.sequence,
            phase: self.phase@,
        }
    }
}

/// Why the destination, seen again, may not be replaced.
pub open spec fn obstacle(seen: Destination) -> Option<Seq<char>> {
    match seen {
        Destination::Missing | Destination::Replaceable => None,
        Destination::Symlink => Some("destination became a symlink"@),
        Destination::Unowned => Some("destination became an unowned file"@),
        Destination::NotFile => Some("destination became a non-file"@),
        Destination::Failed(source) => Some(source@),
    }
}

pub open spec fn exhausted(style: ReplaceStyle) -> Seq<char> {
    match style {
        ReplaceStyle::Configuration => "could not create a unique temporary configuration file"@,
        ReplaceStyle::Integration => "no temporary filename available"@,
    }
}

/// What is reported of a failure where cleaning up failed too.
pub open spec fn cleanup_failure(style: ReplaceStyle, source: Seq<char>, cleanup: Seq<char>) -> Seq<
    char,
> {
    match style {
        ReplaceStyle::Configuration => source + "; temporary cleanup also failed: "@ + cleanup,
        ReplaceStyle::Integration => source,
    }
}

impl ReplacementView {
    pub open spec fn in_phase(self, phase: PhaseView) -> ReplacementView {
        ReplacementView { phase, ..self }
    }

    /// The name of the current temporary file.
    pub open spec fn temporary_name(self) -> Seq<char> {
        "."@ + self.name + ".tmp-"@ + decimal(self.process as nat) + "-"@ + decimal(
            self.sequence as nat,
        )
    }

    /// The path of the current temporary file.
    pub open spec fn temporary(self) -> Seq<u8> {
        child(self.directory, self.temporary_name())
    }

    /// The replacement after an outcome. One that does not answer the phase
    /// changes nothing.
    pub open spec fn next(self, event: ReplaceEvent) -> ReplacementView {
        match (self.phase, event) {
            (PhaseView::Create { attempt }, ReplaceEvent::Succeeded) => self.in_phase(
                PhaseView::Fill,
            ),
            (PhaseView::Create { attempt }, ReplaceEvent::AlreadyExists) => {
                let renumbered = ReplacementView {
                    sequence: if self.sequence == u64::MAX {
                        0
                    } else {
                        (self.sequence + 1) as u64
                    },
                    ..self
                };
                if attempt + 1 < MAX_ATTEMPTS {
                    renumbered.in_phase(PhaseView::Create { attempt: (attempt + 1) as u32 })
                } else {
                    renumbered.in_phase(PhaseView::Failed { source: exhausted(self.style) })
                }
            },
            (PhaseView::Create { attempt }, ReplaceEvent::Failed(source)) => self.in_phase(
                PhaseView::Failed { source: source@ },
            ),
            (PhaseView::Fill, ReplaceEvent::Succeeded) => self.in_phase(PhaseView::Recheck),
            (PhaseView::Recheck, ReplaceEvent::Seen(seen)) => match obstacle(seen) {
                None => self.in_phase(PhaseView::Rename),
                Some(source) => self.in_phase(PhaseView::Cleanup { source }),
            },
            (PhaseView::Rename, ReplaceEvent::Succeeded) => self.in_phase(PhaseView::Sync),
            (PhaseView::Sync, ReplaceEvent::Succeeded) => self.in_phase(PhaseView::Done),
            (
                PhaseView::Fill | PhaseView::Rename | PhaseView::Sync,
                ReplaceEvent::Failed(source),
            ) => self.in_phase(PhaseView::Cleanup { source: source@ }),
            (
                PhaseView::Cleanup { source },
                ReplaceEvent::Succeeded | ReplaceEvent::Missing,
            ) => self.in_phase(PhaseView::Failed { source }),
            (PhaseView::Cleanup { source }, ReplaceEvent::Failed(cleanup)) => self.in_phase(
                PhaseView::Failed { source: cleanup_failure(self.style, source, cleanup@) },
            ),
            _ => self,
        }
    }

    /// The replacement after some outcomes.
    pub open spec fn after(self, events: Seq<ReplaceEvent>) -> ReplacementView
        decreases events.len(),
    {
        if events.len() == 0 {
            self
        } else {
            self.after(events.drop_last()).next(events.last())
        }
    }
}

/// The directory in which a file is replaced.
pub open spec fn replace_directory(path: Seq<u8>) -> Seq<u8> {
    match parent(path) {
        Some(directory) => if directory.len() == 0 {
            vstd::utf8::encode_utf8("."@)
        } else {
            directory
        },
        None => vstd::utf8::encode_utf8("."@),
    }
}

/// The name under which a file is replaced, where it is text.
pub open spec fn replace_name(path: Seq<u8>) -> Option<Seq<char>> {
    match file_name(path) {
        Some(name) => path_text(name),
        None => None,
    }
}

fn next_number(n: u64) -> (out: u64)
    ensures
        out == if n == u64::MAX {
            0
        } else {
            n + 1
        },
{
    if n == u64::MAX {
        0
    } else {
        n + 1
    }
}

fn find_obstacle(seen: Destination) -> (out: Option<String>)
    ensures
        crate::text::optional_text_view(out) == obstacle(seen),
{
    match seen {
        Destination::Missing | Destination::Replaceable => None,
        Destination::Symlink => Some("destination became a symlink".to_owned()),
        Destination::Unowned => Some("destination became an unowned file".to_owned()),
        Destination::NotFile => Some("destination became a non-file".to_owned()),
        Destination::Failed(source) => Some(source),
    }
}

fn exhausted_text(style: ReplaceStyle) -> (out: String)
    ensures
        out@ == exhausted(style),
{
    match style {
        ReplaceStyle::Configuration => {
            "could not create a unique temporary configuration file".to_owned()
        },
        ReplaceStyle::Integration => "no temporary filename available".to_owned(),
    }
}

impl Replacement {
    /// Begin to replace a file. There is no replacement where the path does
    /// not end in a name that is text.
    pub fn begin(path: &UnixPath, style: ReplaceStyle, process: u32, sequence: u64) -> (out: Option<
        Replacement,
    >)
        ensures
            match replace_name(path@) {
                None => out is None,
                Some(name) => out is Some && out->0@ == (ReplacementView {
                    style,
                    directory: replace_directory(path@),
                    name,
                    process,
                    sequence,
                    phase: PhaseView::Create { attempt: 0 },
                }),
            },
    {
        let name = match path.file_name() {
            None => {
                return None;
            },
            Some(name) => match name.to_text() {
                None => {
                    return None;
                },
                Some(name) => name,
            },
        };
        let directory = match path.parent() {
            Some(directory) => if directory.bytes.len() == 0 {
                UnixPath::from_text(".")
            } else {
                directory
            },
            None => UnixPath::from_text("."),
        };
        Some(
            Replacement {
                style,
                directory,
                name,
                process,
                sequence,
                phase: ReplacePhase::Create { attempt: 0 },
            },
        )
    }

    /// The path of the current temporary file.
    pub fn temporary(&self) -> (out: UnixPath)
        ensures
            out@ == self@.temporary(),
    {
        let name = ".".to_owned().concat(self.name.as_str()).concat(".tmp-").concat(
            decimal_text(self.process as u64).as_str(),
        ).concat("-").concat(decimal_text(self.sequence).as_str());
        self.directory.join(name.as_str())
    }

    fn in_phase(self, phase: ReplacePhase) -> (out: Replacement)
        ensures
            out@ == self@.in_phase(phase@),
    {
        Replacement { phase, ..self }
    }

    /// The replacement after an outcome.
    pub fn step(self, event: ReplaceEvent) -> (out: Replacement)
        ensures
            out@ == self@.next(event),
    {
        let Replacement { style, directory, name, process, sequence, phase } = self;
        let base = Replacement {
            style,
            directory,
            name,
            process,
            sequence,
            phase: ReplacePhase::Done,
        };
        match (phase, event) {
            (ReplacePhase::Create { attempt }, ReplaceEvent::Succeeded) => base.in_phase(
                ReplacePhase::Fill,
            ),
            (ReplacePhase::Create { attempt }, ReplaceEvent::AlreadyExists) => {
                let mut renumbered = base;
                renumbered.sequence = next_number(sequence);
                if attempt < MAX_ATTEMPTS - 1 {
                    renumbered.in_phase(ReplacePhase::Create { attempt: attempt + 1 })
                } else {
                    renumbered.in_phase(ReplacePhase::Failed { source: exhausted_text(style) })
                }
            },
            (ReplacePhase::Create { attempt }, ReplaceEvent::Failed(source)) => base.in_phase(
                ReplacePhase::Failed { source },
            ),
            (ReplacePhase::Fill, ReplaceEvent::Succeeded) => base.in_phase(ReplacePhase::Recheck),
            (ReplacePhase::Recheck, ReplaceEvent::Seen(seen)) => match find_obstacle(seen) {
                None => base.in_phase(ReplacePhase::Rename),
                Some(source) => base.in_phase(ReplacePhase::Cleanup { source }),
            },
            (ReplacePhase::Rename, ReplaceEvent::Succeeded) => base.in_phase(ReplacePhase::Sync),
            (ReplacePhase::Sync, ReplaceEvent::Succeeded) => base.in_phase(ReplacePhase::Done),
            (
                ReplacePhase::Fill | ReplacePhase::Rename | ReplacePhase::Sync,
                ReplaceEvent::Failed(source),
            ) => base.in_phase(ReplacePhase::Cleanup { source }),
            (
                ReplacePhase::Cleanup { source },
                ReplaceEvent::Succeeded | ReplaceEvent::Missing,
            ) => base.in_phase(ReplacePhase::Failed { source }),
            (ReplacePhase::Cleanup { source }, ReplaceEvent::Failed(cleanup)) => {
                let source = match style {
                    ReplaceStyle::Configuration => source.concat(
                        "; temporary cleanup also failed: ",
                    ).concat(cleanup.as_str()),
                    ReplaceStyle::Integration => source,
                };
                base.in_phase(ReplacePhase::Failed { source })
            },
            (phase, _) => base.in_phase(phase),
        }
    }
}

/// The destination is renamed over only after it was seen to be missing or
/// replaceable: a replacement that has come past the renaming got such an
/// outcome.
pub proof fn replaces_only_what_it_may(start: ReplacementView, events: Seq<ReplaceEvent>)
    requires
        start.phase is Create,
        ({
            let phase = start.after(events).phase;
            phase is Rename || phase is Sync || phase is Done
        }),
    ensures
        exists|i: int|
            0 <= i < events.len() && (#[trigger] events[i] matches ReplaceEvent::Seen(seen)
                && obstacle(seen) is None),
    decreases events.len(),
{
    let front = events.drop_last();
    let phase = start.after(front).phase;
    if phase is Rename || phase is Sync || phase is Done {
        replaces_only_what_it_may(start, front);
        let i = choose|i: int|
            0 <= i < front.len() && (#[trigger] front[i] matches ReplaceEvent::Seen(seen)
                && obstacle(seen) is None);
        assert(events[i] == front[i]);
    } else {
        assert(events[events.len() - 1] == events.last());
    }
}

/// Once the temporary file was created, a replacement does not fail before it
/// has asked for its removal.
pub proof fn failure_cleans_up(state: ReplacementView, event: ReplaceEvent)
    requires
        state.next(event).phase is Failed,
    ensures
        state.phase is Failed || state.phase is Cleanup || state.phase is Create,
        state.phase is Create ==> event !is Succeeded,
{
}

/// At most [`MAX_ATTEMPTS`] temporary names are tried, and the destination
/// stays the same.
pub proof fn attempts_are_bounded(start: ReplacementView, events: Seq<ReplaceEvent>)
    requires
        start.phase == (PhaseView::Create { attempt: 0 }),
    ensures
        start.after(events).phase matches PhaseView::Create { attempt } ==> attempt < MAX_ATTEMPTS,
        start.after(events).directory == start.directory,
        start.after(events).name == start.name,
    decreases events.len(),
{
    if events.len() > 0 {
        attempts_are_bounded(start, events.drop_last());
    }
}

/// A replacement comes to each phase from the one before it alone, by success:
/// the temporary file is created, filled, then the destination is looked at,
/// the file renamed, and the directory synchronized.
pub proof fn replacements_go_step_by_step(state: ReplacementView, event: ReplaceEvent)
    requires
        state.next(event).phase != state.phase,
    ensures
        ({
            let to = state.next(event).phase;
            let success = event is Succeeded;
            &&& to is Fill ==> state.phase is Create && success
            &&& to is Recheck ==> state.phase is Fill && success
            &&& to is Rename ==> state.phase is Recheck && (event matches ReplaceEvent::Seen(seen)
                && (seen is Missing || seen is Replaceable))
            &&& to is Sync ==> state.phase is Rename && success
            &&& to is Done ==> state.phase is Sync && success
            &&& to is Create ==> state.phase is Create && event is AlreadyExists
        }),
{
}

/// Where nothing goes wrong a replacement is done, in five steps.
pub proof fn undisturbed_replacements_are_done(state: ReplacementView, seen: Destination)
    requires
        state.phase is Create,
        seen is Missing || seen is Replaceable,
    ensures
        state.next(ReplaceEvent::Succeeded).next(ReplaceEvent::Succeeded).next(
            ReplaceEvent::Seen(seen),
        ).next(ReplaceEvent::Succeeded).next(ReplaceEvent::Succeeded).phase is Done,
{
}

/// A failure after the temporary file was created is the one that is reported
/// once the file is removed.
pub proof fn failures_are_reported_after_cleaning(state: ReplacementView, source: String)
    requires
        state.phase is Fill || state.phase is Rename || state.phase is Sync,
    ensures
        state.next(ReplaceEvent::Failed(source)).phase == (PhaseView::Cleanup { source: source@ }),
        state.next(ReplaceEvent::Failed(source)).next(ReplaceEvent::Succeeded).phase == (
        PhaseView::Failed { source: source@ }),
        state.next(ReplaceEvent::Failed(source)).next(ReplaceEvent::Missing).phase == (
        PhaseView::Failed { source: source@ }),
{
}

/// The temporary file stands in the directory of the destination, and each
/// attempt has another name for it.
pub proof fn attempts_have_different_names(state: ReplacementView)
    requires
        state.phase is Create,
    ensures
        state.next(ReplaceEvent::AlreadyExists).temporary_name() != state.temporary_name(),
        state.temporary() == child(state.directory, state.temporary_name()),
        state.next(ReplaceEvent::AlreadyExists).directory == state.directory,
{
    let after = state.next(ReplaceEvent::AlreadyExists);
    let front = "."@ + state.name + ".tmp-"@ + decimal(state.process as nat) + "-"@;
    lemma_decimal(state.sequence as nat);
    lemma_decimal(after.sequence as nat);
    let a = state.temporary_name();
    let b = after.temporary_name();
    assert(a.skip(front.len() as int) =~= decimal(state.sequence as nat));
    assert(b.skip(front.len() as int) =~= decimal(after.sequence as nat));
}

} // verus!
