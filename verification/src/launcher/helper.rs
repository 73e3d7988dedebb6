//! The helper process: it takes on the policy of an application, tells so, and
//! becomes the target.
//!
//! An [`ExecHelper`] decides and its caller acts. In each phase the caller
//! does what the phase asks for and hands the outcome to
//! [`ExecHelper::step`], until the target has replaced the process or the
//! phase is `Stopped`.
use vstd::prelude::*;

use super::acknowledgement::AcknowledgementMessage;
use super::error::{error_stage, launcher_error_text, LauncherError, LauncherErrorView};
use super::policy::{
    build_cpu_set, cpu_members, cpu_set_failure, cpu_set_values, cpu_sets_equal, exec_failure,
    held_cpus, io_mask, launch_failure, map_io_priority, members_below, number_set,
    prepare_exec_target, CPU_SET_SIZE,
};
use crate::path::UnixPath;
use crate::registry::model::IoPriorityClass;
use crate::text::views;

verus! {

/// What the caller has to do next.
pub enum HelperPhase {
    /// Set the affinity of this process.
    SetAffinity { requested: nix::sched::CpuSet },
    /// Read the affinity of this process.
    ReadAffinity { requested: nix::sched::CpuSet },
    /// Set the nice value of this process.
    SetNice,
    /// Read the nice value of this process.
    ReadNice,
    /// Set the I/O priority of this process.
    SetIoPriority { mask: u16 },
    /// Read the I/O priority of this process.
    ReadIoPriority { mask: u16 },
    /// Send `Ready`.
    SendReady,
    /// Replace this process by the target.
    Exec,
    /// Send a failure with the error's stage and message.
    SendFailure { error: LauncherError },
    Stopped { error: LauncherError },
}

/// A phase by its contents.
pub enum HelperPhaseView {
    SetAffinity { requested: nix::sched::CpuSet },
    ReadAffinity { requested: nix::sched::CpuSet },
    SetNice,
    ReadNice,
    SetIoPriority { mask: u16 },
    ReadIoPriority { mask: u16 },
    SendReady,
    Exec,
    SendFailure { error: LauncherErrorView },
    Stopped { error: LauncherErrorView },
}

impl View for HelperPhase {
    type V = HelperPhaseView;

    open spec fn view(&self) -> HelperPhaseView {
        match self {
            HelperPhase::SetAffinity { requested } => HelperPhaseView::SetAffinity {
                requested: *requested,
            },
            HelperPhase::ReadAffinity { requested } => HelperPhaseView::ReadAffinity {
                requested: *requested,
            },
            HelperPhase::SetNice => HelperPhaseView::SetNice,
            HelperPhase::ReadNice => HelperPhaseView::ReadNice,
            HelperPhase::SetIoPriority { mask } => HelperPhaseView::SetIoPriority {
                mask: *mask,
            },
            HelperPhase::ReadIoPriority { mask } => HelperPhaseView::ReadIoPriority {
                mask: *mask,
            },
            HelperPhase::SendReady => HelperPhaseView::SendReady,
            HelperPhase::Exec => HelperPhaseView::Exec,
            HelperPhase::SendFailure { error } => HelperPhaseView::SendFailure { error: error@ },
            HelperPhase::Stopped { error } => HelperPhaseView::Stopped { error: error@ },
        }
    }
}

/// What came of the last action. A failure comes with the system's message.
pub enum HelperEvent {
    Succeeded,
    Affinity(nix::sched::CpuSet),
    Nice(i32),
    IoPriority(u16),
    Failed(String),
}

/// A helper on its way to the target.
pub struct ExecHelper {
    pub nice: i8,
    pub io_class: IoPriorityClass,
    pub io_priority: Option<u8>,
    pub executable: UnixPath,
    pub phase: HelperPhase,
}

/// A helper by its contents.
pub struct HelperView {
    pub nice: i8,
    pub io_class: IoPriorityClass,
    pub io_priority: Option<u8>,
    pub executable: Seq<u8>,
    pub phase: HelperPhaseView,
}

impl View for ExecHelper {
    type V = HelperView;

    open spec fn view(&self) -> HelperView {
        HelperView {
            nice: self.nice,
            io_class: self.io_class,
            io_priority: self.io_priority,
            executable: self.executable@,
            phase: self.phase@,
        }
    }
}

/// What is wrong with an affinity that was read back.
pub open spec fn affinity_failure(
    requested: nix::sched::CpuSet,
    actual: nix::sched::CpuSet,
) -> Option<LauncherErrorView> {
    if held_cpus(requested) == held_cpus(actual) {
        None
    } else {
        Some(
            LauncherErrorView::AffinityMismatch {
                requested: members_below(cpu_members(requested), CPU_SET_SIZE as int),
                actual: members_below(cpu_members(actual), CPU_SET_SIZE as int),
            },
        )
    }
}

/// Whether an affinity that was read back is the requested one.
pub fn check_affinity(requested: &nix::sched::CpuSet, actual: &nix::sched::CpuSet) -> (out: Result<
    (),
    LauncherError,
>)
    ensures
        launch_failure(out) == affinity_failure(*requested, *actual),
{
    if cpu_sets_equal(requested, actual) {
        Ok(())
    } else {
        Err(
            LauncherError::AffinityMismatch {
                requested: cpu_set_values(requested),
                actual: cpu_set_values(actual),
            },
        )
    }
}

impl HelperView {
    pub open spec fn in_phase(self, phase: HelperPhaseView) -> HelperView {
        HelperView { phase, ..self }
    }

    pub open spec fn failed(self, error: LauncherErrorView) -> HelperView {
        self.in_phase(HelperPhaseView::SendFailure { error })
    }

    /// The helper when its nice value is confirmed.
    pub open spec fn with_nice(self) -> HelperView {
        match io_mask(self.io_class, self.io_priority) {
            Err(error) => self.failed(error),
            Ok(None) => self.in_phase(HelperPhaseView::SendReady),
            Ok(Some(mask)) => self.in_phase(HelperPhaseView::SetIoPriority { mask }),
        }
    }

    /// The error for an action that failed.
    pub open spec fn error_of(self, source: Seq<char>) -> LauncherErrorView {
        match self.phase {
            HelperPhaseView::SetAffinity { .. } | HelperPhaseView::ReadAffinity { .. } => {
                LauncherErrorView::ApplyAffinity { source }
            },
            HelperPhaseView::SetNice | HelperPhaseView::ReadNice => LauncherErrorView::ApplyNice {
                nice: self.nice,
                source,
            },
            HelperPhaseView::SetIoPriority { .. } | HelperPhaseView::ReadIoPriority { .. } => {
                LauncherErrorView::ApplyIoPriority {
                    class: self.io_class,
                    priority: self.io_priority,
                    source,
                }
            },
            HelperPhaseView::Exec => LauncherErrorView::Exec {
                executable: self.executable,
                source,
            },
            _ => LauncherErrorView::HelperAcknowledgement { source },
        }
    }

    /// The helper after an outcome. One that does not answer the phase changes
    /// nothing.
    pub open spec fn next(self, event: HelperEvent) -> HelperView {
        match (self.phase, event) {
            (HelperPhaseView::SetAffinity { requested }, HelperEvent::Succeeded) => self.in_phase(
                HelperPhaseView::ReadAffinity { requested },
            ),
            (HelperPhaseView::ReadAffinity { requested }, HelperEvent::Affinity(actual)) => {
                match affinity_failure(requested, actual) {
                    Some(error) => self.failed(error),
                    None => self.in_phase(HelperPhaseView::SetNice),
                }
            },
            (HelperPhaseView::SetNice, HelperEvent::Succeeded) => self.in_phase(
                HelperPhaseView::ReadNice,
            ),
            (HelperPhaseView::ReadNice, HelperEvent::Nice(actual)) => if actual == self.nice {
                self.with_nice()
            } else {
                self.failed(LauncherErrorView::NiceMismatch { requested: self.nice, actual })
            },
            (HelperPhaseView::SetIoPriority { mask }, HelperEvent::Succeeded) => {
                self.in_phase(HelperPhaseView::ReadIoPriority { mask })
            },
            (HelperPhaseView::ReadIoPriority { mask }, HelperEvent::IoPriority(actual)) => {
                if actual == mask {
                    self.in_phase(HelperPhaseView::SendReady)
                } else {
                    self.failed(
                        LauncherErrorView::IoPriorityMismatch { requested: mask, actual },
                    )
                }
            },
            (HelperPhaseView::SendReady, HelperEvent::Succeeded) => self.in_phase(
                HelperPhaseView::Exec,
            ),
            (HelperPhaseView::SendReady, HelperEvent::Failed(source)) => self.in_phase(
                HelperPhaseView::Stopped { error: self.error_of(source@) },
            ),
            (
                HelperPhaseView::SendFailure { error },
                HelperEvent::Succeeded | HelperEvent::Failed(_),
            ) => self.in_phase(HelperPhaseView::Stopped { error }),
            (HelperPhaseView::Stopped { .. }, _) => self,
            (_, HelperEvent::Failed(source)) => self.failed(self.error_of(source@)),
            _ => self,
        }
    }

    /// The helper after some outcomes.
    pub open spec fn after(self, events: Seq<HelperEvent>) -> HelperView
        decreases events.len(),
    {
        if events.len() == 0 {
            self
        } else {
            self.after(events.drop_last()).next(events.last())
        }
    }
}

impl ExecHelper {
    /// A helper for a target. Where the target cannot be passed to exec or the
    /// CPUs cannot be an affinity set, it begins with that failure.
    pub fn begin(
        cpus: &Vec<u32>,
        nice: i8,
        io_class: IoPriorityClass,
        io_priority: Option<u8>,
        executable: UnixPath,
        arguments: &Vec<UnixPath>,
    ) -> (out: ExecHelper)
        ensures
            out.nice == nice,
            out.io_class == io_class,
            out.io_priority == io_priority,
            out.executable == executable,
            match exec_failure(executable@, views(arguments@)) {
                Some(error) => out.phase@ == (HelperPhaseView::SendFailure { error }),
                None => match cpu_set_failure(cpus@) {
                    Some(error) => out.phase@ == (HelperPhaseView::SendFailure { error }),
                    None => out.phase@ matches HelperPhaseView::SetAffinity { requested }
                        && cpu_members(requested) == number_set(cpus@),
                },
            },
    {
        match prepare_exec_target(&executable, arguments) {
            Ok(_) => {},
            Err(error) => {
                return ExecHelper {
                    nice,
                    io_class,
                    io_priority,
                    executable,
                    phase: HelperPhase::SendFailure { error },
                };
            },
        }
        let phase = match build_cpu_set(cpus) {
            Ok(requested) => HelperPhase::SetAffinity { requested },
            Err(error) => HelperPhase::SendFailure { error },
        };
        ExecHelper { nice, io_class, io_priority, executable, phase }
    }

    fn in_phase(self, phase: HelperPhase) -> (out: ExecHelper)
        ensures
            out@ == self@.in_phase(phase@),
    {
        ExecHelper { phase, ..self }
    }

    fn failed(self, error: LauncherError) -> (out: ExecHelper)
        ensures
            out@ == self@.failed(error@),
    {
        self.in_phase(HelperPhase::SendFailure { error })
    }

    fn with_nice(self) -> (out: ExecHelper)
        ensures
            out@ == self@.with_nice(),
    {
        match map_io_priority(self.io_class, self.io_priority) {
            Err(error) => self.failed(error),
            Ok(None) => self.in_phase(HelperPhase::SendReady),
            Ok(Some(mask)) => self.in_phase(HelperPhase::SetIoPriority { mask }),
        }
    }

    fn error_of(&self, source: String) -> (out: LauncherError)
        ensures
            out@ == self@.error_of(source@),
    {
        match &self.phase {
            HelperPhase::SetAffinity { .. } | HelperPhase::ReadAffinity { .. } => {
                LauncherError::ApplyAffinity { source }
            },
            HelperPhase::SetNice | HelperPhase::ReadNice => LauncherError::ApplyNice {
                nice: self.nice,
                source,
            },
            HelperPhase::SetIoPriority { .. } | HelperPhase::ReadIoPriority { .. } => {
                LauncherError::ApplyIoPriority {
                    class: self.io_class,
                    priority: self.io_priority,
                    source,
                }
            },
            HelperPhase::Exec => LauncherError::Exec {
                executable: self.executable.clone(),
                source,
            },
            _ => LauncherError::HelperAcknowledgement { source },
        }
    }

    fn fail_with(self, source: String) -> (out: ExecHelper)
        ensures
            out@ == self@.failed(self@.error_of(source@)),
    {
        let error = self.error_of(source);
        self.failed(error)
    }

    /// The helper after an outcome.
    pub fn step(self, event: HelperEvent) -> (out: ExecHelper)
        ensures
            out@ == self@.next(event),
    {
        let ExecHelper { nice, io_class, io_priority, executable, phase } = self;
        let base = ExecHelper {
            nice,
            io_class,
            io_priority,
            executable,
            phase: HelperPhase::SetNice,
        };
        match (phase, event) {
            (HelperPhase::SetAffinity { requested }, HelperEvent::Succeeded) => base.in_phase(
                HelperPhase::ReadAffinity { requested },
            ),
            (HelperPhase::ReadAffinity { requested }, HelperEvent::Affinity(actual)) => {
                match check_affinity(&requested, &actual) {
                    Ok(_) => base.in_phase(HelperPhase::SetNice),
                    Err(error) => base.failed(error),
                }
            },
            (HelperPhase::SetNice, HelperEvent::Succeeded) => base.in_phase(HelperPhase::ReadNice),
            (HelperPhase::ReadNice, HelperEvent::Nice(actual)) => {
                if actual == nice as i32 {
                    base.with_nice()
                } else {
                    base.failed(LauncherError::NiceMismatch { requested: nice, actual })
                }
            },
            (HelperPhase::SetIoPriority { mask }, HelperEvent::Succeeded) => base.in_phase(
                HelperPhase::ReadIoPriority { mask },
            ),
            (HelperPhase::ReadIoPriority { mask }, HelperEvent::IoPriority(actual)) => {
                if actual == mask {
                    base.in_phase(HelperPhase::SendReady)
                } else {
                    base.failed(LauncherError::IoPriorityMismatch { requested: mask, actual })
                }
            },
            (HelperPhase::SendReady, HelperEvent::Succeeded) => base.in_phase(HelperPhase::Exec),
            (HelperPhase::SendReady, HelperEvent::Failed(source)) => base.in_phase(
                HelperPhase::Stopped { error: LauncherError::HelperAcknowledgement { source } },
            ),
            (
                HelperPhase::SendFailure { error },
                HelperEvent::Succeeded | HelperEvent::Failed(_),
            ) => base.in_phase(HelperPhase::Stopped { error }),
            (HelperPhase::Stopped { error }, _) => base.in_phase(HelperPhase::Stopped { error }),
            (phase, HelperEvent::Failed(source)) => base.in_phase(phase).fail_with(source),
            (phase, _) => base.in_phase(phase),
        }
    }
}

/// The message with which a helper reports an error.
pub fn failure_message(error: &LauncherError) -> (out: AcknowledgementMessage)
    ensures
        out matches AcknowledgementMessage::Failure { stage, reason } && stage == error_stage(
            error@,
        ) && reason@ == launcher_error_text(error@),
{
    AcknowledgementMessage::Failure { stage: error.helper_stage(), reason: error.message() }
}

/// Why a descriptor cannot be the acknowledgement channel.
pub fn check_channel(channel: i32) -> (out: Result<(), LauncherError>)
    ensures
        launch_failure(out) == if channel < 3 {
            Some(
                LauncherErrorView::HelperAcknowledgement {
                    source: "acknowledgement descriptor must be at least 3"@,
                },
            )
        } else {
            None
        },
{
    if channel < 3 {
        Err(
            LauncherError::HelperAcknowledgement {
                source: "acknowledgement descriptor must be at least 3".to_owned(),
            },
        )
    } else {
        Ok(())
    }
}

/// The kernel confirmed the affinity that a helper asked for.
pub open spec fn affinity_confirmed(events: Seq<HelperEvent>, requested: nix::sched::CpuSet) -> bool {
    exists|i: int|
        0 <= i < events.len() && (#[trigger] events[i] matches HelperEvent::Affinity(actual)
            && held_cpus(actual) == held_cpus(requested))
}

/// The kernel confirmed a nice value.
pub open spec fn nice_confirmed(events: Seq<HelperEvent>, nice: i8) -> bool {
    exists|i: int| 0 <= i < events.len() && #[trigger] events[i] == HelperEvent::Nice(nice as i32)
}

/// The kernel confirmed an I/O priority.
pub open spec fn io_confirmed(events: Seq<HelperEvent>, mask: u16) -> bool {
    exists|i: int| 0 <= i < events.len() && #[trigger] events[i] == HelperEvent::IoPriority(mask)
}

spec fn past_affinity(phase: HelperPhaseView) -> bool {
    phase is SetNice || phase is ReadNice || past_nice(phase)
}

spec fn past_nice(phase: HelperPhaseView) -> bool {
    phase is SetIoPriority || phase is ReadIoPriority || past_io(phase)
}

spec fn past_io(phase: HelperPhaseView) -> bool {
    phase is SendReady || phase is Exec
}

proof fn lemma_confirmed(start: HelperView, requested: nix::sched::CpuSet, events: Seq<HelperEvent>)
    requires
        start.phase == (HelperPhaseView::SetAffinity { requested }),
    ensures
        ({
            let now = start.after(events);
            &&& now.nice == start.nice
            &&& now.io_class == start.io_class
            &&& now.io_priority == start.io_priority
            &&& now.phase matches HelperPhaseView::SetAffinity { requested: r } ==> r == requested
            &&& now.phase matches HelperPhaseView::ReadAffinity { requested: r } ==> r == requested
            &&& now.phase matches HelperPhaseView::SetIoPriority { mask: m } ==> io_mask(
                start.io_class,
                start.io_priority,
            ) == Ok::<Option<u16>, LauncherErrorView>(Some(m))
            &&& now.phase matches HelperPhaseView::ReadIoPriority { mask: m } ==> io_mask(
                start.io_class,
                start.io_priority,
            ) == Ok::<Option<u16>, LauncherErrorView>(Some(m))
            &&& past_affinity(now.phase) ==> affinity_confirmed(events, requested)
            &&& past_nice(now.phase) ==> nice_confirmed(events, start.nice)
            &&& past_io(now.phase) ==> match io_mask(start.io_class, start.io_priority) {
                Ok(None) => true,
                Ok(Some(mask)) => io_confirmed(events, mask),
                Err(_) => false,
            }
        }),
    decreases events.len(),
{
    if events.len() > 0 {
        let front = events.drop_last();
        lemma_confirmed(start, requested, front);
        let before = start.after(front);
        let last = events.len() - 1;
        assert(events[last] == events.last());
        if affinity_confirmed(front, requested) {
            let i = choose|i: int|
                0 <= i < front.len() && (#[trigger] front[i] matches HelperEvent::Affinity(actual)
                    && held_cpus(actual) == held_cpus(requested));
            assert(events[i] == front[i]);
        }
        if nice_confirmed(front, start.nice) {
            let i = choose|i: int|
                0 <= i < front.len() && #[trigger] front[i] == HelperEvent::Nice(start.nice as i32);
            assert(events[i] == front[i]);
        }
        match io_mask(start.io_class, start.io_priority) {
            Ok(Some(mask)) => {
                if io_confirmed(front, mask) {
                    let i = choose|i: int|
                        0 <= i < front.len() && #[trigger] front[i] == HelperEvent::IoPriority(
                            mask,
                        );
                    assert(events[i] == front[i]);
                }
            },
            _ => {},
        }
    }
}

/// A helper says that it is ready, and becomes the target, only after the
/// kernel has confirmed the affinity, the nice value and the I/O priority that
/// were asked for.
pub proof fn ready_only_with_confirmed_policy(
    start: HelperView,
    requested: nix::sched::CpuSet,
    events: Seq<HelperEvent>,
)
    requires
        start.phase == (HelperPhaseView::SetAffinity { requested }),
        start.after(events).phase is SendReady || start.after(events).phase is Exec,
    ensures
        affinity_confirmed(events, requested),
        nice_confirmed(events, start.nice),
        match io_mask(start.io_class, start.io_priority) {
            Ok(None) => true,
            Ok(Some(mask)) => io_confirmed(events, mask),
            Err(_) => false,
        },
{
    lemma_confirmed(start, requested, events);
}

/// The I/O priority that a helper sets is the one that was asked for, and the
/// class that stands for none leaves the priority alone.
pub proof fn only_the_requested_io_priority_is_set(
    start: HelperView,
    requested: nix::sched::CpuSet,
    events: Seq<HelperEvent>,
)
    requires
        start.phase == (HelperPhaseView::SetAffinity { requested }),
    ensures
        start.after(events).phase matches HelperPhaseView::SetIoPriority { mask } ==> io_mask(
            start.io_class,
            start.io_priority,
        ) == Ok::<Option<u16>, LauncherErrorView>(Some(mask)),
        start.io_class == IoPriorityClass::Unset ==> !(start.after(events).phase is SetIoPriority)
            && !(start.after(events).phase is ReadIoPriority),
{
    lemma_confirmed(start, requested, events);
}

/// A helper that could not take on its policy reports the failure before it
/// stops, unless the channel itself failed.
pub proof fn failures_are_reported(state: HelperView, event: HelperEvent)
    requires
        state.next(event).phase is Stopped,
    ensures
        state.phase is Stopped || state.phase is SendFailure || (state.phase is SendReady
            && event is Failed),
{
}

} // verus!
