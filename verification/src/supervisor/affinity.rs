//! Bringing the threads of one process back to their CPUs.
//!
//! An [`AffinityCheck`] decides and its caller acts. In each phase the caller
//! does what the phase asks for and hands the outcome to
//! [`AffinityCheck::step`], until the phase is `Finished` or `Failed`.
use vstd::prelude::*;

use super::procfs::{numbers_outcome, IdentityOutcome, IdentityView, ProcessIdentity};
use super::types::{SupervisorError, SupervisorErrorView};
use crate::launcher::error::{LauncherError, LauncherErrorView};
use crate::launcher::policy::{
    build_cpu_set, cpu_members, cpu_set_values, cpu_sets_equal, first_invalid_cpu, held_cpus,
    members_below, number_set, CPU_SET_SIZE,
};
use crate::order::copy_numbers;

verus! {

/// What became of the threads of a process.
#[derive(Clone, Copy, Debug, PartialEq, Eq, Structural)]
pub enum AffinityResult {
    AlreadyCorrect,
    /// How many threads were changed.
    Updated(u64),
    /// The process is gone, or is another one.
    Vanished,
}

/// What the caller has to do next.
pub enum AffinityPhase {
    /// Look at the process.
    Identify,
    /// List the threads of the process.
    ListTasks,
    /// Look at the process again, and whether the thread belongs to it.
    Inspect { tid: u32 },
    /// Read the affinity of the thread.
    Read { tid: u32 },
    /// Set the affinity of the thread.
    Apply { tid: u32 },
    /// Read the affinity of the thread again.
    Confirm { tid: u32 },
    Finished(AffinityResult),
    Failed(SupervisorError),
}

/// A phase by its contents.
pub enum AffinityPhaseView {
    Identify,
    ListTasks,
    Inspect { tid: u32 },
    Read { tid: u32 },
    Apply { tid: u32 },
    Confirm { tid: u32 },
    Finished(AffinityResult),
    Failed(SupervisorErrorView),
}

impl View for AffinityPhase {
    type V = AffinityPhaseView;

    open spec fn view(&self) -> AffinityPhaseView {
        match self {
            AffinityPhase::Identify => AffinityPhaseView::Identify,
            AffinityPhase::ListTasks => AffinityPhaseView::ListTasks,
            AffinityPhase::Inspect { tid } => AffinityPhaseView::Inspect { tid: *tid },
            AffinityPhase::Read { tid } => AffinityPhaseView::Read { tid: *tid },
            AffinityPhase::Apply { tid } => AffinityPhaseView::Apply { tid: *tid },
            AffinityPhase::Confirm { tid } => AffinityPhaseView::Confirm { tid: *tid },
            AffinityPhase::Finished(result) => AffinityPhaseView::Finished(*result),
            AffinityPhase::Failed(e) => AffinityPhaseView::Failed(e@),
        }
    }
}

/// What came of the last action. A failure comes with the system's message.
pub enum AffinityEvent {
    Identity(IdentityOutcome),
    Tasks(Result<Vec<u32>, String>),
    /// What was found of the process, and whether the thread belongs to it.
    Inspected { identity: IdentityOutcome, belongs: Result<bool, String> },
    Affinity(nix::sched::CpuSet),
    Succeeded,
    /// There is no such thread any more.
    Gone(String),
    Failed(String),
}

/// The check of one process.
pub struct AffinityCheck {
    pub process: ProcessIdentity,
    /// The CPUs on which the process belongs.
    pub expected: Option<nix::sched::CpuSet>,
    pub cpus: Vec<u32>,
    /// The threads that are still to be looked at, the last one first.
    pub waiting: Vec<u32>,
    /// How many threads were changed.
    pub updates: u64,
    pub phase: AffinityPhase,
}

/// A check by its contents.
pub struct AffinityCheckView {
    pub process: ProcessIdentity,
    /// The members of the affinity set that was computed, if one was.
    pub expected: Option<Set<int>>,
    pub cpus: Seq<u32>,
    pub waiting: Seq<u32>,
    pub updates: u64,
    pub phase: AffinityPhaseView,
}

impl View for AffinityCheck {
    type V = AffinityCheckView;

    open spec fn view(&self) -> AffinityCheckView {
        AffinityCheckView {
            process: self.process,
            expected: match self.expected {
                Some(set) => Some(cpu_members(set)),
                None => None,
            },
            cpus: self.cpus@,
            waiting: self.waiting@,
            updates: self.updates,
            phase: self.phase@,
        }
    }
}

/// Why some CPUs cannot be enforced.
pub open spec fn enforced_failure(cpus: Seq<u32>) -> Option<SupervisorErrorView> {
    if cpus.len() == 0 {
        Some(SupervisorErrorView::EmptyAffinity)
    } else {
        match first_invalid_cpu(cpus) {
            Some(LauncherErrorView::InvalidAffinityCpu { cpu, source }) => Some(
                SupervisorErrorView::InvalidAffinityCpu { cpu, source },
            ),
            _ => None,
        }
    }
}

proof fn lemma_first_invalid_kind(cpus: Seq<u32>)
    ensures
        first_invalid_cpu(cpus) is Some ==> first_invalid_cpu(cpus)->0 is InvalidAffinityCpu,
    decreases cpus.len(),
{
    if cpus.len() > 0 {
        lemma_first_invalid_kind(cpus.drop_last());
    }
}

/// The affinity set of some CPUs.
pub fn cpu_set(cpus: &Vec<u32>) -> (out: Result<nix::sched::CpuSet, SupervisorError>)
    ensures
        match enforced_failure(cpus@) {
            Some(e) => out matches Err(error) && error@ == e,
            None => out matches Ok(set) && cpu_members(set) == number_set(cpus@),
        },
{
    proof {
        lemma_first_invalid_kind(cpus@);
    }
    match build_cpu_set(cpus) {
        Ok(set) => Ok(set),
        Err(LauncherError::InvalidAffinityCpu { cpu, source }) => Err(
            SupervisorError::InvalidAffinityCpu { cpu, source },
        ),
        Err(_) => Err(SupervisorError::EmptyAffinity),
    }
}

/// The CPUs that a set of them holds, in ascending order.
pub open spec fn set_values(members: Set<int>) -> Seq<u32> {
    members_below(members, CPU_SET_SIZE as int)
}

/// The set is the one that is expected.
pub open spec fn is_expected(cpus: Seq<u32>, actual: nix::sched::CpuSet) -> bool {
    held_cpus(actual) == number_set(cpus).intersect(
        Set::new(|cpu: int| 0 <= cpu < CPU_SET_SIZE),
    )
}

impl AffinityCheckView {
    pub open spec fn in_phase(self, phase: AffinityPhaseView) -> AffinityCheckView {
        AffinityCheckView { phase, ..self }
    }

    pub open spec fn failed(self, e: SupervisorErrorView) -> AffinityCheckView {
        self.in_phase(AffinityPhaseView::Failed(e))
    }

    /// The check when it is done with a thread.
    pub open spec fn advanced(self) -> AffinityCheckView {
        if self.waiting.len() == 0 {
            self.in_phase(
                AffinityPhaseView::Finished(
                    if self.updates == 0 {
                        AffinityResult::AlreadyCorrect
                    } else {
                        AffinityResult::Updated(self.updates)
                    },
                ),
            )
        } else {
            AffinityCheckView {
                waiting: self.waiting.drop_last(),
                phase: AffinityPhaseView::Inspect { tid: self.waiting.last() },
                ..self
            }
        }
    }

    /// The check when it is known what process there is.
    pub open spec fn with_identity(self, seen: IdentityView) -> AffinityCheckView {
        if seen is Failed {
            self.failed(
                SupervisorErrorView::InspectProcess {
                    pid: self.process.pid,
                    source: seen->Failed_0,
                },
            )
        } else if !seen.is(self.process) {
            self.in_phase(AffinityPhaseView::Finished(AffinityResult::Vanished))
        } else {
            match enforced_failure(self.cpus) {
                Some(e) => self.failed(e),
                None => AffinityCheckView {
                    expected: Some(number_set(self.cpus)),
                    phase: AffinityPhaseView::ListTasks,
                    ..self
                },
            }
        }
    }

    /// The check when its threads are known.
    pub open spec fn with_tasks(self, tasks: Result<Seq<u32>, Seq<char>>) -> AffinityCheckView {
        match tasks {
            Err(source) => self.failed(
                SupervisorErrorView::InspectProcess { pid: self.process.pid, source },
            ),
            Ok(tids) => if tids.len() == 0 {
                self.in_phase(AffinityPhaseView::Finished(AffinityResult::Vanished))
            } else {
                AffinityCheckView { waiting: tids.reverse(), ..self }.advanced()
            },
        }
    }

    /// The check when it is known whether a thread belongs to the process.
    pub open spec fn with_thread(
        self,
        tid: u32,
        seen: IdentityView,
        belongs: Result<bool, Seq<char>>,
    ) -> AffinityCheckView {
        if seen is Failed {
            self.failed(
                SupervisorErrorView::InspectProcess {
                    pid: self.process.pid,
                    source: seen->Failed_0,
                },
            )
        } else if belongs is Err {
            self.failed(
                SupervisorErrorView::InspectProcess { pid: tid, source: belongs->Err_0 },
            )
        } else if !seen.is(self.process) || !belongs->Ok_0 {
            self.advanced()
        } else if tid > i32::MAX {
            self.failed(SupervisorErrorView::InvalidPid { pid: tid })
        } else {
            self.in_phase(AffinityPhaseView::Read { tid })
        }
    }

    /// The check when the affinity that a thread kept is known.
    pub open spec fn with_kept(self, tid: u32, kept: nix::sched::CpuSet) -> AffinityCheckView {
        if is_expected(self.cpus, kept) {
            AffinityCheckView {
                updates: if self.updates == u64::MAX {
                    u64::MAX
                } else {
                    (self.updates + 1) as u64
                },
                ..self
            }.advanced()
        } else {
            self.failed(
                SupervisorErrorView::AffinityMismatch {
                    pid: tid,
                    requested: set_values(number_set(self.cpus)),
                    actual: set_values(cpu_members(kept)),
                },
            )
        }
    }

    /// The check after an outcome. One that does not answer the phase changes
    /// nothing.
    pub open spec fn next(self, event: AffinityEvent) -> AffinityCheckView {
        match (self.phase, event) {
            (AffinityPhaseView::Identify, AffinityEvent::Identity(seen)) => self.with_identity(
                seen@,
            ),
            (AffinityPhaseView::ListTasks, AffinityEvent::Tasks(tasks)) => self.with_tasks(
                numbers_outcome(tasks),
            ),
            (
                AffinityPhaseView::Inspect { tid },
                AffinityEvent::Inspected { identity, belongs },
            ) => self.with_thread(tid, identity@, belongs_view(belongs)),
            (AffinityPhaseView::Read { tid }, AffinityEvent::Affinity(actual)) => if is_expected(
                self.cpus,
                actual,
            ) {
                self.advanced()
            } else {
                self.in_phase(AffinityPhaseView::Apply { tid })
            },
            (AffinityPhaseView::Apply { tid }, AffinityEvent::Succeeded) => self.in_phase(
                AffinityPhaseView::Confirm { tid },
            ),
            (
                AffinityPhaseView::Read { tid } | AffinityPhaseView::Apply { tid },
                AffinityEvent::Gone(_),
            ) => self.advanced(),
            (AffinityPhaseView::Confirm { tid }, AffinityEvent::Affinity(kept)) => self.with_kept(
                tid,
                kept,
            ),
            (
                AffinityPhaseView::Read { tid } | AffinityPhaseView::Apply {
                    tid,
                } | AffinityPhaseView::Confirm { tid },
                AffinityEvent::Failed(source),
            ) => self.failed(SupervisorErrorView::EnforceAffinity { pid: tid, source: source@ }),
            (AffinityPhaseView::Confirm { tid }, AffinityEvent::Gone(source)) => self.failed(
                SupervisorErrorView::EnforceAffinity { pid: tid, source: source@ },
            ),
            _ => self,
        }
    }

    /// The check after some outcomes.
    pub open spec fn after(self, events: Seq<AffinityEvent>) -> AffinityCheckView
        decreases events.len(),
    {
        if events.len() == 0 {
            self
        } else {
            self.after(events.drop_last()).next(events.last())
        }
    }
}

pub open spec fn belongs_view(belongs: Result<bool, String>) -> Result<bool, Seq<char>> {
    match belongs {
        Ok(found) => Ok(found),
        Err(message) => Err(message@),
    }
}

impl AffinityCheck {
    /// Where the affinity was computed, it is that of the CPUs.
    pub open spec fn well_formed(self) -> bool {
        &&& self.expected matches Some(set) ==> cpu_members(set) == number_set(self.cpus@)
        &&& self.expected is Some || self.phase is Identify || self.phase is Finished
            || self.phase is Failed
    }

    /// The check of a process that belongs on some CPUs.
    pub fn begin(process: ProcessIdentity, cpus: &Vec<u32>) -> (out: AffinityCheck)
        ensures
            out.well_formed(),
            out@ == (AffinityCheckView {
                process,
                expected: None,
                cpus: cpus@,
                waiting: Seq::empty(),
                updates: 0,
                phase: AffinityPhaseView::Identify,
            }),
    {
        AffinityCheck {
            process,
            expected: None,
            cpus: copy_numbers(cpus),
            waiting: Vec::new(),
            updates: 0,
            phase: AffinityPhase::Identify,
        }
    }

    fn fail(&mut self, e: SupervisorError)
        requires
            old(self).well_formed(),
        ensures
            final(self).well_formed(),
            final(self)@ == old(self)@.failed(e@),
    {
        self.phase = AffinityPhase::Failed(e);
    }

    fn advance(&mut self)
        requires
            old(self).well_formed(),
            old(self).expected is Some,
        ensures
            final(self).well_formed(),
            final(self)@ == old(self)@.advanced(),
    {
        match self.waiting.pop() {
            Some(tid) => {
                self.phase = AffinityPhase::Inspect { tid };
            },
            None => {
                self.phase = AffinityPhase::Finished(
                    if self.updates == 0 {
                        AffinityResult::AlreadyCorrect
                    } else {
                        AffinityResult::Updated(self.updates)
                    },
                );
            },
        }
    }

    fn identify(&mut self, seen: IdentityOutcome)
        requires
            old(self).well_formed(),
        ensures
            final(self).well_formed(),
            final(self)@ == old(self)@.with_identity(seen@),
    {
        let same = seen.is_process(self.process);
        match seen {
            IdentityOutcome::Failed(source) => {
                let pid: u32 = self.process.pid;
                self.fail(SupervisorError::InspectProcess { pid, source });
                return;
            },
            _ => {},
        }
        if !same {
            self.phase = AffinityPhase::Finished(AffinityResult::Vanished);
            return;
        }
        match cpu_set(&self.cpus) {
            Ok(set) => {
                self.expected = Some(set);
                self.phase = AffinityPhase::ListTasks;
            },
            Err(e) => {
                self.fail(e);
            },
        }
    }

    fn take_tasks(&mut self, tasks: Result<Vec<u32>, String>)
        requires
            old(self).well_formed(),
            old(self).expected is Some,
        ensures
            final(self).well_formed(),
            final(self)@ == old(self)@.with_tasks(numbers_outcome(tasks)),
    {
        match tasks {
            Err(source) => {
                let pid: u32 = self.process.pid;
                self.fail(SupervisorError::InspectProcess { pid, source });
            },
            Ok(tids) => {
                if tids.len() == 0 {
                    self.phase = AffinityPhase::Finished(AffinityResult::Vanished);
                } else {
                    self.waiting = reversed(&tids);
                    self.advance();
                }
            },
        }
    }

    fn take_thread(&mut self, tid: u32, seen: IdentityOutcome, belongs: Result<bool, String>)
        requires
            old(self).well_formed(),
            old(self).expected is Some,
        ensures
            final(self).well_formed(),
            final(self)@ == old(self)@.with_thread(tid, seen@, belongs_view(belongs)),
    {
        let same = seen.is_process(self.process);
        match seen {
            IdentityOutcome::Failed(source) => {
                let pid: u32 = self.process.pid;
                self.fail(SupervisorError::InspectProcess { pid, source });
                return;
            },
            _ => {},
        }
        let mine = match belongs {
            Ok(mine) => mine,
            Err(source) => {
                self.fail(SupervisorError::InspectProcess { pid: tid, source });
                return;
            },
        };
        if !same || !mine {
            self.advance();
        } else if tid > 0x7FFF_FFFF {
            self.fail(SupervisorError::InvalidPid { pid: tid });
        } else {
            self.phase = AffinityPhase::Read { tid };
        }
    }

    fn compare(&self, actual: &nix::sched::CpuSet) -> (out: bool)
        requires
            self.well_formed(),
            self.expected is Some,
        ensures
            out == is_expected(self.cpus@, *actual),
    {
        match &self.expected {
            Some(expected) => cpu_sets_equal(actual, expected),
            None => false,
        }
    }

    fn take_kept(&mut self, tid: u32, kept: nix::sched::CpuSet)
        requires
            old(self).well_formed(),
            old(self).expected is Some,
        ensures
            final(self).well_formed(),
            final(self)@ == old(self)@.with_kept(tid, kept),
    {
        if self.compare(&kept) {
            if self.updates < u64::MAX {
                self.updates = self.updates + 1;
            }
            self.advance();
        } else {
            let requested = match &self.expected {
                Some(expected) => cpu_set_values(expected),
                None => Vec::new(),
            };
            let actual = cpu_set_values(&kept);
            self.fail(SupervisorError::AffinityMismatch { pid: tid, requested, actual });
        }
    }

    /// Take in an outcome.
    pub fn step(&mut self, event: AffinityEvent)
        requires
            old(self).well_formed(),
        ensures
            final(self).well_formed(),
            final(self)@ == old(self)@.next(event),
    {
        match (&self.phase, event) {
            (AffinityPhase::Identify, AffinityEvent::Identity(seen)) => {
                self.identify(seen);
            },
            (AffinityPhase::ListTasks, AffinityEvent::Tasks(tasks)) => {
                self.take_tasks(tasks);
            },
            (AffinityPhase::Inspect { tid }, AffinityEvent::Inspected { identity, belongs }) => {
                let tid: u32 = *tid;
                self.take_thread(tid, identity, belongs);
            },
            (AffinityPhase::Read { tid }, AffinityEvent::Affinity(actual)) => {
                let tid: u32 = *tid;
                if self.compare(&actual) {
                    self.advance();
                } else {
                    self.phase = AffinityPhase::Apply { tid };
                }
            },
            (AffinityPhase::Apply { tid }, AffinityEvent::Succeeded) => {
                let tid: u32 = *tid;
                self.phase = AffinityPhase::Confirm { tid };
            },
            (
                AffinityPhase::Read { .. } | AffinityPhase::Apply { .. },
                AffinityEvent::Gone(_),
            ) => {
                self.advance();
            },
            (AffinityPhase::Confirm { tid }, AffinityEvent::Affinity(kept)) => {
                let tid: u32 = *tid;
                self.take_kept(tid, kept);
            },
            (
                AffinityPhase::Read { tid } | AffinityPhase::Apply { tid } | AffinityPhase::Confirm {
                    tid,
                },
                AffinityEvent::Failed(source),
            ) => {
                let pid: u32 = *tid;
                self.fail(SupervisorError::EnforceAffinity { pid, source });
            },
            (AffinityPhase::Confirm { tid }, AffinityEvent::Gone(source)) => {
                let pid: u32 = *tid;
                self.fail(SupervisorError::EnforceAffinity { pid, source });
            },
            _ => {},
        }
    }
}

fn reversed(numbers: &Vec<u32>) -> (out: Vec<u32>)
    ensures
        out@ == numbers@.reverse(),
{
    let mut out: Vec<u32> = Vec::new();
    let mut i: usize = numbers.len();
    while i > 0
        invariant
            i <= numbers@.len(),
            out@ == numbers@.skip(i as int).reverse(),
        decreases i,
    {
        i -= 1;
        out.push(numbers[i]);
        assert(out@ =~= numbers@.skip(i as int).reverse());
    }
    assert(numbers@.skip(0) =~= numbers@);
    out
}

} // verus!
